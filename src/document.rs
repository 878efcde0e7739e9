use vstd::prelude::*;

verus! {

/// A node of a parsed YAML document, held as plain values.
#[derive(Debug)]
pub enum Node {
    /// A real number, kept as written.
    Real(String),
    Integer(i64),
    /// A string scalar.
    Str(String),
    Boolean(bool),
    List(Vec<Node>),
    /// A mapping, as key/value pairs in document order, keys unique.
    Hash(Vec<(Node, Node)>),
    Alias(usize),
    Null,
    /// A value that could not be read.
    Bad,
}

/// The characters of a string scalar.
pub open spec fn str_of(n: Node) -> Option<Seq<char>> {
    match n {
        Node::Str(s) => Some(s@),
        _ => None,
    }
}

/// The items of a list.
pub open spec fn list_of(n: Node) -> Option<Seq<Node>> {
    match n {
        Node::List(v) => Some(v@),
        _ => None,
    }
}

/// The entries of a mapping.
pub open spec fn hash_of(n: Node) -> Option<Seq<(Node, Node)>> {
    match n {
        Node::Hash(v) => Some(v@),
        _ => None,
    }
}

/// The value under the string key `key` among `entries`: that of the first
/// entry whose key is that string.
pub open spec fn lookup(entries: Seq<(Node, Node)>, key: Seq<char>) -> Option<Node>
    decreases entries.len(),
{
    if entries.len() == 0 {
        None
    } else if str_of(entries[0].0) == Some(key) {
        Some(entries[0].1)
    } else {
        lookup(entries.drop_first(), key)
    }
}

/// The value under the string key `key` of a node, where it is a mapping.
pub open spec fn member(n: Node, key: Seq<char>) -> Option<Node> {
    match hash_of(n) {
        Some(h) => lookup(h, key),
        None => None,
    }
}

/// The documents of a YAML text, or `None` where the text is not valid YAML.
pub uninterp spec fn yaml_documents(text: Seq<char>) -> Option<Seq<Node>>;

#[verifier::external_type_specification]
#[verifier::external_body]
pub struct ExYaml(yaml_rust::Yaml);

/// Moves a parsed YAML value into a [`Node`], variant for variant.
#[verifier::external_body]
fn node_of(y: yaml_rust::Yaml) -> Node {
    match y {
        yaml_rust::Yaml::Real(s) => Node::Real(s),
        yaml_rust::Yaml::Integer(i) => Node::Integer(i),
        yaml_rust::Yaml::String(s) => Node::Str(s),
        yaml_rust::Yaml::Boolean(b) => Node::Boolean(b),
        yaml_rust::Yaml::Array(v) => Node::List(v.into_iter().map(node_of).collect()),
        yaml_rust::Yaml::Hash(h) => Node::Hash(h.into_iter().map(|(k, v)| (node_of(k), node_of(v))).collect()),
        yaml_rust::Yaml::Alias(a) => Node::Alias(a),
        yaml_rust::Yaml::Null => Node::Null,
        yaml_rust::Yaml::BadValue => Node::Bad,
    }
}

/// Relies on `yaml_rust::YamlLoader::load_from_str`: the documents of `text`,
/// or an error where it is not valid YAML; the result depends on the text alone.
#[verifier::external_body]
fn load_yaml(text: &str) -> (r: Option<Vec<Node>>)
    ensures
        match r {
            Some(d) => yaml_documents(text@) == Some(d@),
            None => yaml_documents(text@) is None,
        },
{
    match yaml_rust::YamlLoader::load_from_str(text) {
        Ok(docs) => Some(docs.into_iter().map(node_of).collect()),
        Err(_) => None,
    }
}

/// Reads the YAML documents of `text`.
pub fn load_documents(text: &str) -> (r: Option<Vec<Node>>)
    ensures
        match r {
            Some(d) => yaml_documents(text@) == Some(d@),
            None => yaml_documents(text@) is None,
        },
{
    load_yaml(text)
}

/// Returns the string scalar held by `n`, if it is one.
pub fn as_str(n: &Node) -> (r: Option<&String>)
    ensures
        match r {
            Some(s) => str_of(*n) == Some(s@),
            None => str_of(*n) is None,
        },
{
    match n {
        Node::Str(s) => Some(s),
        _ => None,
    }
}

/// Returns the items of `n`, if it is a list.
pub fn as_list(n: &Node) -> (r: Option<&Vec<Node>>)
    ensures
        match r {
            Some(v) => list_of(*n) == Some(v@),
            None => list_of(*n) is None,
        },
{
    match n {
        Node::List(v) => Some(v),
        _ => None,
    }
}

/// Returns whether `n` is the string scalar `key`.
fn is_key(n: &Node, key: &str) -> (r: bool)
    ensures
        r == (str_of(*n) == Some(key@)),
{
    match n {
        Node::Str(s) => {
            let k = String::from_str(key);
            *s == k
        },
        _ => false,
    }
}

/// Returns the value under the string key `key` of `n`, where `n` is a mapping
/// that holds that key.
pub fn get<'a>(n: &'a Node, key: &str) -> (r: Option<&'a Node>)
    ensures
        match r {
            Some(v) => member(*n, key@) == Some(*v),
            None => member(*n, key@) is None,
        },
{
    match n {
        Node::Hash(entries) => {
            let mut i: usize = 0;
            assert(entries@.skip(0) =~= entries@);
            while i < entries.len()
                invariant
                    hash_of(*n) == Some(entries@),
                    i <= entries@.len(),
                    lookup(entries@, key@) == lookup(entries@.skip(i as int), key@),
                decreases entries.len() - i,
            {
                assert(entries@.skip(i as int).drop_first() =~= entries@.skip(i + 1));
                if is_key(&entries[i].0, key) {
                    assert(entries@.skip(i as int)[0] == entries@[i as int]);
                    assert(lookup(entries@.skip(i as int), key@) == Some(entries@[i as int].1));
                    return Some(&entries[i].1);
                }
                i += 1;
            }
            assert(entries@.skip(i as int).len() == 0);
            None
        },
        _ => None,
    }
}

} // verus!
