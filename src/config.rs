use crate::document::{as_list, as_str, get, hash_of, list_of, load_documents, lookup, member, str_of, yaml_documents, Node};
use vstd::prelude::*;

verus! {

/// Why a configuration was refused.
#[derive(Debug, PartialEq, Eq, Structural)]
pub enum ConfigError {
    /// The text is not valid YAML.
    InvalidYaml,
    /// A worker entry has no string `hostname`.
    MissingHostname,
    /// A worker entry has no integer `port` that fits a port number.
    BadPort,
    /// A worker entry has no string `local-address`.
    MissingLocalAddress,
    /// A bind entry lacks its string `address` or its integer `port`.
    MalformedBindAddress,
    /// No server entry has a bind entry.
    MissingBindAddress,
}

/// Where one execution handle connects to.
pub struct Endpoint {
    pub hostname: String,
    pub port: u16,
    pub local_addr: String,
}

/// The address the trigger listener binds to.
pub struct BindAddress {
    pub address: String,
    pub port: i64,
}

/// The view of an [`Endpoint`].
pub open spec fn endpoint_view(e: Endpoint) -> (Seq<char>, u16, Seq<char>) {
    (e.hostname@, e.port, e.local_addr@)
}

/// The items of the list under `key`, document after document; documents
/// without such a list add none.
pub open spec fn section(docs: Seq<Node>, key: Seq<char>) -> Seq<Node>
    decreases docs.len(),
{
    if docs.len() == 0 {
        Seq::empty()
    } else {
        section(docs.drop_last(), key) + match member(docs.last(), key) {
            Some(l) => match list_of(l) {
                Some(items) => items,
                None => Seq::empty(),
            },
            None => Seq::empty(),
        }
    }
}

/// The integer held by `n`.
pub open spec fn int_of(n: Node) -> Option<i64> {
    match n {
        Node::Integer(i) => Some(i),
        _ => None,
    }
}

/// The endpoint that a worker entry describes.
pub open spec fn endpoint_of(w: Node) -> Result<(Seq<char>, u16, Seq<char>), ConfigError> {
    let host = match member(w, "hostname"@) {
        Some(h) => str_of(h),
        None => None,
    };
    let port = match member(w, "port"@) {
        Some(p) => int_of(p),
        None => None,
    };
    let local = match member(w, "local-address"@) {
        Some(l) => str_of(l),
        None => None,
    };
    match host {
        None => Err(ConfigError::MissingHostname),
        Some(h) => match port {
            Some(p) if 0 <= p <= 65535 => match local {
                Some(l) => Ok((h, p as u16, l)),
                None => Err(ConfigError::MissingLocalAddress),
            },
            _ => Err(ConfigError::BadPort),
        },
    }
}

/// The endpoints of a list of worker entries, or the error of the first
/// malformed one.
pub open spec fn endpoints_of(ws: Seq<Node>) -> Result<Seq<(Seq<char>, u16, Seq<char>)>, ConfigError>
    decreases ws.len(),
{
    if ws.len() == 0 {
        Ok(Seq::empty())
    } else {
        match endpoints_of(ws.drop_last()) {
            Err(e) => Err(e),
            Ok(p) => match endpoint_of(ws.last()) {
                Err(e) => Err(e),
                Ok(x) => Ok(p.push(x)),
            },
        }
    }
}

proof fn lemma_endpoints_error_prefix(ws: Seq<Node>, i: int)
    requires
        0 <= i <= ws.len(),
        endpoints_of(ws.take(i)) is Err,
    ensures
        endpoints_of(ws) == endpoints_of(ws.take(i)),
    decreases ws.len() - i,
{
    if i < ws.len() {
        assert(ws.take(i + 1).drop_last() =~= ws.take(i));
        lemma_endpoints_error_prefix(ws, i + 1);
    } else {
        assert(ws.take(i) =~= ws);
    }
}

/// The bind entry of the first server entry that has one.
pub open spec fn first_bind(servers: Seq<Node>) -> Option<Seq<(Node, Node)>>
    decreases servers.len(),
{
    if servers.len() == 0 {
        None
    } else {
        match member(servers[0], "bind"@) {
            Some(b) => match hash_of(b) {
                Some(h) => Some(h),
                None => first_bind(servers.drop_first()),
            },
            None => first_bind(servers.drop_first()),
        }
    }
}

/// The bind address that the server entries give.
pub open spec fn bind_of(servers: Seq<Node>) -> Result<(Seq<char>, i64), ConfigError> {
    match first_bind(servers) {
        None => Err(ConfigError::MissingBindAddress),
        Some(h) => {
            let address = lookup(h, "address"@);
            let port = lookup(h, "port"@);
            if (address matches Some(a) && str_of(a) is None) || (port matches Some(p) && int_of(p) is None) {
                Err(ConfigError::MalformedBindAddress)
            } else {
                match (address, port) {
                    (Some(a), Some(p)) => Ok((str_of(a)->0, int_of(p)->0)),
                    _ => Err(ConfigError::MalformedBindAddress),
                }
            }
        },
    }
}

/// Collects the items of the lists under `key`, document after document.
fn section_items<'a>(docs: &'a Vec<Node>, key: &str) -> (r: Vec<&'a Node>)
    ensures
        r@.map_values(|n: &Node| *n) == section(docs@, key@),
{
    let mut out: Vec<&Node> = Vec::new();
    let mut i: usize = 0;
    assert(docs@.take(0) =~= Seq::<Node>::empty());
    assert(out@.map_values(|n: &Node| *n) =~= Seq::<Node>::empty());
    while i < docs.len()
        invariant
            i <= docs@.len(),
            out@.map_values(|n: &Node| *n) == section(docs@.take(i as int), key@),
        decreases docs.len() - i,
    {
        assert(docs@.take(i + 1).drop_last() =~= docs@.take(i as int));
        assert(docs@.take(i + 1).last() == docs@[i as int]);
        let ghost before = out@.map_values(|n: &Node| *n);
        match get(&docs[i], key) {
            Some(l) => match as_list(l) {
                Some(items) => {
                    let mut j: usize = 0;
                    while j < items.len()
                        invariant
                            j <= items@.len(),
                            out@.map_values(|n: &Node| *n) == before + items@.take(j as int),
                        decreases items.len() - j,
                    {
                        let ghost prev = out@;
                        out.push(&items[j]);
                        assert(out@.map_values(|n: &Node| *n) =~= prev.map_values(|n: &Node| *n).push(items@[j as int]));
                        assert(items@.take(j + 1) =~= items@.take(j as int).push(items@[j as int]));
                        j += 1;
                    }
                    assert(items@.take(j as int) =~= items@);
                },
                None => {
                    assert(before =~= before + Seq::<Node>::empty());
                },
            },
            None => {
                assert(before =~= before + Seq::<Node>::empty());
            },
        }
        i += 1;
    }
    assert(docs@.take(i as int) =~= docs@);
    out
}

/// The integer held by `n`, if it is one.
fn as_int(n: &Node) -> (r: Option<i64>)
    ensures
        r == int_of(*n),
{
    match n {
        Node::Integer(i) => Some(*i),
        _ => None,
    }
}

/// Reads one worker entry.
fn read_endpoint(w: &Node) -> (r: Result<Endpoint, ConfigError>)
    ensures
        match r {
            Ok(e) => endpoint_of(*w) == Ok::<(Seq<char>, u16, Seq<char>), ConfigError>(endpoint_view(e)),
            Err(e) => endpoint_of(*w) == Err::<(Seq<char>, u16, Seq<char>), ConfigError>(e),
        },
{
    let host = match get(w, "hostname") {
        Some(h) => match as_str(h) {
            Some(s) => s,
            None => return Err(ConfigError::MissingHostname),
        },
        None => return Err(ConfigError::MissingHostname),
    };
    let port = match get(w, "port") {
        Some(p) => match as_int(p) {
            Some(p) => p,
            None => return Err(ConfigError::BadPort),
        },
        None => return Err(ConfigError::BadPort),
    };
    if port < 0 || port > 65535 {
        return Err(ConfigError::BadPort);
    }
    let local = match get(w, "local-address") {
        Some(l) => match as_str(l) {
            Some(s) => s,
            None => return Err(ConfigError::MissingLocalAddress),
        },
        None => return Err(ConfigError::MissingLocalAddress),
    };
    Ok(Endpoint { hostname: host.clone(), port: port as u16, local_addr: local.clone() })
}

/// A configuration: the YAML documents that describe the workers and the
/// trigger listener.
pub struct Config {
    docs: Vec<Node>,
}

impl View for Config {
    type V = Seq<Node>;

    closed spec fn view(&self) -> Seq<Node> {
        self.docs@
    }
}

/// The prefix of the environment variables that a trigger sets.
pub const ENV_VAR_PREFIX: &'static str = "DEMIKERNEL_";

/// The directory that holds the job specifications.
pub const JOBS_HOME: &'static str = "jobs";

impl Config {
    /// Reads a configuration written in YAML.
    pub fn from_text(text: &str) -> (r: Result<Config, ConfigError>)
        ensures
            match r {
                Ok(c) => yaml_documents(text@) == Some(c@),
                Err(e) => e == ConfigError::InvalidYaml && yaml_documents(text@) is None,
            },
    {
        match load_documents(text) {
            Some(docs) => Ok(Config { docs }),
            None => Err(ConfigError::InvalidYaml),
        }
    }

    /// The endpoints of the execution handles, in order: every entry of every
    /// `workers` list.
    pub fn get_workers(&self) -> (r: Result<Vec<Endpoint>, ConfigError>)
        ensures
            match r {
                Ok(v) => endpoints_of(section(self@, "workers"@)) == Ok::<
                    Seq<(Seq<char>, u16, Seq<char>)>,
                    ConfigError,
                >(v@.map_values(|e: Endpoint| endpoint_view(e))),
                Err(e) => endpoints_of(section(self@, "workers"@)) == Err::<
                    Seq<(Seq<char>, u16, Seq<char>)>,
                    ConfigError,
                >(e),
            },
    {
        let items = section_items(&self.docs, "workers");
        let ghost ws = section(self@, "workers"@);
        let mut out: Vec<Endpoint> = Vec::new();
        let mut i: usize = 0;
        assert(ws.take(0) =~= Seq::<Node>::empty());
        assert(out@.map_values(|e: Endpoint| endpoint_view(e)) =~= Seq::<(Seq<char>, u16, Seq<char>)>::empty());
        while i < items.len()
            invariant
                i <= items@.len(),
                items@.map_values(|n: &Node| *n) == ws,
                ws == section(self@, "workers"@),
                endpoints_of(ws.take(i as int)) == Ok::<Seq<(Seq<char>, u16, Seq<char>)>, ConfigError>(
                    out@.map_values(|e: Endpoint| endpoint_view(e)),
                ),
            decreases items.len() - i,
        {
            assert(ws.take(i + 1).drop_last() =~= ws.take(i as int));
            assert(ws.take(i + 1).last() == *items@[i as int]);
            match read_endpoint(items[i]) {
                Ok(e) => {
                    let ghost prev = out@;
                    let ghost ev = endpoint_view(e);
                    out.push(e);
                    assert(out@.map_values(|e: Endpoint| endpoint_view(e)) =~= prev.map_values(
                        |e: Endpoint| endpoint_view(e),
                    ).push(ev));
                },
                Err(e) => {
                    proof {
                        lemma_endpoints_error_prefix(ws, i + 1);
                    }
                    return Err(e);
                },
            }
            i += 1;
        }
        assert(ws.take(i as int) =~= ws);
        Ok(out)
    }

    /// The address of the trigger listener: that of the first `bind` entry of
    /// the `server` lists.
    pub fn addr(&self) -> (r: Result<BindAddress, ConfigError>)
        ensures
            match r {
                Ok(b) => bind_of(section(self@, "server"@)) == Ok::<(Seq<char>, i64), ConfigError>(
                    (b.address@, b.port),
                ),
                Err(e) => bind_of(section(self@, "server"@)) == Err::<(Seq<char>, i64), ConfigError>(e),
            },
    {
        let items = section_items(&self.docs, "server");
        let ghost ss = section(self@, "server"@);
        let mut i: usize = 0;
        assert(ss.skip(0) =~= ss);
        while i < items.len()
            invariant
                i <= items@.len(),
                items@.map_values(|n: &Node| *n) == ss,
                ss == section(self@, "server"@),
                first_bind(ss) == first_bind(ss.skip(i as int)),
            decreases items.len() - i,
        {
            assert(ss.skip(i as int)[0] == *items@[i as int]);
            assert(ss.skip(i as int).drop_first() =~= ss.skip(i + 1));
            match get(items[i], "bind") {
                Some(b) => match b {
                    Node::Hash(h) => {
                        assert(first_bind(ss) == Some(h@));
                        assert(hash_of(*b) == Some(h@));
                        let address = match get(b, "address") {
                            Some(a) => match as_str(a) {
                                Some(s) => Some(s),
                                None => return Err(ConfigError::MalformedBindAddress),
                            },
                            None => None,
                        };
                        let port = match get(b, "port") {
                            Some(p) => match as_int(p) {
                                Some(p) => Some(p),
                                None => return Err(ConfigError::MalformedBindAddress),
                            },
                            None => None,
                        };
                        return match (address, port) {
                            (Some(a), Some(p)) => Ok(BindAddress { address: a.clone(), port: p }),
                            _ => Err(ConfigError::MalformedBindAddress),
                        };
                    },
                    _ => {},
                },
                None => {},
            }
            i += 1;
        }
        assert(ss.skip(i as int).len() == 0);
        Err(ConfigError::MissingBindAddress)
    }

    /// The directory that holds the job specifications.
    pub fn jobs_home(&self) -> (r: String)
        ensures
            r@ == JOBS_HOME@,
    {
        String::from_str(JOBS_HOME)
    }

    /// The prefix of the environment variables that a trigger sets.
    pub fn env_var_prefix() -> (r: String)
        ensures
            r@ == ENV_VAR_PREFIX@,
    {
        String::from_str(ENV_VAR_PREFIX)
    }
}

} // verus!
