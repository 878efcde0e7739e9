use crate::action::strings_view;
use crate::job::pairs_view;
use vstd::prelude::*;

verus! {

/// The pieces of `s` between occurrences of `sep`, as `str::split` gives them.
pub open spec fn split(s: Seq<char>, sep: char) -> Seq<Seq<char>>
    decreases s.len(),
{
    if s.len() == 0 {
        seq![Seq::empty()]
    } else {
        let p = split(s.drop_last(), sep);
        if s.last() == sep {
            p.push(Seq::empty())
        } else {
            p.update(p.len() - 1, p.last().push(s.last()))
        }
    }
}

/// The upper-case form of a string.
pub uninterp spec fn upper_of(s: Seq<char>) -> Seq<char>;

/// Relies on `str::to_uppercase`: the upper-case form of `s`, which depends on
/// its characters alone.
#[verifier::external_body]
fn uppercase(s: &str) -> (r: String)
    ensures
        r@ == upper_of(s@),
{
    s.to_uppercase()
}

/// Splits `s` at each occurrence of `sep`.
pub fn split_on(s: &str, sep: char) -> (r: Vec<String>)
    ensures
        strings_view(r@) == split(s@, sep),
{
    let n = s.unicode_len();
    let mut out: Vec<String> = Vec::new();
    let mut start: usize = 0;
    let mut i: usize = 0;
    assert(s@.take(0) =~= Seq::<char>::empty());
    assert(strings_view(out@) =~= Seq::<Seq<char>>::empty());
    assert(s@.subrange(0, 0) =~= Seq::<char>::empty());
    while i < n
        invariant
            n == s@.len(),
            start <= i <= n,
            split(s@.take(i as int), sep) == strings_view(out@).push(s@.subrange(start as int, i as int)),
        decreases n - i,
    {
        let c = s.get_char(i);
        assert(s@.take(i + 1).drop_last() =~= s@.take(i as int));
        assert(s@.take(i + 1).last() == c);
        if c == sep {
            let piece = String::from_str(s.substring_char(start, i));
            let ghost before = out@;
            out.push(piece);
            assert(strings_view(out@) =~= strings_view(before).push(piece@));
            assert(s@.subrange(i + 1, i + 1) =~= Seq::<char>::empty());
            start = i + 1;
        } else {
            assert(s@.subrange(start as int, i + 1) =~= s@.subrange(start as int, i as int).push(c));
        }
        i += 1;
    }
    let last = String::from_str(s.substring_char(start, n));
    let ghost before = out@;
    out.push(last);
    assert(strings_view(out@) =~= strings_view(before).push(last@));
    assert(s@.take(n as int) =~= s@);
    out
}

/// Sets `key` to `value` among `params`: in place where the key is there,
/// appended where it is not.
pub open spec fn set_param(params: Seq<(Seq<char>, Seq<char>)>, key: Seq<char>, value: Seq<char>) -> Seq<
    (Seq<char>, Seq<char>),
> {
    if exists|i: int| 0 <= i < params.len() && #[trigger] params[i].0 == key {
        let i = choose|i: int| 0 <= i < params.len() && #[trigger] params[i].0 == key;
        params.update(i, (key, value))
    } else {
        params.push((key, value))
    }
}

/// Whether no two pairs share a key.
pub open spec fn distinct_keys(params: Seq<(Seq<char>, Seq<char>)>) -> bool {
    forall|i: int, j: int|
        0 <= i < params.len() && 0 <= j < params.len() && i != j ==> #[trigger] params[i].0
            != #[trigger] params[j].0
}

/// The parameters of a query: each `&`-separated piece that splits at `=`
/// into exactly two parts gives a pair, with its key upper-cased; a later
/// value for a key replaces an earlier one.
pub open spec fn query_params(pieces: Seq<Seq<char>>) -> Seq<(Seq<char>, Seq<char>)>
    decreases pieces.len(),
{
    if pieces.len() == 0 {
        Seq::empty()
    } else {
        let p = query_params(pieces.drop_last());
        let parts = split(pieces.last(), '=');
        if parts.len() == 2 {
            set_param(p, upper_of(parts[0]), parts[1])
        } else {
            p
        }
    }
}

/// Sets `key` to `value` in `params`.
fn insert_param(params: &mut Vec<(String, String)>, key: String, value: String)
    requires
        distinct_keys(pairs_view(old(params)@)),
    ensures
        distinct_keys(pairs_view(final(params)@)),
        pairs_view(final(params)@) == set_param(pairs_view(old(params)@), key@, value@),
{
    let ghost old_v = pairs_view(params@);
    let mut i: usize = 0;
    while i < params.len()
        invariant
            i <= params@.len(),
            old_v == pairs_view(params@),
            old_v == pairs_view(old(params)@),
            distinct_keys(old_v),
            forall|j: int| 0 <= j < i ==> params@[j].0@ != key@,
        decreases params.len() - i,
    {
        if params[i].0 == key {
            assert(old_v[i as int].0 == key@);
            let ghost kv = key@;
            let ghost vv = value@;
            params.set(i, (key, value));
            proof {
                let j = choose|j: int| 0 <= j < old_v.len() && #[trigger] old_v[j].0 == kv;
                if j != i {
                    assert(old_v[j].0 != old_v[i as int].0);
                }
                assert(j == i);
                assert(set_param(old_v, kv, vv) == old_v.update(i as int, (kv, vv)));
                assert(pairs_view(params@) =~= old_v.update(i as int, (kv, vv)));
                let nv = pairs_view(params@);
                assert forall|a: int, b: int|
                    0 <= a < nv.len() && 0 <= b < nv.len() && a != b implies #[trigger] nv[a].0
                    != #[trigger] nv[b].0 by {
                    assert(nv[a].0 == old_v[a].0);
                    assert(nv[b].0 == old_v[b].0);
                }
            }
            return;
        }
        i += 1;
    }
    assert forall|j: int| 0 <= j < old_v.len() implies #[trigger] old_v[j].0 != key@ by {
        assert(old_v[j].0 == params@[j].0@);
    }
    let ghost kv = key@;
    let ghost vv = value@;
    params.push((key, value));
    assert(pairs_view(params@) =~= old_v.push((kv, vv)));
}

/// Reads the parameters of a trigger query.
pub fn parse_job_parameters(query: &str) -> (r: Vec<(String, String)>)
    ensures
        pairs_view(r@) == query_params(split(query@, '&')),
        distinct_keys(pairs_view(r@)),
{
    let pieces = split_on(query, '&');
    let ghost all = split(query@, '&');
    let mut result: Vec<(String, String)> = Vec::new();
    let mut i: usize = 0;
    assert(pairs_view(result@) =~= Seq::<(Seq<char>, Seq<char>)>::empty());
    assert(all.take(0) =~= Seq::<Seq<char>>::empty());
    while i < pieces.len()
        invariant
            i <= pieces@.len(),
            strings_view(pieces@) == all,
            distinct_keys(pairs_view(result@)),
            pairs_view(result@) == query_params(all.take(i as int)),
        decreases pieces.len() - i,
    {
        assert(all.take(i + 1).drop_last() =~= all.take(i as int));
        assert(all.take(i + 1).last() == pieces@[i as int]@);
        let parts = split_on(pieces[i].as_str(), '=');
        if parts.len() == 2 {
            let key = uppercase(parts[0].as_str());
            let value = parts[1].clone();
            insert_param(&mut result, key, value);
        }
        i += 1;
    }
    assert(all.take(i as int) =~= all);
    result
}

/// What a trigger asks for: the job to run, the file of its specification and
/// the environment it runs with.
pub struct JobRequest {
    pub name: String,
    pub path: String,
    pub env: Vec<(String, String)>,
}

/// Why a trigger was refused.
#[derive(Debug, PartialEq, Eq, Structural)]
pub enum TriggerError {
    /// The request path is not the one that runs a job.
    UnsupportedTrigger,
    /// The request has no query.
    MissingQuery,
    /// The query holds no `key=value` pair.
    MalformedQuery,
    /// The query names no job.
    MissingJobName,
}

/// The value of `key` among `params`, if it is there.
pub open spec fn param(params: Seq<(Seq<char>, Seq<char>)>, key: Seq<char>) -> Option<Seq<char>> {
    if exists|i: int| 0 <= i < params.len() && #[trigger] params[i].0 == key {
        let i = choose|i: int| 0 <= i < params.len() && #[trigger] params[i].0 == key;
        Some(params[i].1)
    } else {
        None
    }
}

/// The environment of a job: every parameter but the job name, its key
/// prefixed with `prefix`.
pub open spec fn job_env(params: Seq<(Seq<char>, Seq<char>)>, prefix: Seq<char>) -> Seq<
    (Seq<char>, Seq<char>),
> {
    params.filter(|p: (Seq<char>, Seq<char>)| p.0 != "JOB"@).map_values(
        |p: (Seq<char>, Seq<char>)| (prefix + p.0, p.1),
    )
}

/// The view of a [`JobRequest`].
pub open spec fn request_view(r: JobRequest) -> (Seq<char>, Seq<char>, Seq<(Seq<char>, Seq<char>)>) {
    (r.name@, r.path@, pairs_view(r.env@))
}

/// Turns a trigger into a job request. Only the path `/run` runs a job. Its
/// query must hold at least one pair, one of them with the key `JOB`: that
/// names the job, whose file is `<jobs_home>/<name>`; every other pair goes
/// into the environment under a key prefixed with `env_var_prefix`.
pub fn parse_trigger(path: &str, query: Option<&str>, env_var_prefix: &str, jobs_home: &str) -> (r:
    Result<JobRequest, TriggerError>)
    ensures
        path@ != "/run"@ ==> r == Err::<JobRequest, TriggerError>(TriggerError::UnsupportedTrigger),
        path@ == "/run"@ ==> match query {
            None => r == Err::<JobRequest, TriggerError>(TriggerError::MissingQuery),
            Some(q) => {
                let params = query_params(split(q@, '&'));
                if params.len() == 0 {
                    r == Err::<JobRequest, TriggerError>(TriggerError::MalformedQuery)
                } else {
                    match param(params, "JOB"@) {
                        None => r == Err::<JobRequest, TriggerError>(TriggerError::MissingJobName),
                        Some(name) => r matches Ok(req) && request_view(req) == (
                            name,
                            jobs_home@ + "/"@ + name,
                            job_env(params, env_var_prefix@),
                        ),
                    }
                }
            },
        },
{
    let run = String::from_str("/run");
    let p = String::from_str(path);
    if !(p == run) {
        return Err(TriggerError::UnsupportedTrigger);
    }
    let q = match query {
        Some(q) => q,
        None => return Err(TriggerError::MissingQuery),
    };
    let params = parse_job_parameters(q);
    if params.len() == 0 {
        return Err(TriggerError::MalformedQuery);
    }
    let ghost pv = pairs_view(params@);
    let job_key = String::from_str("JOB");
    let mut name: Option<String> = None;
    let mut env: Vec<(String, String)> = Vec::new();
    let mut i: usize = 0;
    assert(params@.take(0) =~= Seq::<(String, String)>::empty());
    while i < params.len()
        invariant
            i <= params@.len(),
            pv == pairs_view(params@),
            distinct_keys(pv),
            job_key@ == "JOB"@,
            pairs_view(env@) == job_env(pv.take(i as int), env_var_prefix@),
            match name {
                Some(n) => exists|j: int| 0 <= j < i && #[trigger] pv[j].0 == "JOB"@ && pv[j].1 == n@,
                None => forall|j: int| 0 <= j < i ==> #[trigger] pv[j].0 != "JOB"@,
            },
        decreases params.len() - i,
    {
        proof {
            reveal(Seq::filter);
            assert(pv.take(i + 1).drop_last() =~= pv.take(i as int));
            assert(pv.take(i + 1).last() == pv[i as int]);
        }
        let ghost before = env@;
        if params[i].0 == job_key {
            name = Some(params[i].1.clone());
            assert(pv[i as int].0 == "JOB"@);
            assert(pairs_view(env@) == job_env(pv.take(i + 1), env_var_prefix@));
        } else {
            let key = String::from_str(env_var_prefix).concat(params[i].0.as_str());
            let value = params[i].1.clone();
            let ghost kv = key@;
            let ghost vv = value@;
            env.push((key, value));
            assert(pairs_view(env@) =~= pairs_view(before).push((kv, vv)));
            assert(job_env(pv.take(i + 1), env_var_prefix@) =~= job_env(pv.take(i as int), env_var_prefix@).push((kv, vv)));
        }
        i += 1;
    }
    assert(pv.take(i as int) =~= pv);
    match name {
        Some(n) => {
            proof {
                let j = choose|j: int| 0 <= j < i && #[trigger] pv[j].0 == "JOB"@ && pv[j].1 == n@;
                let k = choose|k: int| 0 <= k < pv.len() && #[trigger] pv[k].0 == "JOB"@;
                if j != k {
                    assert(pv[j].0 != pv[k].0);
                }
            }
            let slash = String::from_str("/");
            let dir = String::from_str(jobs_home).concat(slash.as_str());
            let path = dir.concat(n.as_str());
            Ok(JobRequest { name: n, path, env })
        },
        None => Err(TriggerError::MissingJobName),
    }
}

} // verus!
