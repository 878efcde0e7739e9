use crate::action::strings_view;
use crate::job::pairs_view;
use crate::trigger::{split, split_on};
use vstd::prelude::*;

verus! {

/// The commands joined into one invocation, each running only where the one
/// before it succeeded.
pub open spec fn join_commands(commands: Seq<Seq<char>>) -> Seq<char>
    decreases commands.len(),
{
    if commands.len() == 0 {
        Seq::empty()
    } else if commands.len() == 1 {
        commands[0]
    } else {
        join_commands(commands.drop_last()) + " &&"@ + commands.last()
    }
}

/// Joins the commands of an action into one command line.
pub fn command_line(commands: &Vec<String>) -> (r: String)
    ensures
        r@ == join_commands(strings_view(commands@)),
{
    let ghost cs = strings_view(commands@);
    let mut line = String::new();
    let mut i: usize = 0;
    while i < commands.len()
        invariant
            i <= commands@.len(),
            cs == strings_view(commands@),
            line@ == join_commands(cs.take(i as int)),
        decreases commands.len() - i,
    {
        assert(cs.take(i + 1).drop_last() =~= cs.take(i as int));
        assert(cs.take(i + 1).last() == commands@[i as int]@);
        if i > 0 {
            line.append(" &&");
        } else {
            assert(cs.take(0) =~= Seq::<Seq<char>>::empty());
            assert(line@ =~= Seq::<char>::empty());
        }
        line.append(commands[i].as_str());
        i += 1;
    }
    assert(cs.take(i as int) =~= cs);
    line
}

/// The lower-case form of a string.
pub uninterp spec fn lower_of(s: Seq<char>) -> Seq<char>;

/// Relies on `str::to_lowercase`: the lower-case form of `s`, which depends on
/// its characters alone.
#[verifier::external_body]
fn lowercase(s: &str) -> (r: String)
    ensures
        r@ == lower_of(s@),
{
    s.to_lowercase()
}

/// Whether a variable is forwarded to the remote side: all are, but the one
/// that names the job.
pub open spec fn forwarded(p: (Seq<char>, Seq<char>)) -> bool {
    lower_of(p.0) != "job"@
}

/// Selects the variables of `env` that are set for a remote command.
pub fn forwarded_env(env: &Vec<(String, String)>) -> (r: Vec<(String, String)>)
    ensures
        pairs_view(r@) == pairs_view(env@).filter(|p: (Seq<char>, Seq<char>)| forwarded(p)),
{
    let ghost ev = pairs_view(env@);
    let job = String::from_str("job");
    let mut out: Vec<(String, String)> = Vec::new();
    let mut i: usize = 0;
    assert(ev.take(0) =~= Seq::<(Seq<char>, Seq<char>)>::empty());
    proof {
        reveal(Seq::filter);
    }
    assert(pairs_view(out@) =~= Seq::<(Seq<char>, Seq<char>)>::empty());
    while i < env.len()
        invariant
            i <= env@.len(),
            ev == pairs_view(env@),
            job@ == "job"@,
            pairs_view(out@) == ev.take(i as int).filter(|p: (Seq<char>, Seq<char>)| forwarded(p)),
        decreases env.len() - i,
    {
        proof {
            reveal(Seq::filter);
            assert(ev.take(i + 1).drop_last() =~= ev.take(i as int));
            assert(ev.take(i + 1).last() == ev[i as int]);
        }
        let lower = lowercase(env[i].0.as_str());
        if !(lower == job) {
            let ghost before = out@;
            let k = env[i].0.clone();
            let v = env[i].1.clone();
            let ghost pair = (k@, v@);
            out.push((k, v));
            assert(pairs_view(out@) =~= pairs_view(before).push(pair));
        }
        i += 1;
    }
    assert(ev.take(i as int) =~= ev);
    out
}

/// Whether a line holds at least one character.
pub open spec fn non_empty(l: Seq<char>) -> bool {
    l.len() > 0
}

/// The output lines of one stream: its text split at line breaks, empty lines
/// dropped, and each line tagged with the name of the stream.
pub open spec fn tagged_lines(stream_name: Seq<char>, text: Seq<char>) -> Seq<Seq<char>> {
    split(text, '\n').filter(|l: Seq<char>| non_empty(l)).map_values(
        |l: Seq<char>| "["@ + stream_name + "] "@ + l,
    )
}

/// Turns the text that a stream produced into tagged output lines.
pub fn process_output(stream_name: &str, text: &str) -> (r: Vec<String>)
    ensures
        strings_view(r@) == tagged_lines(stream_name@, text@),
{
    let lines = split_on(text, '\n');
    let ghost ls = split(text@, '\n');
    let mut out: Vec<String> = Vec::new();
    let mut i: usize = 0;
    proof {
        reveal(Seq::filter);
    }
    assert(ls.take(0) =~= Seq::<Seq<char>>::empty());
    assert(strings_view(out@) =~= Seq::<Seq<char>>::empty());
    while i < lines.len()
        invariant
            i <= lines@.len(),
            ls == strings_view(lines@),
            strings_view(out@) == ls.take(i as int).filter(|l: Seq<char>| non_empty(l)).map_values(
                |l: Seq<char>| "["@ + stream_name@ + "] "@ + l,
            ),
        decreases lines.len() - i,
    {
        proof {
            reveal(Seq::filter);
            assert(ls.take(i + 1).drop_last() =~= ls.take(i as int));
            assert(ls.take(i + 1).last() == lines@[i as int]@);
        }
        if lines[i].unicode_len() > 0 {
            let ghost before = out@;
            let tagged = String::from_str("[").concat(stream_name).concat("] ").concat(
                lines[i].as_str(),
            );
            out.push(tagged);
            assert(strings_view(out@) =~= strings_view(before).push(tagged@));
            assert(ls.take(i + 1).filter(|l: Seq<char>| non_empty(l)) == ls.take(i as int).filter(
                |l: Seq<char>| non_empty(l),
            ).push(lines@[i as int]@));
            assert(strings_view(out@) =~= ls.take(i + 1).filter(|l: Seq<char>| non_empty(l)).map_values(
                |l: Seq<char>| "["@ + stream_name@ + "] "@ + l,
            ));
        }
        i += 1;
    }
    assert(ls.take(i as int) =~= ls);
    out
}

} // verus!
