//! Reading the request parameters of the batch conversion endpoint.

use vstd::prelude::*;
use crate::presets::{names, preset_names};
use crate::text::{chars_of, string_from_chars, trim, trim_chars};

verus! {

/// The pieces of `s` between the separators, as `str::split(sep)` yields them.
pub open spec fn split_on(s: Seq<char>, sep: char) -> Seq<Seq<char>>
    decreases s.len(),
{
    if s.len() == 0 {
        seq![Seq::empty()]
    } else {
        let rest = split_on(s.drop_last(), sep);
        if s.last() == sep {
            rest.push(Seq::empty())
        } else {
            rest.update(rest.len() - 1, rest.last().push(s.last()))
        }
    }
}

/// Each piece trimmed, empty ones left out, order kept.
pub open spec fn trimmed_nonempty(pieces: Seq<Seq<char>>) -> Seq<Seq<char>>
    decreases pieces.len(),
{
    if pieces.len() == 0 {
        Seq::empty()
    } else {
        let rest = trimmed_nonempty(pieces.drop_last());
        let t = trim(pieces.last());
        if t.len() > 0 {
            rest.push(t)
        } else {
            rest
        }
    }
}

/// The pipelines a batch request names: every preset for no list, `all` or
/// an empty list; otherwise the comma-separated names, trimmed, empty ones
/// left out.
pub open spec fn requested_pipelines(arg: Option<Seq<char>>) -> Seq<Seq<char>> {
    match arg {
        None => preset_names(),
        Some(s) => if s == "all"@ || s.len() == 0 {
            preset_names()
        } else {
            trimmed_nonempty(split_on(s, ','))
        },
    }
}

proof fn lemma_split_nonempty(s: Seq<char>, sep: char)
    ensures
        split_on(s, sep).len() > 0,
    decreases s.len(),
{
    if s.len() > 0 {
        lemma_split_nonempty(s.drop_last(), sep);
    }
}

pub open spec fn string_views(v: Seq<String>) -> Seq<Seq<char>> {
    v.map_values(|s: String| s@)
}

fn is_all(cs: &Vec<char>) -> (r: bool)
    ensures
        r == (cs@ == "all"@),
{
    proof {
        reveal_strlit("all");
    }
    if cs.len() == 3 && cs[0] == 'a' && cs[1] == 'l' && cs[2] == 'l' {
        assert(cs@ =~= "all"@);
        true
    } else {
        false
    }
}

/// The names of the pipelines a batch request asks for, in order.
pub fn resolve_pipelines(arg: Option<&str>) -> (r: Vec<String>)
    ensures
        string_views(r@) == requested_pipelines(
            match arg {
                Some(s) => Some(s@),
                None => None,
            },
        ),
{
    let s = match arg {
        None => {
            let n = names();
            assert(string_views(n@) =~= preset_names());
            return n;
        },
        Some(s) => s,
    };
    let cs = chars_of(s);
    if cs.len() == 0 || is_all(&cs) {
        let n = names();
        assert(string_views(n@) =~= preset_names());
        return n;
    }
    let mut out: Vec<String> = Vec::new();
    let mut cur: Vec<char> = Vec::new();
    let ghost mut done: Seq<Seq<char>> = Seq::empty();
    for i in 0..cs.len()
        invariant
            split_on(cs@.take(i as int), ',') == done.push(cur@),
            string_views(out@) == trimmed_nonempty(done),
    {
        proof {
            assert(cs@.take(i + 1).drop_last() =~= cs@.take(i as int));
            assert(cs@.take(i + 1).last() == cs@[i as int]);
            lemma_split_nonempty(cs@.take(i as int), ',');
        }
        if cs[i] == ',' {
            let t = trim_chars(&cur);
            let ghost before = out@;
            if t.len() > 0 {
                out.push(string_from_chars(&t));
                assert(string_views(out@) =~= string_views(before).push(t@));
            }
            proof {
                assert(done.push(cur@).drop_last() =~= done);
                done = done.push(cur@);
            }
            cur = Vec::new();
        } else {
            let ghost old_cur = cur@;
            cur.push(cs[i]);
            assert(done.push(old_cur).update(done.len() as int, old_cur.push(cs@[i as int])) =~= done.push(cur@));
        }
    }
    assert(cs@.take(cs.len() as int) =~= cs@);
    let t = trim_chars(&cur);
    let ghost before = out@;
    if t.len() > 0 {
        out.push(string_from_chars(&t));
        assert(string_views(out@) =~= string_views(before).push(t@));
    }
    assert(done.push(cur@).drop_last() =~= done);
    out
}

} // verus!
