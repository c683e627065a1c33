//! What each platform reports, computed from the raw text its tools print.
//!
//! The tools themselves are run by the caller; every function here takes
//! their output (`None` where a tool could not be run or failed) and returns
//! what the info column shows.
pub mod common;
pub mod fallback;
pub mod linux;
pub mod macos;
pub mod windows;

use vstd::prelude::*;

use crate::text::{
    chars_of, dec, dec_string, has_prefix, join_strings, joined, lines, lines_of, starts_with,
    string_of, string_views, trim, trimmed, views,
};

verus! {

/// Number of lines in `ls` that hold more than white space.
pub open spec fn nonblank_count(ls: Seq<Seq<char>>) -> nat
    decreases ls.len(),
{
    if ls.len() == 0 {
        0
    } else {
        nonblank_count(ls.drop_last()) + if trim(ls.last()).len() > 0 {
            1nat
        } else {
            0nat
        }
    }
}

/// Number of lines of `s` that hold more than white space.
pub fn count_nonblank(s: &str) -> (n: usize)
    ensures
        n == nonblank_count(lines(s@)),
{
    let v = chars_of(s);
    let ls = lines_of(v.as_slice());
    let ghost all = views(ls@);
    let mut n: usize = 0;
    let mut i: usize = 0;
    while i < ls.len()
        invariant
            all == views(ls@),
            all == lines(s@),
            i <= ls@.len(),
            n == nonblank_count(all.subrange(0, i as int)),
            n <= i,
        decreases ls.len() - i,
    {
        proof {
            assert(all.subrange(0, i + 1).drop_last() =~= all.subrange(0, i as int));
        }
        let t = trimmed(ls[i].as_slice());
        if t.len() > 0 {
            n = n + 1;
        }
        i = i + 1;
    }
    proof {
        assert(all.subrange(0, ls@.len() as int) =~= all);
    }
    n
}

/// Number of lines of `s`.
pub fn count_lines(s: &str) -> (n: usize)
    ensures
        n == lines(s@).len(),
{
    let v = chars_of(s);
    let ls = lines_of(v.as_slice());
    proof {
        assert(views(ls@).len() == ls@.len());
    }
    ls.len()
}

/// `"{n} ({label})"`, one package-manager entry.
pub open spec fn pkg_text(n: nat, label: Seq<char>) -> Seq<char> {
    dec(n) + " ("@ + label + ")"@
}

/// `"{n} ({label})"`.
pub fn pkg_entry(n: usize, label: &str) -> (r: String)
    ensures
        r@ == pkg_text(n as nat, label@),
{
    let mut r = dec_string(n as u64);
    r.append(" (");
    r.append(label);
    r.append(")");
    r
}

/// `"{a} ({b})"`.
pub open spec fn tagged(a: Seq<char>, b: Seq<char>) -> Seq<char> {
    a + " ("@ + b + ")"@
}

/// `"{a} ({b})"`.
pub fn tag(a: &str, b: &str) -> (r: String)
    ensures
        r@ == tagged(a@, b@),
{
    let mut r = String::new();
    r.append(a);
    r.append(" (");
    r.append(b);
    r.append(")");
    r
}

/// The trimmed text after `p` on line `l` once trimmed, when it starts so.
pub open spec fn after_prefix(l: Seq<char>, p: Seq<char>) -> Option<Seq<char>> {
    let t = trim(l);
    if has_prefix(t, p) {
        Some(trim(t.subrange(p.len() as int, t.len() as int)))
    } else {
        None
    }
}

/// [`after_prefix`] of every line that has it, in order.
pub open spec fn prefixed_values(ls: Seq<Seq<char>>, p: Seq<char>) -> Seq<Seq<char>>
    decreases ls.len(),
{
    if ls.len() == 0 {
        Seq::empty()
    } else {
        let init = prefixed_values(ls.drop_last(), p);
        match after_prefix(ls.last(), p) {
            Some(v) => init.push(v),
            None => init,
        }
    }
}

/// The first [`after_prefix`] of the lines, if any line has one.
pub open spec fn first_prefixed(ls: Seq<Seq<char>>, p: Seq<char>) -> Option<Seq<char>>
    decreases ls.len(),
{
    if ls.len() == 0 {
        None
    } else {
        match after_prefix(ls[0], p) {
            Some(v) => Some(v),
            None => first_prefixed(ls.drop_first(), p),
        }
    }
}

/// [`after_prefix`] on a line.
pub fn after_prefix_of(l: &[char], p: &[char]) -> (r: Option<Vec<char>>)
    ensures
        match r {
            Some(v) => after_prefix(l@, p@) == Some(v@),
            None => after_prefix(l@, p@) is None,
        },
{
    let t = trimmed(l);
    if starts_with(t.as_slice(), p) {
        let rest = crate::text::slice_of(t.as_slice(), p.len(), t.len());
        Some(trimmed(rest.as_slice()))
    } else {
        None
    }
}

/// The values after `p` on the lines of `s` that start with it once trimmed.
pub fn prefixed_values_of(s: &str, p: &str) -> (r: Vec<String>)
    ensures
        string_views(r@) == prefixed_values(lines(s@), p@),
{
    let v = chars_of(s);
    let pv = chars_of(p);
    let ls = lines_of(v.as_slice());
    let ghost all = views(ls@);
    let mut out: Vec<String> = Vec::new();
    let mut i: usize = 0;
    while i < ls.len()
        invariant
            all == views(ls@),
            all == lines(s@),
            pv@ == p@,
            i <= ls@.len(),
            string_views(out@) == prefixed_values(all.subrange(0, i as int), p@),
        decreases ls.len() - i,
    {
        proof {
            assert(all.subrange(0, i + 1).drop_last() =~= all.subrange(0, i as int));
        }
        let ghost before = out@;
        match after_prefix_of(ls[i].as_slice(), pv.as_slice()) {
            Some(x) => {
                out.push(string_of(&x));
                proof {
                    assert(string_views(out@) =~= string_views(before).push(x@));
                }
            },
            None => {},
        }
        i = i + 1;
    }
    proof {
        assert(all.subrange(0, ls@.len() as int) =~= all);
    }
    out
}

/// The first value after `p` on a line of `s` that starts with it once trimmed.
pub fn first_prefixed_of(s: &str, p: &str) -> (r: Option<String>)
    ensures
        match r {
            Some(x) => first_prefixed(lines(s@), p@) == Some(x@),
            None => first_prefixed(lines(s@), p@) is None,
        },
{
    let v = chars_of(s);
    let pv = chars_of(p);
    let ls = lines_of(v.as_slice());
    let ghost all = views(ls@);
    let mut i: usize = 0;
    proof {
        assert(all.subrange(0, all.len() as int) =~= all);
    }
    while i < ls.len()
        invariant
            all == views(ls@),
            all == lines(s@),
            pv@ == p@,
            i <= ls@.len(),
            first_prefixed(all, p@) == first_prefixed(all.subrange(i as int, all.len() as int), p@),
        decreases ls.len() - i,
    {
        proof {
            let t = all.subrange(i as int, all.len() as int);
            assert(t.drop_first() =~= all.subrange(i + 1, all.len() as int));
            assert(t[0] == ls@[i as int]@);
        }
        match after_prefix_of(ls[i].as_slice(), pv.as_slice()) {
            Some(x) => {
                return Some(string_of(&x));
            },
            None => {},
        }
        i = i + 1;
    }
    None
}

/// The pieces joined with `, `, or nothing when there are none.
pub open spec fn comma_joined(parts: Seq<Seq<char>>) -> Option<Seq<char>> {
    if parts.len() == 0 {
        None
    } else {
        Some(joined(parts, ", "@))
    }
}

/// The strings joined with `, `, or `None` when there are none.
pub fn join_commas(parts: &Vec<String>) -> (r: Option<String>)
    ensures
        match r {
            Some(x) => comma_joined(string_views(parts@)) == Some(x@),
            None => comma_joined(string_views(parts@)) is None,
        },
{
    if parts.len() == 0 {
        None
    } else {
        Some(join_strings(parts, ", "))
    }
}

/// `s.trim()` as a `String`.
pub fn trim_str(s: &str) -> (r: String)
    ensures
        r@ == trim(s@),
{
    let v = chars_of(s);
    let t = trimmed(v.as_slice());
    string_of(&t)
}


/// A value that is present and not empty.
pub open spec fn nonempty_text(o: Option<Seq<char>>) -> Option<Seq<char>> {
    match o {
        Some(x) => if x.len() > 0 {
            Some(x)
        } else {
            None
        },
        None => None,
    }
}

} // verus!
