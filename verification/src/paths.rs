//! File paths as `/`-separated strings.
//!
//! The library reasons about paths as text: the parent of a path is what
//! precedes its last `/`, its file name is what follows it, once trailing
//! separators and a final `.` are set aside, as `std::path::Path` does on
//! Unix (the tests compare the two on repeated separators and on `.` and
//! `..` components). The filesystem itself is only touched by the
//! application.

use vstd::prelude::*;
use crate::text::{chars_of, string_of, sub_chars};
use crate::vfs::last_index_of;

verus! {

/// `p` without what ends it but names nothing: trailing `/` and a final
/// `.` component (`a/b/` and `a/b/.` both become `a/b`); a lone `/`
/// stays.
pub open spec fn strip_tail(p: Seq<char>) -> Seq<char>
    decreases p.len(),
{
    if p.len() > 1 && (p.last() == '/' || (p.last() == '.' && p[p.len() - 2] == '/')) {
        strip_tail(p.drop_last())
    } else {
        p
    }
}

/// The parent of a path with nothing stripped: `None` for the empty path
/// and for `/`; the empty path for a bare file name; `/` for a file at
/// the root; otherwise what precedes the last `/`.
pub open spec fn raw_parent(p: Seq<char>) -> Option<Seq<char>> {
    if p.len() == 0 {
        None
    } else {
        match last_index_of(p, '/') {
            None => Some(Seq::empty()),
            Some(k) => if k == 0 {
                if p.len() == 1 { None } else { Some(seq!['/']) }
            } else {
                Some(p.subrange(0, k))
            },
        }
    }
}

/// The parent of `p`, as `Path::parent` gives it: trailing separators and
/// a final `.` of `p` and of the parent are not part of either.
pub open spec fn parent_spec(p: Seq<char>) -> Option<Seq<char>> {
    match raw_parent(strip_tail(p)) {
        Some(q) => Some(strip_tail(q)),
        None => None,
    }
}

/// The last component of a path with nothing stripped, or `None` when
/// it is empty, `.` or `..`.
pub open spec fn raw_file_name(p: Seq<char>) -> Option<Seq<char>> {
    let start = match last_index_of(p, '/') {
        None => 0,
        Some(k) => k + 1,
    };
    let seg = p.subrange(start, p.len() as int);
    if seg.len() == 0 || seg == "."@ || seg == ".."@ {
        None
    } else {
        Some(seg)
    }
}

/// The last component of `p`, as `Path::file_name` gives it: trailing
/// separators and a final `.` are skipped.
pub open spec fn file_name_spec(p: Seq<char>) -> Option<Seq<char>> {
    raw_file_name(strip_tail(p))
}

/// The stem of a file name: what precedes its last `.`, unless that dot
/// is the first character or there is none (then the whole name).
pub open spec fn stem_of_name(name: Seq<char>) -> Seq<char> {
    match last_index_of(name, '.') {
        None => name,
        Some(k) => if k == 0 { name } else { name.subrange(0, k) },
    }
}

/// `name` appended to `base` as a further component.
pub open spec fn join_spec(base: Seq<char>, name: Seq<char>) -> Seq<char> {
    if base.len() == 0 {
        name
    } else if base.last() == '/' {
        base + name
    } else {
        base + seq!['/'] + name
    }
}

pub proof fn lemma_last_index(s: Seq<char>, c: char)
    ensures
        last_index_of(s, c) matches Some(i) ==> (0 <= i < s.len() && s[i] == c),
    decreases s.len(),
{
    if s.len() > 0 && s.last() != c {
        lemma_last_index(s.drop_last(), c);
    }
}

pub(crate) fn last_index(s: &[char], c: char) -> (r: Option<usize>)
    ensures
        r matches Some(i) ==> last_index_of(s@, c) == Some(i as int),
        r is None ==> last_index_of(s@, c) is None,
{
    let mut k: usize = s.len();
    assert(s@.subrange(0, s@.len() as int) =~= s@);
    while k > 0 && s[k - 1] != c
        invariant
            0 <= k <= s.len(),
            last_index_of(s@.subrange(0, k as int), c) == last_index_of(s@, c),
        decreases k,
    {
        assert(s@.subrange(0, k as int).drop_last() =~= s@.subrange(0, k - 1));
        k = k - 1;
    }
    if k == 0 {
        None
    } else {
        assert(s@.subrange(0, k as int).last() == c);
        Some(k - 1)
    }
}

fn strip_tail_chars(cs: &[char]) -> (r: Vec<char>)
    ensures
        r@ == strip_tail(cs@),
{
    let mut n: usize = cs.len();
    assert(cs@.take(n as int) =~= cs@);
    while n > 1 && (cs[n - 1] == '/' || (cs[n - 1] == '.' && cs[n - 2] == '/'))
        invariant
            0 <= n <= cs.len(),
            strip_tail(cs@.take(n as int)) == strip_tail(cs@),
        decreases n,
    {
        assert(cs@.take(n as int).drop_last() =~= cs@.take(n - 1));
        n = n - 1;
    }
    let r = sub_chars(cs, 0, n);
    assert(r@ =~= cs@.take(n as int));
    r
}

fn raw_parent_chars(cs: &[char]) -> (r: Option<Vec<char>>)
    ensures
        r is Some <==> raw_parent(cs@) is Some,
        r matches Some(v) ==> v@ == raw_parent(cs@)->0,
{
    if cs.len() == 0 {
        return None;
    }
    proof { lemma_last_index(cs@, '/'); }
    match last_index(cs, '/') {
        None => Some(Vec::new()),
        Some(k) => {
            if k == 0 {
                if cs.len() == 1 {
                    None
                } else {
                    let v: Vec<char> = vec!['/'];
                    assert(v@ =~= seq!['/']);
                    Some(v)
                }
            } else {
                Some(sub_chars(cs, 0, k))
            }
        },
    }
}

/// The parent directory of `p` (see [`parent_spec`]).
pub fn parent(p: &str) -> (r: Option<String>)
    ensures
        r is Some <==> parent_spec(p@) is Some,
        r matches Some(v) ==> v@ == parent_spec(p@)->0,
{
    let all = chars_of(p);
    let cs = strip_tail_chars(all.as_slice());
    match raw_parent_chars(cs.as_slice()) {
        Some(v) => {
            let w = strip_tail_chars(v.as_slice());
            Some(string_of(w.as_slice()))
        },
        None => None,
    }
}

/// The last component of `p` (see [`file_name_spec`]).
pub fn file_name(p: &str) -> (r: Option<String>)
    ensures
        r is Some <==> file_name_spec(p@) is Some,
        r matches Some(v) ==> v@ == file_name_spec(p@)->0,
{
    let all = chars_of(p);
    let cs = strip_tail_chars(all.as_slice());
    proof { lemma_last_index(cs@, '/'); }
    let start = match last_index(cs.as_slice(), '/') {
        None => 0,
        Some(k) => {
            assert(k < cs@.len());
            k + 1
        },
    };
    let seg = sub_chars(cs.as_slice(), start, cs.len());
    let dot = chars_of(".");
    let dotdot = chars_of("..");
    if seg.len() == 0 || crate::text::chars_eq(seg.as_slice(), dot.as_slice())
        || crate::text::chars_eq(seg.as_slice(), dotdot.as_slice()) {
        None
    } else {
        Some(string_of(seg.as_slice()))
    }
}

/// The stem of a file name (see [`stem_of_name`]).
pub fn file_stem(name: &str) -> (r: String)
    ensures
        r@ == stem_of_name(name@),
{
    let cs = chars_of(name);
    proof { lemma_last_index(cs@, '.'); }
    match last_index(cs.as_slice(), '.') {
        None => string_of(cs.as_slice()),
        Some(k) => {
            if k == 0 {
                string_of(cs.as_slice())
            } else {
                let v = sub_chars(cs.as_slice(), 0, k);
                string_of(v.as_slice())
            }
        },
    }
}

/// `name` appended to `base` as a further component.
pub fn join(base: &str, name: &str) -> (r: String)
    ensures
        r@ == join_spec(base@, name@),
{
    let b = chars_of(base);
    if b.len() == 0 {
        return String::from_str(name);
    }
    let mut out = String::from_str(base);
    if b[b.len() - 1] != '/' {
        out.append("/");
        proof { reveal_strlit("/"); }
        assert("/"@ =~= seq!['/']);
    }
    out.append(name);
    out
}

} // verus!
