//! Lua source preprocessor for compound-assignment operators.
//!
//! Stock Lua 5.4 has no `+=`/`-=`/`*=`/`/=`/`%=`. A line whose body has
//! the shape `<indent> LHS op= RHS [trailing short comment]` is rewritten
//! to `<indent> LHS = LHS op (RHS) [trailing short comment]`; every other
//! line is kept. Long strings and block comments may span lines, so a
//! per-line lexer state tracks whether a line starts inside one, and such
//! lines are never rewritten. The LHS is duplicated verbatim.
//!
//! The rewrite works on bytes; every position it cuts at holds an ASCII
//! byte.

use vstd::prelude::*;
use vstd::utf8::valid_utf8;
use crate::text::str_from_utf8;

verus! {

/// Where a line starts, lexically.
#[derive(PartialEq, Eq, Structural, Clone, Copy, Debug)]
pub enum LexState {
    /// Ordinary code.
    Code,
    /// Inside a `--[==[ ... ]==]` block comment with this many `=` signs.
    BlockComment(usize),
    /// Inside a `[==[ ... ]==]` long string with this many `=` signs.
    LongString(usize),
}

/// A space or a tab.
pub open spec fn spec_is_horiz_ws(c: u8) -> bool {
    c == 0x20u8 || c == 0x09u8
}

/// A byte that may start a Lua name: an ASCII letter or `_`.
pub open spec fn spec_is_ident_start(c: u8) -> bool {
    (0x41u8 <= c <= 0x5Au8) || (0x61u8 <= c <= 0x7Au8) || c == 0x5Fu8
}

/// A byte that may continue a Lua name: an ASCII letter, digit or `_`.
pub open spec fn spec_is_ident_cont(c: u8) -> bool {
    spec_is_ident_start(c) || (0x30u8 <= c <= 0x39u8)
}

/// True for a space or a tab.
pub fn is_horiz_ws(c: u8) -> (r: bool)
    ensures
        r == spec_is_horiz_ws(c),
{
    c == 0x20u8 || c == 0x09u8
}

/// True for a byte that may start a Lua name.
pub fn is_ident_start(c: u8) -> (r: bool)
    ensures
        r == spec_is_ident_start(c),
{
    (0x41u8 <= c && c <= 0x5Au8) || (0x61u8 <= c && c <= 0x7Au8) || c == 0x5Fu8
}

/// True for a byte that may continue a Lua name.
pub fn is_ident_cont(c: u8) -> (r: bool)
    ensures
        r == spec_is_ident_cont(c),
{
    is_ident_start(c) || (0x30u8 <= c && c <= 0x39u8)
}

/// The first position at or after `i` that is not a space or tab (or the
/// end).
pub open spec fn skip_ws(s: Seq<u8>, i: int) -> int
    decreases s.len() - i,
{
    if 0 <= i < s.len() && spec_is_horiz_ws(s[i]) {
        skip_ws(s, i + 1)
    } else {
        i
    }
}

/// The first position at or after `i` that is not `=` (or the end).
pub open spec fn skip_eq(s: Seq<u8>, i: int) -> int
    decreases s.len() - i,
{
    if 0 <= i < s.len() && s[i] == 0x3Du8 {
        skip_eq(s, i + 1)
    } else {
        i
    }
}

/// The first position at or after `i` that cannot continue a name.
pub open spec fn skip_ident(s: Seq<u8>, i: int) -> int
    decreases s.len() - i,
{
    if 0 <= i < s.len() && spec_is_ident_cont(s[i]) {
        skip_ident(s, i + 1)
    } else {
        i
    }
}

proof fn lemma_skip_ws(s: Seq<u8>, i: int)
    requires
        0 <= i <= s.len(),
    ensures
        i <= skip_ws(s, i) <= s.len(),
        skip_ws(s, i) < s.len() ==> !spec_is_horiz_ws(s[skip_ws(s, i)]),
        forall|k: int| i <= k < skip_ws(s, i) ==> spec_is_horiz_ws(#[trigger] s[k]),
    decreases s.len() - i,
{
    if i < s.len() && spec_is_horiz_ws(s[i]) {
        lemma_skip_ws(s, i + 1);
    }
}

pub proof fn lemma_skip_eq(s: Seq<u8>, i: int)
    requires
        0 <= i <= s.len(),
    ensures
        i <= skip_eq(s, i) <= s.len(),
    decreases s.len() - i,
{
    if i < s.len() && s[i] == 0x3Du8 {
        lemma_skip_eq(s, i + 1);
    }
}

pub proof fn lemma_skip_ident(s: Seq<u8>, i: int)
    requires
        0 <= i <= s.len(),
    ensures
        i <= skip_ident(s, i) <= s.len(),
    decreases s.len() - i,
{
    if i < s.len() && spec_is_ident_cont(s[i]) {
        lemma_skip_ident(s, i + 1);
    }
}

/// The level of a long-bracket opener (`[[`, `[=[`, `[==[`, ...) starting
/// at `i`: the number of `=` signs, or `None` when none starts there.
pub open spec fn bracket_level_at(s: Seq<u8>, i: int) -> Option<nat> {
    if 0 <= i < s.len() && s[i] == 0x5Bu8 {
        let k = skip_eq(s, i + 1);
        if k < s.len() && s[k] == 0x5Bu8 {
            Some((k - i - 1) as nat)
        } else {
            None
        }
    } else {
        None
    }
}

pub proof fn lemma_bracket_level(s: Seq<u8>, i: int)
    requires
        0 <= i,
    ensures
        bracket_level_at(s, i) matches Some(l) ==> i + l + 2 <= s.len(),
{
    if 0 <= i < s.len() && s[i] == 0x5Bu8 {
        lemma_skip_eq(s, i + 1);
    }
}

fn skip_ws_exec(s: &[u8], i: usize) -> (r: usize)
    requires
        i <= s.len(),
    ensures
        r == skip_ws(s@, i as int),
        i <= r <= s.len(),
{
    let mut k = i;
    proof { lemma_skip_ws(s@, i as int); }
    while k < s.len() && is_horiz_ws(s[k])
        invariant
            i <= k <= s.len(),
            skip_ws(s@, k as int) == skip_ws(s@, i as int),
        decreases s.len() - k,
    {
        k = k + 1;
    }
    k
}

fn skip_eq_exec(s: &[u8], i: usize) -> (r: usize)
    requires
        i <= s.len(),
    ensures
        r == skip_eq(s@, i as int),
        i <= r <= s.len(),
{
    let mut k = i;
    while k < s.len() && s[k] == 0x3Du8
        invariant
            i <= k <= s.len(),
            skip_eq(s@, k as int) == skip_eq(s@, i as int),
        decreases s.len() - k,
    {
        k = k + 1;
    }
    k
}

fn skip_ident_exec(s: &[u8], i: usize) -> (r: usize)
    requires
        i <= s.len(),
    ensures
        r == skip_ident(s@, i as int),
        i <= r <= s.len(),
{
    let mut k = i;
    while k < s.len() && is_ident_cont(s[k])
        invariant
            i <= k <= s.len(),
            skip_ident(s@, k as int) == skip_ident(s@, i as int),
        decreases s.len() - k,
    {
        k = k + 1;
    }
    k
}

/// If a long-bracket opener starts at `i`, its level (the number of `=`
/// signs between the two `[`).
pub fn long_bracket_level(s: &[u8], i: usize) -> (r: Option<usize>)
    requires
        i <= s.len(),
    ensures
        r matches Some(l) ==> bracket_level_at(s@, i as int) == Some(l as nat),
        r is None ==> bracket_level_at(s@, i as int) is None,
{
    if i >= s.len() || s[i] != 0x5Bu8 {
        return None;
    }
    let k = skip_eq_exec(s, i + 1);
    if k < s.len() && s[k] == 0x5Bu8 {
        Some(k - i - 1)
    } else {
        None
    }
}

/// The position just past the `]` that closes a bracket whose contents
/// start at `i`, with `depth` brackets open; `None` when the line ends
/// first. Brackets nest; strings inside are not tokenized.
pub open spec fn bracket_close(s: Seq<u8>, i: int, depth: int) -> Option<int>
    decreases s.len() - i,
{
    if i < 0 || i >= s.len() {
        None
    } else {
        let d2 = if s[i] == 0x5Bu8 { depth + 1 } else if s[i] == 0x5Du8 { depth - 1 } else { depth };
        if d2 == 0 {
            Some(i + 1)
        } else {
            bracket_close(s, i + 1, d2)
        }
    }
}

pub proof fn lemma_bracket_close(s: Seq<u8>, i: int, depth: int)
    requires
        0 <= i,
    ensures
        bracket_close(s, i, depth) matches Some(k) ==> i < k <= s.len(),
    decreases s.len() - i,
{
    if 0 <= i < s.len() {
        let d2 = if s[i] == 0x5Bu8 { depth + 1 } else if s[i] == 0x5Du8 { depth - 1 } else { depth };
        if d2 != 0 {
            lemma_bracket_close(s, i + 1, d2);
        }
    }
}

/// How many times the byte `b` occurs in `t`.
pub open spec fn count_byte(t: Seq<u8>, b: u8) -> int
    decreases t.len(),
{
    if t.len() == 0 {
        0
    } else {
        count_byte(t.drop_last(), b) + if t.last() == b { 1int } else { 0int }
    }
}

/// The brackets still open after reading `s[i..j]` from just inside a
/// `[`: that one, plus every `[` read, minus every `]` read.
pub open spec fn open_after(s: Seq<u8>, i: int, j: int) -> int {
    1 + count_byte(s.subrange(i, j), 0x5Bu8) - count_byte(s.subrange(i, j), 0x5Du8)
}

proof fn lemma_count_push(t: Seq<u8>, c: u8, b: u8)
    ensures
        count_byte(t.push(c), b) == count_byte(t, b) + if c == b { 1int } else { 0int },
{
    assert(t.push(c).drop_last() =~= t);
}

proof fn lemma_count_concat(x: Seq<u8>, y: Seq<u8>, b: u8)
    ensures
        count_byte(x + y, b) == count_byte(x, b) + count_byte(y, b),
    decreases y.len(),
{
    if y.len() == 0 {
        assert(x + y =~= x);
    } else {
        lemma_count_concat(x, y.drop_last(), b);
        assert((x + y).drop_last() =~= x + y.drop_last());
    }
}

proof fn lemma_count_absent(t: Seq<u8>, b: u8)
    requires
        forall|j: int| 0 <= j < t.len() ==> t[j] != b,
    ensures
        count_byte(t, b) == 0,
    decreases t.len(),
{
    if t.len() > 0 {
        lemma_count_absent(t.drop_last(), b);
    }
}

proof fn lemma_open_after_step(s: Seq<u8>, i: int, j: int)
    requires
        0 <= i <= j < s.len(),
    ensures
        open_after(s, i, j + 1) == open_after(s, i, j)
            + if s[j] == 0x5Bu8 { 1int } else if s[j] == 0x5Du8 { -1int } else { 0int },
{
    assert(s.subrange(i, j + 1) =~= s.subrange(i, j).push(s[j]));
    lemma_count_push(s.subrange(i, j), s[j], 0x5Bu8);
    lemma_count_push(s.subrange(i, j), s[j], 0x5Du8);
}

proof fn lemma_bracket_close_from(s: Seq<u8>, i: int, p: int, d: int)
    requires
        0 <= i <= p <= s.len(),
        d == open_after(s, i, p),
        forall|j: int| i <= j <= p ==> #[trigger] open_after(s, i, j) > 0,
    ensures
        bracket_close(s, p, d) matches Some(k) ==> {
            &&& p < k <= s.len()
            &&& open_after(s, i, k) == 0
            &&& forall|j: int| i <= j < k ==> #[trigger] open_after(s, i, j) > 0
        },
        bracket_close(s, p, d) is None ==> forall|j: int| i <= j <= s.len() ==> #[trigger] open_after(s, i, j) > 0,
    decreases s.len() - p,
{
    if p < s.len() {
        lemma_open_after_step(s, i, p);
        let d2 = if s[p] == 0x5Bu8 { d + 1 } else if s[p] == 0x5Du8 { d - 1 } else { d };
        assert(open_after(s, i, p + 1) == d2);
        assert(open_after(s, i, p) > 0);
        if d2 != 0 {
            assert forall|j: int| i <= j <= p + 1 implies #[trigger] open_after(s, i, j) > 0 by {
                if j <= p {
                    assert(open_after(s, i, j) > 0);
                }
            }
            lemma_bracket_close_from(s, i, p + 1, d2);
        }
    }
}

/// Where a bracketed index ends. Reading from `i`, just inside a `[`,
/// `bracket_close(s, i, 1)` is the position just past the first `]` at
/// which every bracket read since (nested `[...]` included) and the one
/// before `i` are closed; it is `None` exactly when the line ends with a
/// bracket still open.
pub proof fn lemma_bracket_close_matches(s: Seq<u8>, i: int)
    requires
        0 <= i <= s.len(),
    ensures
        bracket_close(s, i, 1) matches Some(k) ==> {
            &&& i < k <= s.len()
            &&& s[k - 1] == 0x5Du8
            &&& open_after(s, i, k) == 0
            &&& forall|j: int| i <= j < k ==> #[trigger] open_after(s, i, j) > 0
        },
        bracket_close(s, i, 1) is None ==> forall|j: int| i <= j <= s.len() ==> #[trigger] open_after(s, i, j) > 0,
{
    assert(s.subrange(i, i) =~= Seq::<u8>::empty());
    assert(open_after(s, i, i) == 1);
    assert forall|j: int| i <= j <= i implies #[trigger] open_after(s, i, j) > 0 by {}
    lemma_bracket_close_from(s, i, i, 1);
    if let Some(k) = bracket_close(s, i, 1) {
        lemma_open_after_step(s, i, k - 1);
        assert(open_after(s, i, k - 1) > 0);
    }
}

proof fn lemma_skip_ident_chars(s: Seq<u8>, i: int)
    requires
        0 <= i <= s.len(),
    ensures
        forall|j: int| i <= j < skip_ident(s, i) ==> spec_is_ident_cont(#[trigger] s[j]),
    decreases s.len() - i,
{
    if i < s.len() && spec_is_ident_cont(s[i]) {
        lemma_skip_ident_chars(s, i + 1);
    }
}

/// `s[a..c]` holds as many `[` as `]`.
pub open spec fn brackets_balanced(s: Seq<u8>, a: int, c: int) -> bool {
    count_byte(s.subrange(a, c), 0x5Bu8) == count_byte(s.subrange(a, c), 0x5Du8)
}

proof fn lemma_no_brackets(s: Seq<u8>, a: int, c: int)
    requires
        0 <= a <= c <= s.len(),
        forall|j: int| a <= j < c ==> s[j] != 0x5Bu8 && s[j] != 0x5Du8,
    ensures
        count_byte(s.subrange(a, c), 0x5Bu8) == 0,
        count_byte(s.subrange(a, c), 0x5Du8) == 0,
{
    lemma_count_absent(s.subrange(a, c), 0x5Bu8);
    lemma_count_absent(s.subrange(a, c), 0x5Du8);
}

proof fn lemma_balanced_join(s: Seq<u8>, a: int, b: int, c: int)
    requires
        0 <= a <= b <= c <= s.len(),
        brackets_balanced(s, a, b),
        brackets_balanced(s, b, c),
    ensures
        brackets_balanced(s, a, c),
{
    assert(s.subrange(a, c) =~= s.subrange(a, b) + s.subrange(b, c));
    lemma_count_concat(s.subrange(a, b), s.subrange(b, c), 0x5Bu8);
    lemma_count_concat(s.subrange(a, b), s.subrange(b, c), 0x5Du8);
}

proof fn lemma_lhs_segments_balanced(s: Seq<u8>, i: int)
    requires
        0 <= i <= s.len(),
    ensures
        lhs_segments(s, i) matches Some(k) ==> i <= k <= s.len() && brackets_balanced(s, i, k),
    decreases s.len() - i,
{
    if i + 1 < s.len() && s[i] == 0x2Eu8 && s[i + 1] != 0x2Eu8 {
        if spec_is_ident_start(s[i + 1]) {
            let m = skip_ident(s, i + 2);
            lemma_skip_ident(s, i + 2);
            lemma_skip_ident_chars(s, i + 2);
            lemma_lhs_segments_balanced(s, m);
            if let Some(k) = lhs_segments(s, m) {
                assert forall|j: int| i <= j < m implies s[j] != 0x5Bu8 && s[j] != 0x5Du8 by {
                    if j >= i + 2 {
                        assert(spec_is_ident_cont(s[j]));
                    }
                }
                lemma_no_brackets(s, i, m);
                lemma_balanced_join(s, i, m, k);
            }
        }
    } else if i < s.len() && s[i] == 0x5Bu8 {
        lemma_bracket_close_matches(s, i + 1);
        if let Some(c) = bracket_close(s, i + 1, 1) {
            lemma_lhs_segments_balanced(s, c);
            if let Some(k) = lhs_segments(s, c) {
                assert(s.subrange(i, c) =~= seq![s[i]] + s.subrange(i + 1, c));
                lemma_count_concat(seq![s[i]], s.subrange(i + 1, c), 0x5Bu8);
                lemma_count_concat(seq![s[i]], s.subrange(i + 1, c), 0x5Du8);
                assert(seq![s[i]] =~= Seq::<u8>::empty().push(s[i]));
                lemma_count_push(Seq::<u8>::empty(), s[i], 0x5Bu8);
                lemma_count_push(Seq::<u8>::empty(), s[i], 0x5Du8);
                assert(brackets_balanced(s, i, c));
                lemma_balanced_join(s, i, c, k);
            }
        }
    } else {
        assert(s.subrange(i, i) =~= Seq::<u8>::empty());
    }
}

/// An assignment target closes every bracket it opens: the span the
/// scanner takes for the target holds as many `]` as `[`, so an index
/// that itself holds an index (`a[b[1]]`) is taken whole.
pub proof fn lemma_scan_lhs_balanced(s: Seq<u8>, start: int)
    requires
        0 <= start <= s.len(),
    ensures
        spec_scan_lhs(s, start) matches Some(k) ==> start < k <= s.len() && brackets_balanced(s, start, k),
{
    if start < s.len() && spec_is_ident_start(s[start]) {
        let m = skip_ident(s, start + 1);
        lemma_skip_ident(s, start + 1);
        lemma_skip_ident_chars(s, start + 1);
        lemma_lhs_segments_balanced(s, m);
        if let Some(k) = lhs_segments(s, m) {
            assert forall|j: int| start <= j < m implies s[j] != 0x5Bu8 && s[j] != 0x5Du8 by {
                if j >= start + 1 {
                    assert(spec_is_ident_cont(s[j]));
                }
            }
            lemma_no_brackets(s, start, m);
            lemma_balanced_join(s, start, m, k);
        }
    }
}

/// Walks the `.name` and `[...]` segments of an assignment target from
/// `i`, giving the position just past the target, or `None` when a
/// segment is malformed. A `..` is not a segment (it is concatenation).
pub open spec fn lhs_segments(s: Seq<u8>, i: int) -> Option<int>
    decreases s.len() - i,
{
    if i < 0 {
        None
    } else if i + 1 < s.len() && s[i] == 0x2Eu8 && s[i + 1] != 0x2Eu8 {
        if !spec_is_ident_start(s[i + 1]) {
            None
        } else {
            proof { lemma_skip_ident(s, i + 2); }
            lhs_segments(s, skip_ident(s, i + 2))
        }
    } else if i < s.len() && s[i] == 0x5Bu8 {
        proof { lemma_bracket_close(s, i + 1, 1); }
        match bracket_close(s, i + 1, 1) {
            Some(k) => lhs_segments(s, k),
            None => None,
        }
    } else {
        Some(i)
    }
}

/// The end of a simple assignment target (`name`, `name.field`,
/// `name[expr]`, and chains of these) starting at `start`.
pub open spec fn spec_scan_lhs(s: Seq<u8>, start: int) -> Option<int> {
    if start < 0 || start >= s.len() || !spec_is_ident_start(s[start]) {
        None
    } else {
        lhs_segments(s, skip_ident(s, start + 1))
    }
}

proof fn lemma_lhs_segments(s: Seq<u8>, i: int)
    requires
        0 <= i <= s.len(),
    ensures
        lhs_segments(s, i) matches Some(k) ==> i <= k <= s.len(),
    decreases s.len() - i,
{
    if i + 1 < s.len() && s[i] == 0x2Eu8 && s[i + 1] != 0x2Eu8 {
        if spec_is_ident_start(s[i + 1]) {
            lemma_skip_ident(s, i + 2);
            lemma_lhs_segments(s, skip_ident(s, i + 2));
        }
    } else if i < s.len() && s[i] == 0x5Bu8 {
        lemma_bracket_close(s, i + 1, 1);
        if let Some(k) = bracket_close(s, i + 1, 1) {
            lemma_lhs_segments(s, k);
        }
    }
}

fn bracket_close_exec(s: &[u8], start: usize) -> (r: Option<usize>)
    requires
        1 <= start <= s.len(),
    ensures
        r matches Some(k) ==> bracket_close(s@, start as int, 1) == Some(k as int),
        r is None ==> bracket_close(s@, start as int, 1) is None,
{
    let mut i = start;
    let mut depth: usize = 1;
    while i < s.len() && depth > 0
        invariant
            start <= i <= s.len(),
            depth <= i,
            depth > 0 ==> bracket_close(s@, i as int, depth as int) == bracket_close(s@, start as int, 1),
            depth == 0 ==> bracket_close(s@, start as int, 1) == Some(i as int),
        decreases s.len() - i,
    {
        if s[i] == 0x5Bu8 {
            depth = depth + 1;
        } else if s[i] == 0x5Du8 {
            depth = depth - 1;
        }
        i = i + 1;
    }
    if depth != 0 {
        None
    } else {
        Some(i)
    }
}

/// Walks an assignment target starting at `start` and returns the
/// position just past it, or `None` when the bytes there are not a simple
/// target (`name`, `name.name`, `name[expr]`, `name.foo[bar].baz`, ...).
/// Calls and method calls are not targets.
pub fn scan_lhs(s: &[u8], start: usize) -> (r: Option<usize>)
    requires
        start <= s.len(),
    ensures
        r matches Some(k) ==> spec_scan_lhs(s@, start as int) == Some(k as int),
        r is None ==> spec_scan_lhs(s@, start as int) is None,
{
    if start >= s.len() || !is_ident_start(s[start]) {
        return None;
    }
    let mut i = skip_ident_exec(s, start + 1);
    loop
        invariant
            start < i <= s.len(),
            lhs_segments(s@, i as int) == spec_scan_lhs(s@, start as int),
        decreases s.len() - i,
    {
        if i < s.len() && i + 1 < s.len() && s[i] == 0x2Eu8 && s[i + 1] != 0x2Eu8 {
            if !is_ident_start(s[i + 1]) {
                return None;
            }
            i = skip_ident_exec(s, i + 2);
        } else if i < s.len() && s[i] == 0x5Bu8 {
            proof { lemma_bracket_close(s@, i + 1, 1); }
            match bracket_close_exec(s, i + 1) {
                Some(k) => {
                    i = k;
                },
                None => {
                    return None;
                },
            }
        } else {
            return Some(i);
        }
    }
}

/// Walks back from `from` over spaces and tabs, never past `floor`.
pub open spec fn trim_ws_back(s: Seq<u8>, from: int, floor: int) -> int
    decreases from - floor,
{
    if from > floor && 0 < from <= s.len() && spec_is_horiz_ws(s[from - 1]) {
        trim_ws_back(s, from - 1, floor)
    } else {
        from
    }
}

proof fn lemma_trim_ws_back(s: Seq<u8>, from: int, floor: int)
    requires
        0 <= floor <= from <= s.len(),
    ensures
        floor <= trim_ws_back(s, from, floor) <= from,
    decreases from - floor,
{
    if from > floor && spec_is_horiz_ws(s[from - 1]) {
        lemma_trim_ws_back(s, from - 1, floor);
    }
}

/// Walks back from `from` skipping spaces and tabs, but never past
/// `floor`.
pub fn trim_horiz_ws_left(s: &[u8], from: usize, floor: usize) -> (r: usize)
    requires
        floor <= from <= s.len(),
    ensures
        r == trim_ws_back(s@, from as int, floor as int),
        floor <= r <= from,
{
    proof { lemma_trim_ws_back(s@, from as int, floor as int); }
    let mut k = from;
    while k > floor && is_horiz_ws(s[k - 1])
        invariant
            floor <= k <= from,
            from <= s.len(),
            trim_ws_back(s@, k as int, floor as int) == trim_ws_back(s@, from as int, floor as int),
        decreases k,
    {
        k = k - 1;
    }
    k
}

/// Walks the right-hand side from `i` (inside a short string quoted by
/// `quote`, if any) and gives where it ends: at a trailing short comment
/// (with the spaces before it) or at the end of the line. `None` when it
/// holds a long-string or block-comment opener, or an unterminated string.
pub open spec fn rhs_end_from(s: Seq<u8>, start: int, i: int, quote: Option<u8>) -> Option<int>
    decreases s.len() - i,
{
    if i < 0 || i >= s.len() {
        if quote is Some { None } else { Some(s.len() as int) }
    } else {
        match quote {
            Some(q) => {
                if s[i] == 0x5Cu8 && i + 1 < s.len() {
                    rhs_end_from(s, start, i + 2, quote)
                } else if s[i] == q {
                    rhs_end_from(s, start, i + 1, None)
                } else {
                    rhs_end_from(s, start, i + 1, quote)
                }
            },
            None => {
                let c = s[i];
                if c == 0x22u8 || c == 0x27u8 {
                    rhs_end_from(s, start, i + 1, Some(c))
                } else if c == 0x5Bu8 && bracket_level_at(s, i) is Some {
                    None
                } else if c == 0x2Du8 && i + 1 < s.len() && s[i + 1] == 0x2Du8 {
                    if i + 2 < s.len() && s[i + 2] == 0x5Bu8 && bracket_level_at(s, i + 2) is Some {
                        None
                    } else {
                        Some(trim_ws_back(s, i, start))
                    }
                } else {
                    rhs_end_from(s, start, i + 1, None)
                }
            },
        }
    }
}

/// Where the right-hand side starting at `start` ends; the rest of the
/// line from there is a trailing comment kept outside the parentheses.
pub open spec fn spec_rhs_end(s: Seq<u8>, start: int) -> Option<int> {
    rhs_end_from(s, start, start, None)
}

proof fn lemma_rhs_end_from(s: Seq<u8>, start: int, i: int, quote: Option<u8>)
    requires
        0 <= start <= i <= s.len(),
    ensures
        rhs_end_from(s, start, i, quote) matches Some(e) ==> start <= e <= s.len(),
    decreases s.len() - i,
{
    if i < s.len() {
        match quote {
            Some(q) => {
                if s[i] == 0x5Cu8 && i + 1 < s.len() {
                    lemma_rhs_end_from(s, start, i + 2, quote);
                } else if s[i] == q {
                    lemma_rhs_end_from(s, start, i + 1, None);
                } else {
                    lemma_rhs_end_from(s, start, i + 1, quote);
                }
            },
            None => {
                let c = s[i];
                if c == 0x22u8 || c == 0x27u8 {
                    lemma_rhs_end_from(s, start, i + 1, Some(c));
                } else if c == 0x2Du8 && i + 1 < s.len() && s[i + 1] == 0x2Du8 {
                    lemma_trim_ws_back(s, i, start);
                } else {
                    lemma_rhs_end_from(s, start, i + 1, None);
                }
            },
        }
    }
}

/// Finds where the right-hand side starting at `start` ends. The bytes
/// from there to the end of the line are a trailing short comment (with
/// the spaces before it), or nothing. `None` when the right-hand side
/// holds a long-string opener (`[[`, `[=[`, ...), a block-comment opener
/// (`--[[`, ...) or an unterminated short string.
pub fn locate_rhs_end(s: &[u8], start: usize) -> (r: Option<usize>)
    requires
        start <= s.len(),
    ensures
        r matches Some(e) ==> spec_rhs_end(s@, start as int) == Some(e as int),
        r is None ==> spec_rhs_end(s@, start as int) is None,
{
    let mut i = start;
    let mut quote: Option<u8> = None;
    while i < s.len()
        invariant
            start <= i <= s.len(),
            rhs_end_from(s@, start as int, i as int, quote) == spec_rhs_end(s@, start as int),
        decreases s.len() - i,
    {
        let c = s[i];
        match quote {
            Some(q) => {
                if c == 0x5Cu8 && i + 1 < s.len() {
                    i = i + 2;
                    continue;
                }
                if c == q {
                    quote = None;
                }
                i = i + 1;
                continue;
            },
            None => {},
        }
        if c == 0x22u8 || c == 0x27u8 {
            quote = Some(c);
            i = i + 1;
            continue;
        }
        if c == 0x5Bu8 && long_bracket_level(s, i).is_some() {
            return None;
        }
        if c == 0x2Du8 && i + 1 < s.len() && s[i + 1] == 0x2Du8 {
            if i + 2 < s.len() && s[i + 2] == 0x5Bu8 && long_bracket_level(s, i + 2).is_some() {
                return None;
            }
            let comment_start = trim_horiz_ws_left(s, i, start);
            return Some(comment_start);
        }
        i = i + 1;
    }
    if quote.is_some() {
        return None;
    }
    Some(s.len())
}

/// The operator byte of a compound assignment (`+=`, `-=`, `*=`, `/=`,
/// `%=`) starting at `i`, or `None`.
pub open spec fn compound_op_at(s: Seq<u8>, i: int) -> Option<u8> {
    if 0 <= i && i + 1 < s.len() && s[i + 1] == 0x3Du8
        && (s[i] == 0x2Bu8 || s[i] == 0x2Du8 || s[i] == 0x2Au8 || s[i] == 0x2Fu8 || s[i] == 0x25u8) {
        Some(s[i])
    } else {
        None
    }
}

/// If a compound operator (`+=`, `-=`, `*=`, `/=`, `%=`) starts at `i`,
/// the plain operator it stands for (`+`, `-`, `*`, `/`, `%`).
pub fn match_compound_op(s: &[u8], i: usize) -> (r: Option<u8>)
    requires
        i <= s.len(),
    ensures
        r == compound_op_at(s@, i as int),
{
    if i < s.len() && i + 1 < s.len() && s[i + 1] == 0x3Du8 {
        let c = s[i];
        if c == 0x2Bu8 || c == 0x2Du8 || c == 0x2Au8 || c == 0x2Fu8 || c == 0x25u8 {
            return Some(c);
        }
    }
    None
}

/// The rewrite of one line body, or `None` when the line is not a
/// line-anchored compound assignment. The shape is
/// `<indent> <LHS> <ws>* <op>= <ws>* <rhs> [trailing short comment]`,
/// rewritten to `<indent> <LHS> = <LHS> <op> (<rhs>) [comment]`, where
/// `rhs` loses its trailing spaces and tabs and must not be empty.
pub open spec fn spec_rewrite_line(s: Seq<u8>) -> Option<Seq<u8>> {
    let indent_end = skip_ws(s, 0);
    if indent_end >= s.len() {
        None
    } else {
        match spec_scan_lhs(s, indent_end) {
            None => None,
            Some(lhs_end) => {
                let i = skip_ws(s, lhs_end);
                match compound_op_at(s, i) {
                    None => None,
                    Some(op) => {
                        let rhs_start = skip_ws(s, i + 2);
                        match spec_rhs_end(s, rhs_start) {
                            None => None,
                            Some(e) => {
                                let rhs_end = trim_ws_back(s, e, rhs_start);
                                if rhs_end == rhs_start {
                                    None
                                } else {
                                    let lhs = s.subrange(indent_end, lhs_end);
                                    Some(s.subrange(0, indent_end) + lhs + seq![0x20u8, 0x3Du8, 0x20u8] + lhs
                                        + seq![0x20u8, op, 0x20u8, 0x28u8] + s.subrange(rhs_start, rhs_end)
                                        + seq![0x29u8] + s.subrange(e, s.len() as int))
                                }
                            },
                        }
                    },
                }
            },
        }
    }
}

fn push_range(out: &mut Vec<u8>, s: &[u8], a: usize, b: usize)
    requires
        a <= b <= s.len(),
    ensures
        final(out)@ == old(out)@ + s@.subrange(a as int, b as int),
{
    let mut i = a;
    while i < b
        invariant
            a <= i <= b <= s.len(),
            out@ == old(out)@ + s@.subrange(a as int, i as int),
        decreases b - i,
    {
        out.push(s[i]);
        i = i + 1;
        assert(out@ =~= old(out)@ + s@.subrange(a as int, i as int));
    }
}

/// Rewrites one line body that starts in code, or returns `None` (the
/// caller then keeps the line unchanged).
pub fn try_rewrite_compound_line(s: &[u8]) -> (r: Option<Vec<u8>>)
    ensures
        r matches Some(v) ==> spec_rewrite_line(s@) == Some(v@),
        r is None ==> spec_rewrite_line(s@) is None,
{
    let indent_end = skip_ws_exec(s, 0);
    if indent_end >= s.len() {
        return None;
    }
    let lhs_end = match scan_lhs(s, indent_end) {
        Some(k) => k,
        None => return None,
    };
    proof { lemma_skip_ident(s@, indent_end + 1); lemma_lhs_segments(s@, skip_ident(s@, indent_end + 1)); }
    let i = skip_ws_exec(s, lhs_end);
    let op = match match_compound_op(s, i) {
        Some(o) => o,
        None => return None,
    };
    let rhs_start = skip_ws_exec(s, i + 2);
    let e = match locate_rhs_end(s, rhs_start) {
        Some(e) => e,
        None => return None,
    };
    proof { lemma_rhs_end_from(s@, rhs_start as int, rhs_start as int, None); }
    let rhs_end = trim_horiz_ws_left(s, e, rhs_start);
    if rhs_end == rhs_start {
        return None;
    }
    let mut out: Vec<u8> = Vec::new();
    push_range(&mut out, s, 0, indent_end);
    push_range(&mut out, s, indent_end, lhs_end);
    out.push(0x20u8);
    out.push(0x3Du8);
    out.push(0x20u8);
    push_range(&mut out, s, indent_end, lhs_end);
    out.push(0x20u8);
    out.push(op);
    out.push(0x20u8);
    out.push(0x28u8);
    push_range(&mut out, s, rhs_start, rhs_end);
    out.push(0x29u8);
    push_range(&mut out, s, e, s.len());
    proof {
        let lhs = s@.subrange(indent_end as int, lhs_end as int);
        assert(out@ =~= s@.subrange(0, indent_end as int) + lhs + seq![0x20u8, 0x3Du8, 0x20u8] + lhs
            + seq![0x20u8, op, 0x20u8, 0x28u8] + s@.subrange(rhs_start as int, rhs_end as int)
            + seq![0x29u8] + s@.subrange(e as int, s@.len() as int));
    }
    Some(out)
}

/// The position just past the quote `q` that closes a short string whose
/// contents start at `i` (or the end of the line).
pub open spec fn skip_short_string(s: Seq<u8>, i: int, q: u8) -> int
    decreases s.len() - i,
{
    if i < 0 || i >= s.len() {
        i
    } else if s[i] == q {
        i + 1
    } else if s[i] == 0x5Cu8 && i + 1 < s.len() {
        skip_short_string(s, i + 2, q)
    } else {
        skip_short_string(s, i + 1, q)
    }
}

pub proof fn lemma_skip_short_string(s: Seq<u8>, i: int, q: u8)
    requires
        0 <= i <= s.len(),
    ensures
        i <= skip_short_string(s, i, q) <= s.len(),
    decreases s.len() - i,
{
    if i < s.len() && s[i] != q {
        if s[i] == 0x5Cu8 && i + 1 < s.len() {
            lemma_skip_short_string(s, i + 2, q);
        } else {
            lemma_skip_short_string(s, i + 1, q);
        }
    }
}

/// The lexical state after the bytes of `s` from `i`, starting in `st`.
/// Short strings and short comments end on their line; long strings and
/// block comments are entered and left.
pub open spec fn lex_from(s: Seq<u8>, i: int, st: LexState) -> LexState
    decreases s.len() - i,
{
    if i < 0 || i >= s.len() {
        st
    } else {
        match st {
            LexState::Code => {
                let c = s[i];
                if c == 0x2Du8 && i + 1 < s.len() && s[i + 1] == 0x2Du8 {
                    match bracket_level_at(s, i + 2) {
                        Some(l) => {
                            proof { lemma_bracket_level(s, i + 2); }
                            lex_from(s, i + 2 + l + 2, LexState::BlockComment(l as usize))
                        },
                        None => LexState::Code,
                    }
                } else if c == 0x22u8 || c == 0x27u8 {
                    proof { lemma_skip_short_string(s, i + 1, c); }
                    lex_from(s, skip_short_string(s, i + 1, c), LexState::Code)
                } else if c == 0x5Bu8 && bracket_level_at(s, i) is Some {
                    let l = bracket_level_at(s, i)->0;
                    proof { lemma_bracket_level(s, i); }
                    lex_from(s, i + l + 2, LexState::LongString(l as usize))
                } else {
                    lex_from(s, i + 1, LexState::Code)
                }
            },
            LexState::BlockComment(l) | LexState::LongString(l) => {
                if s[i] == 0x5Du8 {
                    let k = skip_eq(s, i + 1);
                    proof { lemma_skip_eq(s, i + 1); }
                    if k - i - 1 == l && k < s.len() && s[k] == 0x5Du8 {
                        lex_from(s, k + 1, LexState::Code)
                    } else {
                        lex_from(s, i + 1, st)
                    }
                } else {
                    lex_from(s, i + 1, st)
                }
            },
        }
    }
}

/// Lexes one line body to carry the lexical state to the next line.
pub fn advance_lex_state(start: LexState, s: &[u8]) -> (r: LexState)
    ensures
        r == lex_from(s@, 0, start),
{
    let mut state = start;
    let mut i: usize = 0;
    while i < s.len()
        invariant
            i <= s.len(),
            lex_from(s@, i as int, state) == lex_from(s@, 0, start),
        decreases s.len() - i,
    {
        match state {
            LexState::Code => {
                let c = s[i];
                if c == 0x2Du8 && i + 1 < s.len() && s[i + 1] == 0x2Du8 {
                    match long_bracket_level(s, i + 2) {
                        Some(level) => {
                            proof { lemma_bracket_level(s@, i + 2); }
                            state = LexState::BlockComment(level);
                            i = i + 2 + level + 2;
                            continue;
                        },
                        None => {
                            return LexState::Code;
                        },
                    }
                }
                if c == 0x22u8 || c == 0x27u8 {
                    let q = c;
                    let ghost i0 = i;
                    proof { lemma_skip_short_string(s@, i + 1, q); }
                    i = i + 1;
                    while i < s.len() && s[i] != q
                        invariant
                            i0 < i <= s.len(),
                            skip_short_string(s@, i as int, q) == skip_short_string(s@, i0 + 1, q),
                        decreases s.len() - i,
                    {
                        if s[i] == 0x5Cu8 && i + 1 < s.len() {
                            i = i + 2;
                        } else {
                            i = i + 1;
                        }
                    }
                    if i < s.len() {
                        i = i + 1;
                    }
                    continue;
                }
                if c == 0x5Bu8 {
                    match long_bracket_level(s, i) {
                        Some(level) => {
                            proof { lemma_bracket_level(s@, i as int); }
                            state = LexState::LongString(level);
                            i = i + level + 2;
                            continue;
                        },
                        None => {},
                    }
                }
                i = i + 1;
            },
            LexState::BlockComment(level) | LexState::LongString(level) => {
                if s[i] == 0x5Du8 {
                    let k = skip_eq_exec(s, i + 1);
                    let count = k - i - 1;
                    if count == level && k < s.len() && s[k] == 0x5Du8 {
                        state = LexState::Code;
                        i = k + 1;
                        continue;
                    }
                }
                i = i + 1;
            },
        }
    }
    state
}

/// The position just past the first newline at or after `i`, or the end.
pub open spec fn line_end(s: Seq<u8>, i: int) -> int
    decreases s.len() - i,
{
    if i < 0 || i >= s.len() {
        s.len() as int
    } else if s[i] == 0x0Au8 {
        i + 1
    } else {
        line_end(s, i + 1)
    }
}

pub proof fn lemma_line_end(s: Seq<u8>, i: int)
    requires
        0 <= i < s.len(),
    ensures
        i < line_end(s, i) <= s.len(),
    decreases s.len() - i,
{
    if s[i] != 0x0Au8 {
        if i + 1 < s.len() {
            lemma_line_end(s, i + 1);
        } else {
            assert(line_end(s, i + 1) == s.len());
        }
    }
}

/// The length of a line without its line ending (`\r\n` or `\n`).
pub open spec fn body_len(line: Seq<u8>) -> int {
    if line.len() >= 2 && line[line.len() - 2] == 0x0Du8 && line[line.len() - 1] == 0x0Au8 {
        line.len() - 2
    } else if line.len() >= 1 && line[line.len() - 1] == 0x0Au8 {
        line.len() - 1
    } else {
        line.len() as int
    }
}

/// The preprocessed form of the lines of `src` from `i`, the first of
/// them starting in lexical state `st`.
pub open spec fn preprocess_from(src: Seq<u8>, i: int, st: LexState) -> Seq<u8>
    decreases src.len() - i,
{
    if i < 0 || i >= src.len() {
        Seq::empty()
    } else {
        proof { lemma_line_end(src, i); }
        let e = line_end(src, i);
        let line = src.subrange(i, e);
        let body = line.subrange(0, body_len(line));
        let ending = line.subrange(body_len(line), line.len() as int);
        let out = if st == LexState::Code {
            match spec_rewrite_line(body) {
                Some(r) => r,
                None => body,
            }
        } else {
            body
        };
        out + ending + preprocess_from(src, e, lex_from(body, 0, st))
    }
}

/// What preprocessing gives: bytes that are not UTF-8 come back
/// unchanged (the Lua parser reports the real error); otherwise every
/// line is kept, except that a compound assignment on a line that starts
/// in code is rewritten. Line endings are kept as they are.
pub open spec fn spec_preprocess(src: Seq<u8>) -> Seq<u8> {
    if !valid_utf8(src) {
        src
    } else {
        preprocess_from(src, 0, LexState::Code)
    }
}

/// The length of `line` without its trailing `\r\n` or `\n`.
pub fn split_trailing_newline(line: &[u8]) -> (r: usize)
    ensures
        r == body_len(line@),
{
    let n = line.len();
    if n >= 2 && line[n - 2] == 0x0Du8 && line[n - 1] == 0x0Au8 {
        n - 2
    } else if n >= 1 && line[n - 1] == 0x0Au8 {
        n - 1
    } else {
        n
    }
}

fn copy_slice(b: &[u8], start: usize, end: usize) -> (r: Vec<u8>)
    requires
        start <= end <= b.len(),
    ensures
        r@ == b@.subrange(start as int, end as int),
{
    let mut r: Vec<u8> = Vec::new();
    push_range(&mut r, b, start, end);
    assert(r@ =~= b@.subrange(start as int, end as int));
    r
}

/// The output for one line (body and ending) and the lexical state
/// after it.
pub open spec fn line_output(line: Seq<u8>, st: LexState) -> (Seq<u8>, LexState) {
    let body = line.subrange(0, body_len(line));
    let ending = line.subrange(body_len(line), line.len() as int);
    let out = if st == LexState::Code {
        match spec_rewrite_line(body) {
            Some(r) => r,
            None => body,
        }
    } else {
        body
    };
    (out + ending, lex_from(body, 0, st))
}

fn find_line_end(src: &[u8], i: usize) -> (e: usize)
    requires
        i < src.len(),
    ensures
        e == line_end(src@, i as int),
        i < e <= src.len(),
{
    proof { lemma_line_end(src@, i as int); }
    let mut e = i;
    while e < src.len() && src[e] != 0x0Au8
        invariant
            i <= e <= src.len(),
            line_end(src@, e as int) == line_end(src@, i as int),
        decreases src.len() - e,
    {
        e = e + 1;
    }
    if e < src.len() {
        e = e + 1;
    }
    e
}

fn process_line(out: &mut Vec<u8>, line: &[u8], state: LexState) -> (next: LexState)
    ensures
        final(out)@ == old(out)@ + line_output(line@, state).0,
        next == line_output(line@, state).1,
{
    let bl = split_trailing_newline(line);
    let body = copy_slice(line, 0, bl);
    if state == LexState::Code {
        match try_rewrite_compound_line(body.as_slice()) {
            Some(r) => push_range(out, r.as_slice(), 0, r.len()),
            None => push_range(out, body.as_slice(), 0, body.len()),
        }
    } else {
        push_range(out, body.as_slice(), 0, body.len());
    }
    assert(body@.subrange(0, body@.len() as int) =~= body@);
    push_range(out, line, bl, line.len());
    advance_lex_state(state, body.as_slice())
}

/// Rewrites the compound-assignment lines of the Lua source `src`. Bytes
/// that are not UTF-8 are returned unchanged so that the Lua parser
/// reports the real error.
pub fn preprocess(src: &[u8]) -> (r: Vec<u8>)
    ensures
        r@ == spec_preprocess(src@),
{
    if str_from_utf8(src).is_none() {
        return copy_slice(src, 0, src.len());
    }
    let mut out: Vec<u8> = Vec::new();
    let mut state = LexState::Code;
    let mut i: usize = 0;
    while i < src.len()
        invariant
            i <= src.len(),
            out@ + preprocess_from(src@, i as int, state) == preprocess_from(src@, 0, LexState::Code),
        decreases src.len() - i,
    {
        let e = find_line_end(src, i);
        let line = copy_slice(src, i, e);
        let ghost before = out@;
        let next = process_line(&mut out, line.as_slice(), state);
        proof {
            assert(preprocess_from(src@, i as int, state) == line_output(line@, state).0 + preprocess_from(src@, e as int, next));
            assert(out@ + preprocess_from(src@, e as int, next) =~= before + preprocess_from(src@, i as int, state));
        }
        state = next;
        i = e;
    }
    assert(out@ + preprocess_from(src@, i as int, state) =~= out@);
    out
}

/// The number of line feeds (`\n`) in `s`.
pub open spec fn line_feeds(s: Seq<u8>) -> nat
    decreases s.len(),
{
    if s.len() == 0 {
        0
    } else {
        line_feeds(s.drop_last()) + (if s.last() == 0x0Au8 { 1nat } else { 0nat })
    }
}

proof fn lemma_line_feeds_add(a: Seq<u8>, b: Seq<u8>)
    ensures
        line_feeds(a + b) == line_feeds(a) + line_feeds(b),
    decreases b.len(),
{
    if b.len() == 0 {
        assert(a + b =~= a);
    } else {
        lemma_line_feeds_add(a, b.drop_last());
        assert((a + b).drop_last() =~= a + b.drop_last());
    }
}

proof fn lemma_no_line_feeds(s: Seq<u8>)
    requires
        forall|k: int| 0 <= k < s.len() ==> s[k] != 0x0Au8,
    ensures
        line_feeds(s) == 0,
    decreases s.len(),
{
    if s.len() > 0 {
        lemma_no_line_feeds(s.drop_last());
    }
}

proof fn lemma_line_end_scan(s: Seq<u8>, i: int)
    requires
        0 <= i < s.len(),
    ensures
        forall|k: int| i <= k < line_end(s, i) - 1 ==> s[k] != 0x0Au8,
        s[line_end(s, i) - 1] == 0x0Au8 || line_end(s, i) == s.len(),
    decreases s.len() - i,
{
    lemma_line_end(s, i);
    if s[i] != 0x0Au8 && i + 1 < s.len() {
        lemma_line_end_scan(s, i + 1);
    }
}

/// A rewritten line holds a line feed only where the line did.
proof fn lemma_rewrite_line_feeds(s: Seq<u8>)
    requires
        forall|k: int| 0 <= k < s.len() ==> s[k] != 0x0Au8,
    ensures
        spec_rewrite_line(s) matches Some(r) ==> line_feeds(r) == 0,
{
    let indent_end = skip_ws(s, 0);
    lemma_skip_ws(s, 0);
    if indent_end < s.len() {
        if let Some(lhs_end) = spec_scan_lhs(s, indent_end) {
            lemma_skip_ident(s, indent_end + 1);
            lemma_lhs_segments(s, skip_ident(s, indent_end + 1));
            let i = skip_ws(s, lhs_end);
            lemma_skip_ws(s, lhs_end);
            if let Some(op) = compound_op_at(s, i) {
                let rhs_start = skip_ws(s, i + 2);
                lemma_skip_ws(s, i + 2);
                if let Some(e) = spec_rhs_end(s, rhs_start) {
                    lemma_rhs_end_from(s, rhs_start, rhs_start, None);
                    let rhs_end = trim_ws_back(s, e, rhs_start);
                    lemma_trim_ws_back(s, e, rhs_start);
                    if rhs_end != rhs_start {
                        let lhs = s.subrange(indent_end, lhs_end);
                        let p0 = s.subrange(0, indent_end);
                        let p2 = seq![0x20u8, 0x3Du8, 0x20u8];
                        let p4 = seq![0x20u8, op, 0x20u8, 0x28u8];
                        let p5 = s.subrange(rhs_start, rhs_end);
                        let p6 = seq![0x29u8];
                        let p7 = s.subrange(e, s.len() as int);
                        lemma_no_line_feeds(p0);
                        lemma_no_line_feeds(lhs);
                        lemma_no_line_feeds(p2);
                        lemma_no_line_feeds(p4);
                        lemma_no_line_feeds(p5);
                        lemma_no_line_feeds(p6);
                        lemma_no_line_feeds(p7);
                        lemma_line_feeds_add(p0, lhs);
                        lemma_line_feeds_add(p0 + lhs, p2);
                        lemma_line_feeds_add(p0 + lhs + p2, lhs);
                        lemma_line_feeds_add(p0 + lhs + p2 + lhs, p4);
                        lemma_line_feeds_add(p0 + lhs + p2 + lhs + p4, p5);
                        lemma_line_feeds_add(p0 + lhs + p2 + lhs + p4 + p5, p6);
                        lemma_line_feeds_add(p0 + lhs + p2 + lhs + p4 + p5 + p6, p7);
                    }
                }
            }
        }
    }
}

proof fn lemma_preprocess_from_line_feeds(src: Seq<u8>, i: int, st: LexState)
    requires
        0 <= i <= src.len(),
    ensures
        line_feeds(preprocess_from(src, i, st)) == line_feeds(src.subrange(i, src.len() as int)),
    decreases src.len() - i,
{
    if i == src.len() {
        assert(src.subrange(i, src.len() as int) =~= Seq::<u8>::empty());
    } else {
        lemma_line_end(src, i);
        lemma_line_end_scan(src, i);
        let e = line_end(src, i);
        let line = src.subrange(i, e);
        let bl = body_len(line);
        let body = line.subrange(0, bl);
        let ending = line.subrange(bl, line.len() as int);
        assert forall|k: int| 0 <= k < body.len() implies body[k] != 0x0Au8 by {
            assert(body[k] == src[i + k]);
        }
        lemma_no_line_feeds(body);
        lemma_rewrite_line_feeds(body);
        let out = if st == LexState::Code {
            match spec_rewrite_line(body) {
                Some(r) => r,
                None => body,
            }
        } else {
            body
        };
        let next = lex_from(body, 0, st);
        lemma_preprocess_from_line_feeds(src, e, next);
        assert(preprocess_from(src, i, st) == out + ending + preprocess_from(src, e, next));
        lemma_line_feeds_add(out, ending);
        lemma_line_feeds_add(out + ending, preprocess_from(src, e, next));
        assert(line =~= body + ending);
        lemma_line_feeds_add(body, ending);
        assert(src.subrange(i, src.len() as int) =~= line + src.subrange(e, src.len() as int));
        lemma_line_feeds_add(line, src.subrange(e, src.len() as int));
    }
}

/// Preprocessing keeps every line: the output holds exactly as many line
/// feeds as the source, so the line numbers Lua reports stay those of the
/// user's file.
pub proof fn lemma_preprocess_keeps_line_count(src: Seq<u8>)
    ensures
        line_feeds(spec_preprocess(src)) == line_feeds(src),
{
    if valid_utf8(src) {
        lemma_preprocess_from_line_feeds(src, 0, LexState::Code);
        assert(src.subrange(0, src.len() as int) =~= src);
    }
}

/// Some compound operator (`+=`, `-=`, `*=`, `/=`, `%=`) occurs in `s`.
pub open spec fn has_compound_op(s: Seq<u8>) -> bool {
    exists|j: int| #[trigger] compound_op_at(s, j) is Some
}

proof fn lemma_rewrite_needs_op(s: Seq<u8>)
    ensures
        spec_rewrite_line(s) is Some ==> has_compound_op(s),
{
    if spec_rewrite_line(s) is Some {
        let indent_end = skip_ws(s, 0);
        let lhs_end = spec_scan_lhs(s, indent_end)->0;
        let i = skip_ws(s, lhs_end);
        assert(compound_op_at(s, i) is Some);
    }
}

/// Every line keeps its line ending, and its body comes out unchanged
/// unless the line starts in code (not inside a long string or block
/// comment) and holds a compound operator; the next line starts in the
/// lexical state this one leaves.
pub proof fn lemma_preprocess_line(src: Seq<u8>, i: int, st: LexState)
    requires
        0 <= i < src.len(),
    ensures
        ({
            let e = line_end(src, i);
            let line = src.subrange(i, e);
            let body = line.subrange(0, body_len(line));
            let ending = line.subrange(body_len(line), line.len() as int);
            let out = line_output(line, st).0;
            &&& i < e <= src.len()
            &&& preprocess_from(src, i, st) == out + preprocess_from(src, e, lex_from(body, 0, st))
            &&& out.subrange(out.len() - ending.len(), out.len() as int) == ending
            &&& (out.subrange(0, out.len() - ending.len()) != body
                ==> st == LexState::Code && has_compound_op(body))
        }),
{
    lemma_line_end(src, i);
    let e = line_end(src, i);
    let line = src.subrange(i, e);
    let body = line.subrange(0, body_len(line));
    let ending = line.subrange(body_len(line), line.len() as int);
    let out = line_output(line, st).0;
    let b2 = if st == LexState::Code {
        match spec_rewrite_line(body) {
            Some(r) => r,
            None => body,
        }
    } else {
        body
    };
    assert(out == b2 + ending);
    assert(out.subrange(out.len() - ending.len(), out.len() as int) =~= ending);
    assert(out.subrange(0, out.len() - ending.len()) =~= b2);
    lemma_rewrite_needs_op(body);
}

proof fn lemma_no_op_in_part(src: Seq<u8>, a: int, b: int)
    requires
        0 <= a <= b <= src.len(),
        !has_compound_op(src),
    ensures
        !has_compound_op(src.subrange(a, b)),
{
    let s = src.subrange(a, b);
    if has_compound_op(s) {
        let j = choose|j: int| #[trigger] compound_op_at(s, j) is Some;
        assert(s[j] == src[a + j] && s[j + 1] == src[a + j + 1]);
        assert(compound_op_at(src, a + j) is Some);
    }
}

proof fn lemma_preprocess_from_identity(src: Seq<u8>, i: int, st: LexState)
    requires
        0 <= i <= src.len(),
        !has_compound_op(src),
    ensures
        preprocess_from(src, i, st) == src.subrange(i, src.len() as int),
    decreases src.len() - i,
{
    if i == src.len() {
        assert(src.subrange(i, src.len() as int) =~= Seq::<u8>::empty());
    } else {
        lemma_line_end(src, i);
        let e = line_end(src, i);
        let line = src.subrange(i, e);
        let bl = body_len(line);
        let body = line.subrange(0, bl);
        let ending = line.subrange(bl, line.len() as int);
        assert(body =~= src.subrange(i, i + bl));
        lemma_no_op_in_part(src, i, i + bl);
        lemma_rewrite_needs_op(body);
        lemma_preprocess_from_identity(src, e, lex_from(body, 0, st));
        assert(line =~= body + ending);
        assert(src.subrange(i, src.len() as int) =~= line + src.subrange(e, src.len() as int));
    }
}

/// Source holding no compound operator comes out of the preprocessor
/// exactly as it went in.
pub proof fn lemma_preprocess_identity_without_ops(src: Seq<u8>)
    requires
        !has_compound_op(src),
    ensures
        spec_preprocess(src) == src,
{
    if valid_utf8(src) {
        lemma_preprocess_from_identity(src, 0, LexState::Code);
        assert(src.subrange(0, src.len() as int) =~= src);
    }
}

} // verus!
