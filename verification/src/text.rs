//! Strings as sequences of characters: conversion, trimming and tokens.

use vstd::prelude::*;
use vstd::std_specs::iter::IteratorSpec;
use crate::charclass::{is_space, space};

verus! {

/// The characters of `s`, in order.
pub fn chars_of(s: &str) -> (v: Vec<char>)
    ensures
        v@ == s@,
{
    broadcast use vstd::string::group_string_axioms;
    let mut it = s.chars();
    let mut v: Vec<char> = Vec::new();
    loop
        invariant
            it.obeys_prophetic_iter_laws(),
            it.decrease() is Some,
            v@ + it.remaining() == s@,
        ensures
            v@ == s@,
        decreases it.decrease()->0,
    {
        let ghost before = it.remaining();
        match it.next() {
            Some(c) => {
                v.push(c);
                assert(v@ + it.remaining() =~= s@) by {
                    assert(before =~= seq![c] + before.drop_first());
                }
            },
            None => {
                assert(v@ + it.remaining() =~= v@);
                break ;
            },
        }
    }
    v
}

/// `String::push` of the standard library, which appends one character to
/// the end of the string: afterwards the string holds what it held, then `c`.
pub assume_specification[ String::push ](s: &mut String, c: char)
    ensures
        final(s)@ == old(s)@.push(c),
;

/// Appends the characters `v[from..to]` to `out`.
pub fn append_chars(out: &mut String, v: &Vec<char>, from: usize, to: usize)
    requires
        from <= to <= v.len(),
    ensures
        final(out)@ == old(out)@ + v@.subrange(from as int, to as int),
{
    let mut i: usize = from;
    while i < to
        invariant
            from <= i <= to <= v.len(),
            out@ == old(out)@ + v@.subrange(from as int, i as int),
        decreases to - i,
    {
        out.push(v[i]);
        i += 1;
        proof {
            assert(out@ =~= old(out)@ + v@.subrange(from as int, i as int));
        }
    }
}

/// The characters `v[from..to]` as a string.
pub fn string_of(v: &Vec<char>, from: usize, to: usize) -> (out: String)
    requires
        from <= to <= v.len(),
    ensures
        out@ == v@.subrange(from as int, to as int),
{
    let mut out = String::new();
    append_chars(&mut out, v, from, to);
    proof {
        assert(out@ =~= v@.subrange(from as int, to as int));
    }
    out
}

/// The first position at or after `i` that holds no whitespace, or the
/// length of `s` where whitespace runs to the end.
pub open spec fn skip_spaces(s: Seq<char>, i: int) -> int
    decreases s.len() - i,
{
    if 0 <= i < s.len() && space(s[i]) {
        skip_spaces(s, i + 1)
    } else {
        i
    }
}

/// The end of the text that is left of `s[..j]` when trailing whitespace is
/// taken off, never going below `lo`.
pub open spec fn back_spaces(s: Seq<char>, lo: int, j: int) -> int
    decreases j - lo,
{
    if lo < j && 0 < j <= s.len() && space(s[j - 1]) {
        back_spaces(s, lo, j - 1)
    } else {
        j
    }
}

/// Where the trimmed text starts.
pub open spec fn trim_lo(s: Seq<char>) -> int {
    skip_spaces(s, 0)
}

/// Where the trimmed text ends.
pub open spec fn trim_hi(s: Seq<char>) -> int {
    back_spaces(s, trim_lo(s), s.len() as int)
}

/// `s` without its leading and trailing whitespace.
pub open spec fn trim(s: Seq<char>) -> Seq<char> {
    s.subrange(trim_lo(s), trim_hi(s))
}

/// A token starts at `i`: a character that is not whitespace, at the start of
/// the text or after whitespace.
pub open spec fn token_start(s: Seq<char>, i: int) -> bool {
    0 <= i < s.len() && !space(s[i]) && (i == 0 || space(s[i - 1]))
}

/// The number of tokens that start in `s[..n]`.
pub open spec fn token_starts(s: Seq<char>, n: int) -> nat
    decreases n,
{
    if n <= 0 {
        0
    } else {
        token_starts(s, n - 1) + if token_start(s, n - 1) {
            1nat
        } else {
            0nat
        }
    }
}

/// The number of whitespace-separated tokens of `s`.
pub open spec fn token_count(s: Seq<char>) -> nat {
    token_starts(s, s.len() as int)
}

/// `skip_spaces` passes whitespace only, and stops at the end of the text
/// or at a character that is none.
pub proof fn lemma_skip_spaces(s: Seq<char>, i: int)
    requires
        0 <= i <= s.len(),
    ensures
        i <= skip_spaces(s, i) <= s.len(),
        forall|k: int| i <= k < skip_spaces(s, i) ==> space(#[trigger] s[k]),
        skip_spaces(s, i) < s.len() ==> !space(s[skip_spaces(s, i)]),
    decreases s.len() - i,
{
    if i < s.len() && space(s[i]) {
        lemma_skip_spaces(s, i + 1);
    }
}

/// `back_spaces` passes whitespace only, and stops at `lo` or behind a
/// character that is none.
pub proof fn lemma_back_spaces(s: Seq<char>, lo: int, j: int)
    requires
        0 <= lo <= j <= s.len(),
    ensures
        lo <= back_spaces(s, lo, j) <= j,
        forall|k: int| back_spaces(s, lo, j) <= k < j ==> space(#[trigger] s[k]),
        lo < back_spaces(s, lo, j) ==> !space(s[back_spaces(s, lo, j) - 1]),
    decreases j - lo,
{
    if lo < j && space(s[j - 1]) {
        lemma_back_spaces(s, lo, j - 1);
    }
}

/// The bounds of the trimmed text lie in `s`, and where the trimmed text is
/// not empty it starts and ends with a character that is no whitespace.
pub proof fn lemma_trim_bounds(s: Seq<char>)
    ensures
        0 <= trim_lo(s) <= trim_hi(s) <= s.len(),
        trim(s).len() == trim_hi(s) - trim_lo(s),
        trim(s).len() > 0 ==> !space(trim(s)[0]) && !space(trim(s).last()),
        forall|k: int| 0 <= k < trim_lo(s) ==> space(#[trigger] s[k]),
        forall|k: int| trim_hi(s) <= k < s.len() ==> space(#[trigger] s[k]),
{
    lemma_skip_spaces(s, 0);
    lemma_back_spaces(s, trim_lo(s), s.len() as int);
}

/// A text that neither starts nor ends with whitespace is its own trim.
pub proof fn lemma_trim_of_trimmed(s: Seq<char>)
    requires
        s.len() > 0 ==> !space(s[0]) && !space(s.last()),
    ensures
        trim(s) == s,
{
    assert(trim(s) =~= s);
}

/// Trimming twice gives what trimming once gives.
pub proof fn lemma_trim_idempotent(s: Seq<char>)
    ensures
        trim(trim(s)) == trim(s),
{
    lemma_trim_bounds(s);
    lemma_trim_of_trimmed(trim(s));
}

/// The count of token starts depends only on the characters before `n`.
pub proof fn lemma_token_starts_prefix(s: Seq<char>, t: Seq<char>, n: int)
    requires
        0 <= n <= s.len(),
        n <= t.len(),
        forall|k: int| 0 <= k < n ==> s[k] == t[k],
    ensures
        token_starts(s, n) == token_starts(t, n),
    decreases n,
{
    if n > 0 {
        lemma_token_starts_prefix(s, t, n - 1);
    }
}

/// The count of token starts grows with the prefix.
pub proof fn lemma_token_starts_monotone(s: Seq<char>, m: int, n: int)
    requires
        m <= n,
    ensures
        token_starts(s, m) <= token_starts(s, n),
    decreases n - m,
{
    if m < n {
        lemma_token_starts_monotone(s, m, n - 1);
    }
}

/// A text without whitespace in `s[..n]` has at most one token there.
pub proof fn lemma_no_space_one_token(s: Seq<char>, n: int)
    requires
        0 <= n <= s.len(),
        forall|k: int| 0 <= k < n ==> !space(#[trigger] s[k]),
    ensures
        token_starts(s, n) <= 1,
        n <= 1 || token_starts(s, n) == token_starts(s, n - 1),
    decreases n,
{
    if n > 0 {
        lemma_no_space_one_token(s, n - 1);
        if n >= 2 {
            assert(!space(s[n - 2]));
        }
    }
}

/// The bounds of the trimmed part of `v[from..to]`, as positions in `v`.
pub fn trim_bounds(v: &Vec<char>, from: usize, to: usize) -> (r: (usize, usize))
    requires
        from <= to <= v.len(),
    ensures
        r.0 == from + trim_lo(v@.subrange(from as int, to as int)),
        r.1 == from + trim_hi(v@.subrange(from as int, to as int)),
        from <= r.0 <= r.1 <= to,
        v@.subrange(r.0 as int, r.1 as int) == trim(v@.subrange(from as int, to as int)),
{
    let ghost t = v@.subrange(from as int, to as int);
    let mut a: usize = from;
    while a < to && is_space(v[a])
        invariant
            from <= a <= to <= v.len(),
            t == v@.subrange(from as int, to as int),
            skip_spaces(t, a - from) == skip_spaces(t, 0),
        decreases to - a,
    {
        a += 1;
    }
    let mut b: usize = to;
    while a < b && is_space(v[b - 1])
        invariant
            from <= a <= b <= to <= v.len(),
            t == v@.subrange(from as int, to as int),
            back_spaces(t, a - from, b - from) == back_spaces(t, a - from, t.len() as int),
        decreases b - a,
    {
        b -= 1;
    }
    proof {
        assert(v@.subrange(a as int, b as int) =~= t.subrange(a - from, b - from));
    }
    (a, b)
}

/// The number of tokens of `v[from..to]`.
pub fn count_tokens(v: &Vec<char>, from: usize, to: usize) -> (n: usize)
    requires
        from <= to <= v.len(),
    ensures
        n == token_count(v@.subrange(from as int, to as int)),
{
    let ghost t = v@.subrange(from as int, to as int);
    let mut n: usize = 0;
    let mut i: usize = from;
    while i < to
        invariant
            from <= i <= to <= v.len(),
            t == v@.subrange(from as int, to as int),
            n == token_starts(t, i - from),
            n <= i - from,
        decreases to - i,
    {
        if !is_space(v[i]) && (i == from || is_space(v[i - 1])) {
            n += 1;
        }
        i += 1;
    }
    n
}

} // verus!
