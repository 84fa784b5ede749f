//! The sentence-boundary heuristic and the scan that cuts a text by it.
//!
//! Positions count characters. The scan keeps two things: where the text in
//! progress starts, and the sentences emitted so far.

use vstd::prelude::*;
use crate::charclass::{digit, is_digit, is_letter, is_space, is_upper, letter, space, upper};
use crate::text::{
    append_chars, chars_of, lemma_token_starts_monotone, lemma_token_starts_prefix,
    lemma_trim_bounds, lemma_trim_idempotent, lemma_trim_of_trimmed, skip_spaces, string_of, trim,
    trim_bounds,
};
use crate::validity::{lemma_tokens_exclude_number, valid_range, valid_sentence};

verus! {

/// The full stop at `pos` ends a sentence: it is neither the first nor the
/// last character, it stands neither between two letters nor between two
/// digits, no second full stop follows, and the whitespace after it is
/// followed by an uppercase letter or a digit.
pub open spec fn sentence_boundary(s: Seq<char>, pos: int) -> bool {
    &&& 0 < pos < s.len() - 1
    &&& !(letter(s[pos - 1]) && letter(s[pos + 1]))
    &&& !(digit(s[pos - 1]) && digit(s[pos + 1]))
    &&& s[pos + 1] != '.'
    &&& space(s[pos + 1])
    &&& {
        let j = skip_spaces(s, pos + 1);
        j < s.len() && (upper(s[j]) || digit(s[j]))
    }
}

/// The question or exclamation mark at `pos` ends a sentence: it is the last
/// character, or whitespace or an uppercase letter follows at once.
pub open spec fn mark_boundary(s: Seq<char>, pos: int) -> bool {
    0 <= pos < s.len() && (pos + 1 == s.len() || space(s[pos + 1]) || upper(s[pos + 1]))
}

/// The character at `pos` is a mark at which the text in progress is
/// evaluated.
pub open spec fn closes_at(s: Seq<char>, pos: int) -> bool {
    &&& 0 <= pos < s.len()
    &&& if s[pos] == '.' {
        sentence_boundary(s, pos)
    } else {
        (s[pos] == '?' || s[pos] == '!') && mark_boundary(s, pos)
    }
}

/// The state of the scan: the text in progress starts at `start`, and
/// `emitted` holds the sentences cut so far.
pub struct Scan {
    pub start: int,
    pub emitted: Seq<Seq<char>>,
}

/// The state after the first `n` characters of `s`. At a closing mark the
/// text in progress is emitted, trimmed, if it is a valid sentence; else it
/// goes on growing.
pub open spec fn scan(s: Seq<char>, n: int) -> Scan
    decreases n,
{
    if n <= 0 {
        Scan { start: 0, emitted: Seq::empty() }
    } else {
        let before = scan(s, n - 1);
        let buffer = s.subrange(before.start, n);
        if closes_at(s, n - 1) && valid_sentence(buffer) {
            Scan { start: n, emitted: before.emitted.push(trim(buffer)) }
        } else {
            before
        }
    }
}

/// The last sentence with a leftover fragment joined to it by one space.
pub open spec fn merged(last: Seq<char>, fragment: Seq<char>) -> Seq<char> {
    last.push(' ') + fragment
}

/// What the scan hands out at the end of the text. A valid rest is the last
/// sentence. Any other rest that holds more than whitespace is joined to the
/// sentence emitted last, and dropped where there is none.
pub open spec fn finish(s: Seq<char>, state: Scan) -> Seq<Seq<char>> {
    let rest = s.subrange(state.start, s.len() as int);
    let count = state.emitted.len() as int;
    if valid_sentence(rest) {
        state.emitted.push(trim(rest))
    } else if count > 0 && trim(rest).len() > 0 {
        state.emitted.update(count - 1, merged(state.emitted[count - 1], trim(rest)))
    } else {
        state.emitted
    }
}

/// The sentences of `s`, in order.
pub open spec fn sentences(s: Seq<char>) -> Seq<Seq<char>> {
    finish(s, scan(s, s.len() as int))
}

/// What every emitted sentence is: trimmed, and valid.
pub open spec fn kept_sentence(t: Seq<char>) -> bool {
    trim(t) == t && valid_sentence(t)
}

/// Whether the full stop at `pos` of `v` ends a sentence.
pub fn boundary_at(v: &Vec<char>, pos: usize) -> (b: bool)
    ensures
        b == sentence_boundary(v@, pos as int),
{
    if pos == 0 || v.len() < 2 || pos >= v.len() - 1 {
        return false;
    }
    let before = v[pos - 1];
    let after = v[pos + 1];
    if is_letter(before) && is_letter(after) {
        return false;
    }
    if is_digit(before) && is_digit(after) {
        return false;
    }
    if after == '.' || !is_space(after) {
        return false;
    }
    let mut j: usize = pos + 1;
    while j < v.len() && is_space(v[j])
        invariant
            pos + 1 <= j <= v.len(),
            skip_spaces(v@, j as int) == skip_spaces(v@, pos + 1),
        decreases v.len() - j,
    {
        j += 1;
    }
    j < v.len() && (is_upper(v[j]) || is_digit(v[j]))
}

/// Whether the character at `pos` of `v` is a mark that closes the text in
/// progress.
pub fn closing_mark_at(v: &Vec<char>, pos: usize) -> (b: bool)
    requires
        pos < v.len(),
    ensures
        b == closes_at(v@, pos as int),
{
    let c = v[pos];
    if c == '.' {
        boundary_at(v, pos)
    } else if c == '?' || c == '!' {
        pos + 1 == v.len() || is_space(v[pos + 1]) || is_upper(v[pos + 1])
    } else {
        false
    }
}

/// Whether the full stop at character position `pos` of `text` ends a
/// sentence. A position outside the text is none.
pub fn is_sentence_boundary(text: &str, pos: usize) -> (b: bool)
    ensures
        b == sentence_boundary(text@, pos as int),
{
    let v = chars_of(text);
    boundary_at(&v, pos)
}

/// Whether `text` could be handed out as a sentence as it stands: it is
/// trimmed and valid.
pub fn is_kept_sentence(text: &str) -> (b: bool)
    ensures
        b == kept_sentence(text@),
{
    let v = chars_of(text);
    let (lo, hi) = trim_bounds(&v, 0, v.len());
    proof {
        assert(v@.subrange(0, v.len() as int) =~= text@);
        lemma_trim_bounds(text@);
    }
    lo == 0 && hi == v.len() && valid_range(&v, 0, v.len())
}

/// Cuts `text` into its sentences, in order. Every one of them is trimmed
/// and valid.
pub fn split_into_sentences(text: &str) -> (out: Vec<String>)
    ensures
        out.len() == sentences(text@).len(),
        forall|k: int| 0 <= k < out.len() ==> (#[trigger] out[k])@ == sentences(text@)[k],
        forall|k: int| 0 <= k < out.len() ==> kept_sentence((#[trigger] out[k])@),
{
    let v = chars_of(text);
    let n = v.len();
    let mut out: Vec<String> = Vec::new();
    let mut start: usize = 0;
    let mut i: usize = 0;
    while i < n
        invariant
            start <= i <= n,
            n == v.len(),
            scan(v@, i as int).start == start,
            scan(v@, i as int).emitted.len() == out.len(),
            forall|k: int| 0 <= k < out.len() ==> (#[trigger] out[k])@ == scan(v@, i as int).emitted[k],
        decreases n - i,
    {
        if closing_mark_at(&v, i) && valid_range(&v, start, i + 1) {
            let (lo, hi) = trim_bounds(&v, start, i + 1);
            out.push(string_of(&v, lo, hi));
            start = i + 1;
        }
        i += 1;
    }
    let ghost state = scan(v@, n as int);
    if valid_range(&v, start, n) {
        let (lo, hi) = trim_bounds(&v, start, n);
        out.push(string_of(&v, lo, hi));
    } else if out.len() > 0 {
        let (lo, hi) = trim_bounds(&v, start, n);
        if lo < hi {
            let mut last = out.pop().unwrap();
            last.push(' ');
            append_chars(&mut last, &v, lo, hi);
            out.push(last);
        }
    }
    proof {
        lemma_sentences_kept(text@);
        assert forall|k: int| 0 <= k < out.len() implies kept_sentence((#[trigger] out[k])@) by {
            assert(out[k]@ == sentences(text@)[k]);
        }
    }
    out
}

/// Every sentence that the scan has emitted is trimmed and valid, and the
/// text in progress starts inside the part that was read.
pub proof fn lemma_scan_kept(s: Seq<char>, n: int)
    requires
        0 <= n <= s.len(),
    ensures
        0 <= scan(s, n).start <= n,
        forall|k: int|
            0 <= k < scan(s, n).emitted.len() ==> kept_sentence(#[trigger] scan(s, n).emitted[k]),
    decreases n,
{
    if n > 0 {
        lemma_scan_kept(s, n - 1);
        let before = scan(s, n - 1);
        let buffer = s.subrange(before.start, n);
        if closes_at(s, n - 1) && valid_sentence(buffer) {
            lemma_trim_idempotent(buffer);
        }
    }
}

/// A valid, trimmed sentence stays so when a trimmed fragment is joined to
/// it.
pub proof fn lemma_merged_kept(last: Seq<char>, fragment: Seq<char>)
    requires
        kept_sentence(last),
        fragment.len() > 0,
        !space(fragment.last()),
    ensures
        kept_sentence(merged(last, fragment)),
{
    let m = merged(last, fragment);
    lemma_trim_bounds(last);
    assert(m[0] == last[0]);
    assert(m.last() == fragment.last());
    lemma_trim_of_trimmed(m);
    lemma_token_starts_prefix(m, last, last.len() as int);
    lemma_token_starts_monotone(m, last.len() as int, m.len() as int);
    lemma_tokens_exclude_number(m);
}

/// Every sentence handed out is trimmed, has ten characters or more and
/// three tokens or more, and does not read as a single number.
pub proof fn lemma_sentences_kept(s: Seq<char>)
    ensures
        forall|k: int| 0 <= k < sentences(s).len() ==> kept_sentence(#[trigger] sentences(s)[k]),
{
    let state = scan(s, s.len() as int);
    lemma_scan_kept(s, s.len() as int);
    let rest = s.subrange(state.start, s.len() as int);
    let count = state.emitted.len() as int;
    if valid_sentence(rest) {
        lemma_trim_idempotent(rest);
    } else if count > 0 && trim(rest).len() > 0 {
        lemma_trim_bounds(rest);
        lemma_merged_kept(state.emitted[count - 1], trim(rest));
    }
}

/// A full stop between two digits ends no sentence, and the scan passes it
/// without a change of state.
pub proof fn lemma_decimal_point_kept(s: Seq<char>, pos: int)
    requires
        0 < pos < s.len() - 1,
        s[pos] == '.',
        digit(s[pos - 1]),
        digit(s[pos + 1]),
    ensures
        !sentence_boundary(s, pos),
        scan(s, pos + 1) == scan(s, pos),
{
}

/// A full stop between two letters ends no sentence, and the scan passes it
/// without a change of state.
pub proof fn lemma_inner_point_kept(s: Seq<char>, pos: int)
    requires
        0 < pos < s.len() - 1,
        s[pos] == '.',
        letter(s[pos - 1]),
        letter(s[pos + 1]),
    ensures
        !sentence_boundary(s, pos),
        scan(s, pos + 1) == scan(s, pos),
{
}

/// A full stop that is not the first character, followed by whitespace and
/// then an uppercase letter, ends a sentence.
pub proof fn lemma_point_before_capital(s: Seq<char>, pos: int)
    requires
        0 < pos,
        pos + 1 < s.len(),
        space(s[pos + 1]),
        skip_spaces(s, pos + 1) < s.len(),
        upper(s[skip_spaces(s, pos + 1)]),
    ensures
        sentence_boundary(s, pos),
{
}

} // verus!
