//! Cleaning a raw line: characters outside the allowed set are deleted, and
//! the result is trimmed.

use vstd::prelude::*;
use crate::charclass::{allowed, is_allowed};
use crate::text::{
    chars_of, lemma_trim_bounds, lemma_trim_idempotent, string_of, trim, trim_bounds, trim_lo,
};

verus! {

/// The test by which a character is kept.
pub open spec fn keep() -> spec_fn(char) -> bool {
    |c: char| allowed(c)
}

/// `s` without the characters that are not allowed.
pub open spec fn stripped(s: Seq<char>) -> Seq<char> {
    s.filter(keep())
}

/// The normal form of a line: stripped, then trimmed.
pub open spec fn normalized(s: Seq<char>) -> Seq<char> {
    trim(stripped(s))
}

/// Every character of `s` is allowed.
pub open spec fn all_allowed(s: Seq<char>) -> bool {
    forall|k: int| 0 <= k < s.len() ==> allowed(#[trigger] s[k])
}

/// Cleans `line`: deletes every character that is not a letter, a digit,
/// whitespace or one of `.`, `!`, `?`, then trims the result.
pub fn normalize(line: &str) -> (out: String)
    ensures
        out@ == normalized(line@),
        all_allowed(out@),
        out@.len() <= line@.len(),
{
    let v = chars_of(line);
    let mut kept: Vec<char> = Vec::new();
    let mut i: usize = 0;
    proof {
        v@.subrange(0, 0).lemma_filter_len(keep());
    }
    while i < v.len()
        invariant
            i <= v.len(),
            kept@ == stripped(v@.subrange(0, i as int)),
        decreases v.len() - i,
    {
        proof {
            v@.subrange(0, i as int).lemma_filter_push(v@[i as int], keep());
            assert(v@.subrange(0, i + 1) =~= v@.subrange(0, i as int).push(v@[i as int]));
        }
        if is_allowed(v[i]) {
            kept.push(v[i]);
        }
        i += 1;
    }
    proof {
        assert(v@.subrange(0, v.len() as int) =~= line@);
        lemma_normalized_from_input(line@);
    }
    let (lo, hi) = trim_bounds(&kept, 0, kept.len());
    proof {
        assert(kept@.subrange(0, kept.len() as int) =~= kept@);
    }
    string_of(&kept, lo, hi)
}

/// Stripping leaves allowed characters only.
pub proof fn lemma_stripped_allowed(s: Seq<char>)
    ensures
        all_allowed(stripped(s)),
        stripped(s).len() <= s.len(),
{
    s.lemma_filter_len(keep());
    assert forall|k: int| 0 <= k < stripped(s).len() implies allowed(#[trigger] stripped(s)[k]) by {
        s.lemma_filter_pred(keep(), k);
    }
}

/// Stripping changes nothing in a text of allowed characters.
pub proof fn lemma_stripped_fixed(s: Seq<char>)
    requires
        all_allowed(s),
    ensures
        stripped(s) == s,
    decreases s.len(),
{
    if s.len() == 0 {
        s.lemma_filter_len(keep());
        assert(stripped(s) =~= s);
    } else {
        let front = s.drop_last();
        assert(all_allowed(front)) by {
            assert forall|k: int| 0 <= k < front.len() implies allowed(#[trigger] front[k]) by {
                assert(front[k] == s[k]);
            }
        }
        lemma_stripped_fixed(front);
        front.lemma_filter_push(s.last(), keep());
        assert(front.push(s.last()) =~= s);
    }
}

/// Normalization only deletes: every character of the normal form is allowed
/// and occurs in the line, and the normal form is no longer than the line.
pub proof fn lemma_normalized_from_input(s: Seq<char>)
    ensures
        all_allowed(normalized(s)),
        forall|k: int| 0 <= k < normalized(s).len() ==> s.contains(#[trigger] normalized(s)[k]),
        normalized(s).len() <= s.len(),
{
    let t = stripped(s);
    lemma_stripped_allowed(s);
    lemma_trim_bounds(t);
    assert forall|k: int| 0 <= k < normalized(s).len() implies allowed(#[trigger] normalized(s)[k])
        && s.contains(normalized(s)[k]) by {
        let c = normalized(s)[k];
        assert(c == t[k + trim_lo(t)]);
        assert(t.contains(c));
        s.lemma_filter_contains_rev(keep(), c);
    }
}

/// Normalizing a normal form changes nothing.
pub proof fn lemma_normalize_idempotent(s: Seq<char>)
    ensures
        normalized(normalized(s)) == normalized(s),
{
    lemma_normalized_from_input(s);
    lemma_stripped_fixed(normalized(s));
    lemma_trim_idempotent(stripped(s));
}

} // verus!
