//! What makes a stretch of text a sentence worth keeping.

use vstd::prelude::*;
use crate::charclass::{digit, space};
use crate::text::{
    chars_of, count_tokens, lemma_no_space_one_token, token_count, trim, trim_bounds,
};

verus! {

/// The end of the run of digits that starts at `i`.
pub open spec fn digit_run(s: Seq<char>, i: int) -> int
    decreases s.len() - i,
{
    if 0 <= i < s.len() && digit(s[i]) {
        digit_run(s, i + 1)
    } else {
        i
    }
}

/// A plus or minus sign.
pub open spec fn is_sign(c: char) -> bool {
    c == '+' || c == '-'
}

/// `c` is the given letter, in either case.
pub open spec fn either_case(c: char, lower: char, capital: char) -> bool {
    c == lower || c == capital
}

/// `s[i..]` is an exponent: `e`, an optional sign, one or more digits.
pub open spec fn is_exponent(s: Seq<char>, i: int) -> bool {
    let d = if i + 1 < s.len() && is_sign(s[i + 1]) {
        i + 2
    } else {
        i + 1
    };
    &&& 0 <= i < s.len()
    &&& either_case(s[i], 'e', 'E')
    &&& d < s.len()
    &&& digit_run(s, d) == s.len()
}

/// `s` is a decimal number: digits with at most one point among them, at
/// least one digit in all, and an optional exponent.
pub open spec fn is_decimal_number(s: Seq<char>) -> bool {
    let a = digit_run(s, 0);
    let point = a < s.len() && s[a] == '.';
    let b = if point {
        digit_run(s, a + 1)
    } else {
        a
    };
    &&& a > 0 || (point && b > a + 1)
    &&& b == s.len() || is_exponent(s, b)
}

/// `s` is `inf`, `infinity` or `nan`, in any mix of cases.
pub open spec fn is_special_number(s: Seq<char>) -> bool {
    ||| (s.len() == 3 && either_case(s[0], 'i', 'I') && either_case(s[1], 'n', 'N') && either_case(
        s[2],
        'f',
        'F',
    ))
    ||| (s.len() == 3 && either_case(s[0], 'n', 'N') && either_case(s[1], 'a', 'A') && either_case(
        s[2],
        'n',
        'N',
    ))
    ||| (s.len() == 8 && either_case(s[0], 'i', 'I') && either_case(s[1], 'n', 'N') && either_case(
        s[2],
        'f',
        'F',
    ) && either_case(s[3], 'i', 'I') && either_case(s[4], 'n', 'N') && either_case(s[5], 'i', 'I')
        && either_case(s[6], 't', 'T') && either_case(s[7], 'y', 'Y'))
}

/// `s` reads as a single number: an optional sign, then a decimal number or
/// one of the special values.
pub open spec fn numeric_literal(s: Seq<char>) -> bool {
    let body = if s.len() > 0 && is_sign(s[0]) {
        s.subrange(1, s.len() as int)
    } else {
        s
    };
    is_special_number(body) || is_decimal_number(body)
}

/// A sentence worth keeping: trimmed, it has ten characters or more, three
/// tokens or more, and does not read as a single number.
pub open spec fn valid_sentence(s: Seq<char>) -> bool {
    let t = trim(s);
    &&& t.len() >= 10
    &&& token_count(t) >= 3
    &&& !numeric_literal(t)
}

/// A run of digits ends in the text and holds digits only.
pub proof fn lemma_digit_run(s: Seq<char>, i: int)
    requires
        0 <= i <= s.len(),
    ensures
        i <= digit_run(s, i) <= s.len(),
        forall|k: int| i <= k < digit_run(s, i) ==> digit(#[trigger] s[k]),
    decreases s.len() - i,
{
    if i < s.len() && digit(s[i]) {
        lemma_digit_run(s, i + 1);
    }
}

/// No decimal number holds whitespace.
proof fn lemma_decimal_number_no_space(s: Seq<char>)
    requires
        is_decimal_number(s),
    ensures
        forall|k: int| 0 <= k < s.len() ==> !space(#[trigger] s[k]),
{
    let a = digit_run(s, 0);
    lemma_digit_run(s, 0);
    let point = a < s.len() && s[a] == '.';
    let b = if point {
        digit_run(s, a + 1)
    } else {
        a
    };
    if point {
        lemma_digit_run(s, a + 1);
    }
    if b < s.len() {
        let d = if b + 1 < s.len() && is_sign(s[b + 1]) {
            b + 2
        } else {
            b + 1
        };
        lemma_digit_run(s, d);
    }
    assert forall|k: int| 0 <= k < s.len() implies !space(#[trigger] s[k]) by {
        if k < a {
            assert(digit(s[k]));
        } else if point && a < k < b {
            assert(digit(s[k]));
        } else if k > b + 1 {
            assert(digit(s[k]));
        } else if k == b + 1 {
            assert(is_sign(s[k]) || digit(s[k]));
        }
    }
}

/// No text that reads as a single number holds whitespace.
pub proof fn lemma_numeric_literal_no_space(s: Seq<char>)
    requires
        numeric_literal(s),
    ensures
        forall|k: int| 0 <= k < s.len() ==> !space(#[trigger] s[k]),
{
    let signed = s.len() > 0 && is_sign(s[0]);
    let body = if signed {
        s.subrange(1, s.len() as int)
    } else {
        s
    };
    if is_decimal_number(body) {
        lemma_decimal_number_no_space(body);
    }
    assert forall|k: int| 0 <= k < s.len() implies !space(#[trigger] s[k]) by {
        if signed {
            if k > 0 {
                assert(s[k] == body[k - 1]);
                assert(!space(body[k - 1]));
            }
        } else {
            assert(!space(body[k]));
        }
    }
}

/// A text of two tokens or more does not read as a single number.
pub proof fn lemma_tokens_exclude_number(s: Seq<char>)
    requires
        token_count(s) >= 2,
    ensures
        !numeric_literal(s),
{
    if numeric_literal(s) {
        lemma_numeric_literal_no_space(s);
        lemma_no_space_one_token(s, s.len() as int);
    }
}

/// Whether `v[from..to]` is a sentence worth keeping.
pub fn valid_range(v: &Vec<char>, from: usize, to: usize) -> (b: bool)
    requires
        from <= to <= v.len(),
    ensures
        b == valid_sentence(v@.subrange(from as int, to as int)),
{
    let (lo, hi) = trim_bounds(v, from, to);
    let tokens = count_tokens(v, lo, hi);
    proof {
        if tokens >= 2 {
            lemma_tokens_exclude_number(v@.subrange(lo as int, hi as int));
        }
    }
    tokens >= 3 && hi - lo >= 10
}

/// Whether `sentence` is worth keeping: trimmed, it has ten characters or
/// more, three whitespace-separated tokens or more, and is not a single
/// number. A text of three tokens holds whitespace and no number does, so
/// the first two tests decide.
pub fn is_valid_sentence(sentence: &str) -> (b: bool)
    ensures
        b == valid_sentence(sentence@),
{
    let v = chars_of(sentence);
    let ok = valid_range(&v, 0, v.len());
    proof {
        assert(v@.subrange(0, v.len() as int) =~= sentence@);
    }
    ok
}

} // verus!
