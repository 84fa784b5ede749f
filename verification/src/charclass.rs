//! Character classes of the segmentation heuristic.
//!
//! Letters and digits are the ASCII ones. Whitespace is every character that
//! Unicode classes as `White_Space`, so that trimming and token splitting
//! agree with the standard library on every string.

use vstd::prelude::*;

verus! {

/// An ASCII letter.
pub open spec fn letter(c: char) -> bool {
    ('a' <= c && c <= 'z') || ('A' <= c && c <= 'Z')
}

/// An ASCII uppercase letter.
pub open spec fn upper(c: char) -> bool {
    'A' <= c && c <= 'Z'
}

/// An ASCII decimal digit.
pub open spec fn digit(c: char) -> bool {
    '0' <= c && c <= '9'
}

/// A character that Unicode classes as `White_Space`.
pub open spec fn space(c: char) -> bool {
    ||| ('\u{9}' <= c && c <= '\u{d}')
    ||| c == ' '
    ||| c == '\u{85}'
    ||| c == '\u{a0}'
    ||| c == '\u{1680}'
    ||| ('\u{2000}' <= c && c <= '\u{200a}')
    ||| c == '\u{2028}'
    ||| c == '\u{2029}'
    ||| c == '\u{202f}'
    ||| c == '\u{205f}'
    ||| c == '\u{3000}'
}

/// A character that normalization keeps: a letter, a digit, whitespace, or
/// one of `.`, `!`, `?`.
pub open spec fn allowed(c: char) -> bool {
    letter(c) || digit(c) || space(c) || c == '.' || c == '!' || c == '?'
}

/// Whether `c` is an ASCII letter.
pub fn is_letter(c: char) -> (b: bool)
    ensures
        b == letter(c),
{
    ('a' <= c && c <= 'z') || ('A' <= c && c <= 'Z')
}

/// Whether `c` is an ASCII uppercase letter.
pub fn is_upper(c: char) -> (b: bool)
    ensures
        b == upper(c),
{
    'A' <= c && c <= 'Z'
}

/// Whether `c` is an ASCII decimal digit.
pub fn is_digit(c: char) -> (b: bool)
    ensures
        b == digit(c),
{
    '0' <= c && c <= '9'
}

/// Whether `c` is whitespace.
pub fn is_space(c: char) -> (b: bool)
    ensures
        b == space(c),
{
    ('\u{9}' <= c && c <= '\u{d}') || c == ' ' || c == '\u{85}' || c == '\u{a0}' || c == '\u{1680}'
        || ('\u{2000}' <= c && c <= '\u{200a}') || c == '\u{2028}' || c == '\u{2029}' || c
        == '\u{202f}' || c == '\u{205f}' || c == '\u{3000}'
}

/// Whether normalization keeps `c`.
pub fn is_allowed(c: char) -> (b: bool)
    ensures
        b == allowed(c),
{
    is_letter(c) || is_digit(c) || is_space(c) || c == '.' || c == '!' || c == '?'
}

} // verus!
