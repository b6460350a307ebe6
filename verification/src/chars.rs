//! Character classes used by the title normalizer.
//!
//! The normalizer works over Unicode scalar values.  ASCII characters are
//! classified exactly by the spec functions below; for characters outside
//! ASCII the classification delegates to the Unicode tables of the standard
//! library through two trusted wrappers.

use vstd::prelude::*;

verus! {

/// An ASCII decimal digit.
pub open spec fn is_digit(c: char) -> bool {
    '0' <= c && c <= '9'
}

/// An ASCII lowercase letter.
pub open spec fn is_ascii_lower(c: char) -> bool {
    'a' <= c && c <= 'z'
}

/// An ASCII uppercase letter.
pub open spec fn is_ascii_upper(c: char) -> bool {
    'A' <= c && c <= 'Z'
}

/// ASCII whitespace, as the `char::is_whitespace` table has it for ASCII.
pub open spec fn is_ascii_space(c: char) -> bool {
    c == ' ' || c == '\t' || c == '\n' || c == '\r' || c == '\x0b' || c == '\x0c'
}

pub open spec fn is_ascii_char(c: char) -> bool {
    c as u32 <= 127
}

/// Name for the `char::is_alphanumeric` table outside ASCII: a fixed table,
/// a function of the character alone.
pub uninterp spec fn unicode_alnum_ext(c: char) -> bool;

/// Name for the `char::is_whitespace` table outside ASCII: a fixed table,
/// a function of the character alone.
pub uninterp spec fn unicode_space_ext(c: char) -> bool;

/// Alphanumeric in the standard library's sense: on ASCII exactly the letters
/// and digits, outside ASCII the Unicode table.
pub open spec fn char_alnum(c: char) -> bool {
    if is_ascii_char(c) {
        is_ascii_lower(c) || is_ascii_upper(c) || is_digit(c)
    } else {
        unicode_alnum_ext(c)
    }
}

/// Whitespace in the standard library's sense: on ASCII exactly the six
/// ASCII whitespace characters, outside ASCII the Unicode table.
pub open spec fn char_space(c: char) -> bool {
    if is_ascii_char(c) {
        is_ascii_space(c)
    } else {
        unicode_space_ext(c)
    }
}

/// Relies on `char::is_alphanumeric`: the Unicode `Alphabetic` property plus
/// the numeric general categories, a fixed per-character table whose ASCII
/// part holds exactly the letters and digits.
#[verifier::external_body]
pub(crate) fn char_is_alphanumeric(c: char) -> (r: bool)
    ensures
        r == char_alnum(c),
        !is_ascii_char(c) ==> r == unicode_alnum_ext(c),
{
    c.is_alphanumeric()
}

/// Relies on `char::is_whitespace`: the Unicode `White_Space` property, a
/// fixed per-character table whose ASCII part holds exactly space, tab, line
/// feed, carriage return, vertical tab and form feed.
#[verifier::external_body]
pub(crate) fn char_is_whitespace(c: char) -> (r: bool)
    ensures
        r == char_space(c),
        !is_ascii_char(c) ==> r == unicode_space_ext(c),
{
    c.is_whitespace()
}

/// A "word" character: what the normalizer keeps when stripping punctuation
/// (letters, digits, and the underscore).
pub open spec fn is_word_char(c: char) -> bool {
    char_alnum(c) || c == '_'
}

/// A whitespace character in the normalizer's sense.
pub open spec fn is_space_char(c: char) -> bool {
    char_space(c)
}

pub open spec fn ascii_lower_char(c: char) -> char {
    if is_ascii_upper(c) {
        (c as u8 + 32) as char
    } else {
        c
    }
}

/// The per-character ASCII lowercase map, lifted to sequences.
pub open spec fn ascii_lower_seq(s: Seq<char>) -> Seq<char> {
    s.map_values(|c: char| ascii_lower_char(c))
}

pub open spec fn all_ascii(s: Seq<char>) -> bool {
    forall|i: int| 0 <= i < s.len() ==> is_ascii_char(#[trigger] s[i])
}

pub fn exec_is_digit(c: char) -> (r: bool)
    ensures
        r == is_digit(c),
{
    '0' <= c && c <= '9'
}

pub fn exec_is_word_char(c: char) -> (r: bool)
    ensures
        r == is_word_char(c),
{
    char_is_alphanumeric(c) || c == '_'
}

pub fn exec_is_space_char(c: char) -> (r: bool)
    ensures
        r == is_space_char(c),
{
    char_is_whitespace(c)
}

} // verus!
