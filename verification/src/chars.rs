//! Character classification used by word motion and undo coalescing.
use vstd::prelude::*;

verus! {

/// Whether `char::is_whitespace` holds of `c` (Unicode `White_Space`).
/// The result depends on the character alone.
pub uninterp spec fn char_whitespace(c: char) -> bool;

/// Whether `char::is_alphanumeric` holds of `c` (Unicode `Alphabetic`
/// or a numeric category). The result depends on the character alone.
pub uninterp spec fn char_alphanumeric(c: char) -> bool;

/// Relies on char::is_whitespace: true exactly on Unicode whitespace.
#[verifier::external_body]
pub fn is_whitespace_char(c: char) -> (r: bool)
    ensures
        r == char_whitespace(c),
{
    c.is_whitespace()
}

/// Relies on char::is_alphanumeric: true exactly on Unicode alphanumerics.
#[verifier::external_body]
pub fn is_alphanumeric_char(c: char) -> (r: bool)
    ensures
        r == char_alphanumeric(c),
{
    c.is_alphanumeric()
}

/// ASCII punctuation, as `char::is_ascii_punctuation` defines it:
/// `!..=/`, `:..=@`, `[..=\``, and `{..=~`.
pub open spec fn spec_ascii_punctuation(c: char) -> bool {
    (33 <= c as u32 && c as u32 <= 47) || (58 <= c as u32 && c as u32 <= 64) || (91 <= c as u32
        && c as u32 <= 96) || (123 <= c as u32 && c as u32 <= 126)
}

pub fn is_ascii_punctuation_char(c: char) -> (r: bool)
    ensures
        r == spec_ascii_punctuation(c),
{
    let u = c as u32;
    (33 <= u && u <= 47) || (58 <= u && u <= 64) || (91 <= u && u <= 96) || (123 <= u && u <= 126)
}

/// An ASCII letter or digit.
pub open spec fn spec_ascii_alnum(c: char) -> bool {
    ('a' <= c && c <= 'z') || ('A' <= c && c <= 'Z') || ('0' <= c && c <= '9')
}

pub fn is_ascii_alnum_char(c: char) -> (r: bool)
    ensures
        r == spec_ascii_alnum(c),
{
    ('a' <= c && c <= 'z') || ('A' <= c && c <= 'Z') || ('0' <= c && c <= '9')
}

/// A character that ends an undo coalescing run: whitespace or ASCII
/// punctuation.
pub open spec fn spec_word_boundary(c: char) -> bool {
    char_whitespace(c) || spec_ascii_punctuation(c)
}

pub fn is_word_boundary_char(c: char) -> (r: bool)
    ensures
        r == spec_word_boundary(c),
{
    is_whitespace_char(c) || is_ascii_punctuation_char(c)
}

/// A word constituent for word motion: alphanumeric or underscore.
pub open spec fn spec_word_char(c: char) -> bool {
    char_alphanumeric(c) || c == '_'
}

pub fn is_word_char(c: char) -> (r: bool)
    ensures
        r == spec_word_char(c),
{
    is_alphanumeric_char(c) || c == '_'
}

/// A control character: `U+0000..=U+001F` or `U+007F..=U+009F`, as
/// `char::is_control` defines it.
pub open spec fn spec_control(c: char) -> bool {
    c as u32 <= 31 || (127 <= c as u32 && c as u32 <= 159)
}

pub fn is_control_char(c: char) -> (r: bool)
    ensures
        r == spec_control(c),
{
    let u = c as u32;
    u <= 31 || (127 <= u && u <= 159)
}

/// The one-character string holding `c`.
/// Relies on char::to_string: a string of exactly that character.
#[verifier::external_body]
pub fn char_to_string(c: char) -> (s: String)
    ensures
        s@ == seq![c],
{
    c.to_string()
}

/// ASCII lowercasing of a letter: `'A'..='Z'` maps down by 32, everything
/// else is unchanged, as `char::to_ascii_lowercase` documents.
pub open spec fn spec_ascii_lower(c: char) -> char {
    if 'A' <= c && c <= 'Z' {
        ((c as u8) + 32) as char
    } else {
        c
    }
}

pub fn to_ascii_lowercase_char(c: char) -> (r: char)
    ensures
        r == spec_ascii_lower(c),
{
    if 'A' <= c && c <= 'Z' {
        ((c as u8) + 32) as char
    } else {
        c
    }
}

} // verus!
