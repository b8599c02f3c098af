//! Character classes of the grammar, and conversions between text forms.

use vstd::prelude::*;

verus! {

/// Insignificant whitespace: spaces, tabs, newlines.
pub open spec fn is_ws_char(c: char) -> bool {
    c == ' ' || c == '\t' || c == '\n' || c == '\r'
}

/// A decimal digit.
pub open spec fn is_digit_char(c: char) -> bool {
    '0' <= c && c <= '9'
}

/// A hexadecimal digit, as accepted inside a unicode escape.
pub open spec fn is_hex_char(c: char) -> bool {
    is_digit_char(c) || ('a' <= c && c <= 'f') || ('A' <= c && c <= 'F')
}

/// A letter, as accepted at the start of an identifier.
pub open spec fn is_letter_char(c: char) -> bool {
    ('a' <= c && c <= 'z') || ('A' <= c && c <= 'Z')
}

/// A character that may start an identifier on its own (the unicode escape
/// form `\uXXXX` is handled separately by the scanner).
pub open spec fn is_ident_start_char(c: char) -> bool {
    is_letter_char(c) || c == '_' || c == '$'
}

/// A character that may continue an identifier.
pub open spec fn is_ident_part_char(c: char) -> bool {
    is_ident_start_char(c) || is_digit_char(c)
}

/// Executable form of [`is_ws_char`].
pub fn ws_char(c: char) -> (b: bool)
    ensures
        b == is_ws_char(c),
{
    c == ' ' || c == '\t' || c == '\n' || c == '\r'
}

/// Executable form of [`is_digit_char`].
pub fn digit_char(c: char) -> (b: bool)
    ensures
        b == is_digit_char(c),
{
    '0' <= c && c <= '9'
}

/// Executable form of [`is_hex_char`].
pub fn hex_char(c: char) -> (b: bool)
    ensures
        b == is_hex_char(c),
{
    digit_char(c) || ('a' <= c && c <= 'f') || ('A' <= c && c <= 'F')
}

/// Executable form of [`is_ident_start_char`].
pub fn ident_start_char(c: char) -> (b: bool)
    ensures
        b == is_ident_start_char(c),
{
    ('a' <= c && c <= 'z') || ('A' <= c && c <= 'Z') || c == '_' || c == '$'
}

/// Executable form of [`is_ident_part_char`].
pub fn ident_part_char(c: char) -> (b: bool)
    ensures
        b == is_ident_part_char(c),
{
    ident_start_char(c) || digit_char(c)
}

/// Relies on `String`'s `FromIterator` impl: collecting the chars of the
/// slice `v[from..to]` yields a string holding exactly those chars.
#[verifier::external_body]
pub(crate) fn chars_to_string(v: &Vec<char>, from: usize, to: usize) -> (r: String)
    requires
        from <= to <= v@.len(),
    ensures
        r@ == v@.subrange(from as int, to as int),
{
    v[from..to].iter().collect()
}

} // verus!
