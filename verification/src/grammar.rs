//! The grammar engine's meaning: a deterministic, ordered-choice reading of
//! the relaxed-JSON dialects, written as recursive functions over the input
//! text. The executable parser is specified against these functions.
//!
//! Every function takes the whole input and a position, and either yields
//! the recognized content with the position just past it, or the position at
//! which matching stopped together with what was admissible there. Each
//! state checks a position it was handed against the text's length before
//! reading on; those checks also carry the termination argument, since a
//! state only ever moves forward through the text.

use vstd::prelude::*;
use crate::Dialect;
use crate::chars::{is_ws_char, is_digit_char, is_hex_char, is_ident_start_char, is_ident_part_char};
use crate::value::Json;

verus! {

/// What the grammar engine was prepared to accept at the position where it
/// stopped: each variant names the set of rule alternatives attempted there.
#[derive(Clone, Copy, Debug, PartialEq, Eq, Structural)]
pub enum Expected {
    /// An object, array, string, number, boolean or null.
    Value,
    /// A pair key (a quoted string or an identifier) or a closing brace.
    KeyOrCloseBrace,
    /// A comma or a closing brace, after an object pair.
    CommaOrCloseBrace,
    /// A value or a closing bracket, inside an array.
    ValueOrCloseBracket,
    /// A comma or a closing bracket, after an array element.
    CommaOrCloseBracket,
    /// The colon of a pair.
    Colon,
    /// A decimal digit, inside a number.
    Digit,
    /// A character, an escape sequence, or the closing quote of a string.
    StringChar,
    /// A character following a backslash.
    EscapeChar,
    /// A hexadecimal digit, inside a unicode escape.
    HexDigit,
    /// The end of the input, after the document's value.
    EndOfInput,
}

/// The first position at or after `i` that does not hold whitespace.
pub open spec fn ws_end(s: Seq<char>, i: int) -> int
    decreases s.len() - i,
{
    if i < s.len() && is_ws_char(s[i]) {
        ws_end(s, i + 1)
    } else {
        i
    }
}

/// The first position at or after `i` that does not hold a digit.
pub open spec fn digits_end(s: Seq<char>, i: int) -> int
    decreases s.len() - i,
{
    if i < s.len() && is_digit_char(s[i]) {
        digits_end(s, i + 1)
    } else {
        i
    }
}

/// Where the identifier whose start lies before `i` ends: identifier
/// characters and `\uXXXX` escapes extend it.
pub open spec fn ident_parts_end(s: Seq<char>, i: int) -> int
    decreases s.len() - i,
{
    if i < s.len() && is_ident_part_char(s[i]) {
        ident_parts_end(s, i + 1)
    } else if unicode_escape_at(s, i) {
        ident_parts_end(s, i + 6)
    } else {
        i
    }
}

/// A `\uXXXX` escape sequence starts at `i`.
pub open spec fn unicode_escape_at(s: Seq<char>, i: int) -> bool {
    &&& i >= 0
    &&& i + 6 <= s.len()
    &&& s[i] == '\\'
    &&& s[i + 1] == 'u'
    &&& is_hex_char(s[i + 2])
    &&& is_hex_char(s[i + 3])
    &&& is_hex_char(s[i + 4])
    &&& is_hex_char(s[i + 5])
}

/// Scans the inside of a quoted string from `i` to the closing quote `q` and
/// yields the closing quote's position. Characters other than the quote and
/// the backslash stand for themselves; a backslash escapes `u` plus four hex
/// digits, or any single character.
pub open spec fn string_body_end(s: Seq<char>, i: int, q: char) -> Result<int, (int, Expected)>
    decreases s.len() - i,
{
    if i >= s.len() {
        Err((i, Expected::StringChar))
    } else if s[i] == q {
        Ok(i)
    } else if s[i] == '\\' {
        if i + 1 >= s.len() {
            Err((i + 1, Expected::EscapeChar))
        } else if s[i + 1] == 'u' {
            if i + 2 >= s.len() || !is_hex_char(s[i + 2]) {
                Err((i + 2, Expected::HexDigit))
            } else if i + 3 >= s.len() || !is_hex_char(s[i + 3]) {
                Err((i + 3, Expected::HexDigit))
            } else if i + 4 >= s.len() || !is_hex_char(s[i + 4]) {
                Err((i + 4, Expected::HexDigit))
            } else if i + 5 >= s.len() || !is_hex_char(s[i + 5]) {
                Err((i + 5, Expected::HexDigit))
            } else {
                string_body_end(s, i + 6, q)
            }
        } else {
            string_body_end(s, i + 2, q)
        }
    } else {
        string_body_end(s, i + 1, q)
    }
}

/// Where the number starting at `i` ends: an optional minus sign, digits,
/// then an optional fraction and an optional exponent, each taken only when
/// complete, as ordered-choice matching takes an optional group.
pub open spec fn number_end(s: Seq<char>, i: int) -> Result<int, (int, Expected)> {
    let p = if i < s.len() && s[i] == '-' {
        i + 1
    } else {
        i
    };
    if !(p < s.len() && is_digit_char(s[p])) {
        Err((p, Expected::Digit))
    } else {
        let q = digits_end(s, p);
        let q2 = if q < s.len() && s[q] == '.' && q + 1 < s.len() && is_digit_char(s[q + 1]) {
            digits_end(s, q + 1)
        } else {
            q
        };
        let q3 = if q2 < s.len() && (s[q2] == 'e' || s[q2] == 'E') {
            let r = if q2 + 1 < s.len() && (s[q2 + 1] == '+' || s[q2 + 1] == '-') {
                q2 + 2
            } else {
                q2 + 1
            };
            if r < s.len() && is_digit_char(s[r]) {
                digits_end(s, r)
            } else {
                q2
            }
        } else {
            q2
        };
        Ok(q3)
    }
}

/// The keyword `w` stands at `i`.
pub open spec fn lit_at(s: Seq<char>, i: int, w: Seq<char>) -> bool {
    i >= 0 && i + w.len() <= s.len() && s.subrange(i, i + w.len()) == w
}

/// A pair key at `i`: a double-quoted string, in the JSONish dialect also a
/// single-quoted string, or an identifier. A quoted key yields the literal
/// text between the quotes; an identifier yields its text verbatim.
pub open spec fn key_at(s: Seq<char>, i: int, d: Dialect) -> Result<
    (Seq<char>, int),
    (int, Expected),
> {
    if i < s.len() && s[i] == '"' {
        match string_body_end(s, i + 1, '"') {
            Ok(e) => Ok((s.subrange(i + 1, e), e + 1)),
            Err(er) => Err(er),
        }
    } else if d == Dialect::Jsonish && i < s.len() && s[i] == '\'' {
        match string_body_end(s, i + 1, '\'') {
            Ok(e) => Ok((s.subrange(i + 1, e), e + 1)),
            Err(er) => Err(er),
        }
    } else if i < s.len() && is_ident_start_char(s[i]) {
        Ok((s.subrange(i, ident_parts_end(s, i + 1)), ident_parts_end(s, i + 1)))
    } else if unicode_escape_at(s, i) {
        Ok((s.subrange(i, ident_parts_end(s, i + 6)), ident_parts_end(s, i + 6)))
    } else {
        Err((i, Expected::KeyOrCloseBrace))
    }
}

/// A value at `i` (no leading whitespace): ordered choice among object,
/// array, string, number, boolean and null, decided by the first character.
pub open spec fn value_at(s: Seq<char>, i: int, d: Dialect) -> Result<
    (Json, int),
    (int, Expected),
>
    decreases s.len() - i, 0int,
{
    if i >= s.len() || i < 0 {
        Err((i, Expected::Value))
    } else if s[i] == '{' {
        match object_body_at(s, i + 1, d) {
            Ok((pairs, e)) => Ok((Json::Object(pairs), e)),
            Err(er) => Err(er),
        }
    } else if s[i] == '[' {
        match array_body_at(s, i + 1, d) {
            Ok((elems, e)) => Ok((Json::Array(elems), e)),
            Err(er) => Err(er),
        }
    } else if s[i] == '"' {
        match string_body_end(s, i + 1, '"') {
            Ok(e) => Ok((Json::Str(s.subrange(i + 1, e)), e + 1)),
            Err(er) => Err(er),
        }
    } else if d == Dialect::Jsonish && s[i] == '\'' {
        match string_body_end(s, i + 1, '\'') {
            Ok(e) => Ok((Json::Str(s.subrange(i + 1, e)), e + 1)),
            Err(er) => Err(er),
        }
    } else if s[i] == '-' || is_digit_char(s[i]) {
        match number_end(s, i) {
            Ok(e) => Ok((Json::Number(s.subrange(i, e)), e)),
            Err(er) => Err(er),
        }
    } else if lit_at(s, i, seq!['t', 'r', 'u', 'e']) {
        Ok((Json::Boolean(true), i + 4))
    } else if lit_at(s, i, seq!['f', 'a', 'l', 's', 'e']) {
        Ok((Json::Boolean(false), i + 5))
    } else if lit_at(s, i, seq!['n', 'u', 'l', 'l']) {
        Ok((Json::Null, i + 4))
    } else {
        Err((i, Expected::Value))
    }
}

/// Whitespace, then a value.
pub open spec fn value_ws_at(s: Seq<char>, i: int, d: Dialect) -> Result<
    (Json, int),
    (int, Expected),
>
    decreases s.len() - i, 1int,
{
    if i < s.len() && is_ws_char(s[i]) {
        value_ws_at(s, i + 1, d)
    } else {
        value_at(s, i, d)
    }
}

/// Inside an object, after the opening brace or a comma: whitespace, then a
/// closing brace or a pair followed by the rest of the object. Yields the
/// pairs from here on and the position past the closing brace.
pub open spec fn object_body_at(s: Seq<char>, i: int, d: Dialect) -> Result<
    (Seq<(Seq<char>, Json)>, int),
    (int, Expected),
>
    decreases s.len() - i, 0int,
{
    if i < s.len() && is_ws_char(s[i]) {
        object_body_at(s, i + 1, d)
    } else if i < s.len() && s[i] == '}' {
        Ok((seq![], i + 1))
    } else {
        match key_at(s, i, d) {
            Err(er) => Err(er),
            Ok((k, j)) => if i < j <= s.len() {
                match colon_value_at(s, j, d) {
                    Err(er) => Err(er),
                    Ok((v, j2)) => if j < j2 <= s.len() {
                        match object_tail_at(s, j2, d) {
                            Err(er) => Err(er),
                            Ok((rest, e)) => Ok((seq![(k, v)] + rest, e)),
                        }
                    } else {
                        Err((j2, Expected::CommaOrCloseBrace))
                    },
                }
            } else {
                Err((j, Expected::Colon))
            },
        }
    }
}

/// After a pair's key: whitespace, a colon, then the pair's value.
pub open spec fn colon_value_at(s: Seq<char>, i: int, d: Dialect) -> Result<
    (Json, int),
    (int, Expected),
>
    decreases s.len() - i, 0int,
{
    if i < s.len() && is_ws_char(s[i]) {
        colon_value_at(s, i + 1, d)
    } else if i < s.len() && s[i] == ':' {
        value_ws_at(s, i + 1, d)
    } else {
        Err((i, Expected::Colon))
    }
}

/// After an object pair: whitespace, then a closing brace, or a comma and
/// the rest of the object (which may close at once: a trailing comma).
pub open spec fn object_tail_at(s: Seq<char>, i: int, d: Dialect) -> Result<
    (Seq<(Seq<char>, Json)>, int),
    (int, Expected),
>
    decreases s.len() - i, 0int,
{
    if i < s.len() && is_ws_char(s[i]) {
        object_tail_at(s, i + 1, d)
    } else if i < s.len() && s[i] == '}' {
        Ok((seq![], i + 1))
    } else if i < s.len() && s[i] == ',' {
        object_body_at(s, i + 1, d)
    } else {
        Err((i, Expected::CommaOrCloseBrace))
    }
}

/// Inside an array, after the opening bracket or a comma: whitespace, then a
/// closing bracket or an element followed by the rest of the array.
pub open spec fn array_body_at(s: Seq<char>, i: int, d: Dialect) -> Result<
    (Seq<Json>, int),
    (int, Expected),
>
    decreases s.len() - i, 1int,
{
    if i < s.len() && is_ws_char(s[i]) {
        array_body_at(s, i + 1, d)
    } else if i < s.len() && s[i] == ']' {
        Ok((seq![], i + 1))
    } else {
        match value_at(s, i, d) {
            Err((p, er)) => Err(
                (
                    p,
                    if p == i {
                        Expected::ValueOrCloseBracket
                    } else {
                        er
                    },
                ),
            ),
            Ok((v, j)) => if i < j <= s.len() {
                match array_tail_at(s, j, d) {
                    Err(er) => Err(er),
                    Ok((rest, e)) => Ok((seq![v] + rest, e)),
                }
            } else {
                Err((j, Expected::CommaOrCloseBracket))
            },
        }
    }
}

/// After an array element: whitespace, then a closing bracket, or a comma
/// and the rest of the array (which may close at once: a trailing comma).
pub open spec fn array_tail_at(s: Seq<char>, i: int, d: Dialect) -> Result<
    (Seq<Json>, int),
    (int, Expected),
>
    decreases s.len() - i, 0int,
{
    if i < s.len() && is_ws_char(s[i]) {
        array_tail_at(s, i + 1, d)
    } else if i < s.len() && s[i] == ']' {
        Ok((seq![], i + 1))
    } else if i < s.len() && s[i] == ',' {
        array_body_at(s, i + 1, d)
    } else {
        Err((i, Expected::CommaOrCloseBracket))
    }
}

/// The whole document: whitespace, one value, whitespace, end of input.
pub open spec fn parse_doc(s: Seq<char>, d: Dialect) -> Result<Json, (int, Expected)> {
    match value_ws_at(s, 0, d) {
        Err(er) => Err(er),
        Ok((v, j)) => if 0 <= j <= s.len() {
            if ws_end(s, j) == s.len() {
                Ok(v)
            } else {
                Err((ws_end(s, j), Expected::EndOfInput))
            }
        } else {
            Err((j, Expected::EndOfInput))
        },
    }
}

} // verus!
