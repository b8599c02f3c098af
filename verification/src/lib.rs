//! A relaxed-JSON dialect parser and canonical serializer.
//!
//! The engine accepts text in an ECMAScript-object-literal-flavored superset
//! of JSON (unquoted identifier keys, alternate string quoting, trailing
//! commas) and produces a normalized value tree, which it can re-emit as
//! compact, strict JSON text. Two dialects share the engine: the stricter
//! ESON form, and the looser JSONish form that also accepts single-quoted
//! strings.

use vstd::prelude::*;

pub mod chars;
pub mod cli;
pub mod diag;
pub mod grammar;
pub mod laws;
pub mod parser;
pub mod serialize;
pub mod value;

pub use crate::diag::ParseError;
pub use crate::parser::{parse, parse_eson_file, parse_jsonish_file};
pub use crate::serialize::serialize_jsonvalue;
pub use crate::value::Value;

verus! {

/// Which relaxed-JSON dialect the grammar engine recognizes.
#[derive(Clone, Copy, Debug, PartialEq, Eq, Structural)]
pub enum Dialect {
    /// Identifier or double-quoted keys; double-quoted strings only.
    Eson,
    /// Additionally accepts single-quoted strings as keys and values.
    Jsonish,
}

/// The engine's outer interface: parse `text` in the given dialect and
/// re-emit the value as one line of canonical JSON text, or report the
/// grammar mismatch. Exactly one of the two comes back; a failure yields no
/// partial output.
pub fn parse_and_serialize(text: &str, dialect: Dialect) -> (r: Result<String, ParseError>)
    ensures
        match r {
            Ok(out) => crate::grammar::parse_doc(text@, dialect) matches Ok(j) && out@
                == crate::serialize::ser(j),
            Err(e) => {
                &&& crate::grammar::parse_doc(text@, dialect) matches Err((p, x)) && e.pos as int
                    == p && e.expected == x
                &&& e.line as int == crate::diag::line_of(text@, e.pos as int)
                &&& e.col as int == crate::diag::col_of(text@, e.pos as int)
            },
        },
{
    match parse(text, dialect) {
        Ok(v) => Ok(serialize_jsonvalue(&v)),
        Err(e) => Err(e),
    }
}

} // verus!
