//! Diagnostic reporting: the grammar-mismatch error, with the offending
//! position, its line and column, and a description of what was expected.

use vstd::prelude::*;
use vstd::string::StringExecFns;
use crate::chars::chars_to_string;
use crate::grammar::Expected;

verus! {

/// Newlines among the first `p` characters.
pub open spec fn newlines_in(s: Seq<char>, p: int) -> int
    decreases p,
{
    if p <= 0 {
        0
    } else {
        newlines_in(s, p - 1) + if s[p - 1] == '\n' {
            1int
        } else {
            0int
        }
    }
}

/// Where the line holding position `p` starts: just after the last newline
/// before `p`, or at the start of the text.
pub open spec fn line_start(s: Seq<char>, p: int) -> int
    decreases p,
{
    if p <= 0 {
        0
    } else if s[p - 1] == '\n' {
        p
    } else {
        line_start(s, p - 1)
    }
}

/// Counts that would not fit a machine word saturate at its largest value.
pub open spec fn cap_usize(n: int) -> int {
    if n > usize::MAX {
        usize::MAX as int
    } else {
        n
    }
}

/// The 1-based line of position `p`.
pub open spec fn line_of(s: Seq<char>, p: int) -> int {
    cap_usize(newlines_in(s, p) + 1)
}

/// The 1-based column of position `p` within its line.
pub open spec fn col_of(s: Seq<char>, p: int) -> int {
    cap_usize(p - line_start(s, p) + 1)
}

/// Computes the line and column of position `p`.
pub(crate) fn line_col(s: &Vec<char>, p: usize) -> (r: (usize, usize))
    requires
        p <= s@.len(),
    ensures
        r.0 as int == line_of(s@, p as int),
        r.1 as int == col_of(s@, p as int),
{
    let mut k: usize = 0;
    let mut nl: usize = 0;
    let mut start: usize = 0;
    while k < p
        invariant
            0 <= k <= p <= s@.len(),
            nl as int == newlines_in(s@, k as int),
            start as int == line_start(s@, k as int),
            nl <= k,
            start <= k,
        decreases p - k,
    {
        if s[k] == '\n' {
            nl = nl + 1;
            start = k + 1;
        }
        k += 1;
    }
    let line = if nl < usize::MAX {
        nl + 1
    } else {
        usize::MAX
    };
    let c0 = p - start;
    let col = if c0 < usize::MAX {
        c0 + 1
    } else {
        usize::MAX
    };
    (line, col)
}

/// The decimal digit character for `n`, which must lie below ten.
pub open spec fn digit_text(n: int) -> char {
    ((48 + n) as u8) as char
}

/// The decimal text of a nonnegative count.
pub open spec fn dec_digits(n: int) -> Seq<char>
    decreases n,
{
    if n < 10 {
        seq![digit_text(n)]
    } else {
        dec_digits(n / 10).push(digit_text(n % 10))
    }
}

/// Appends the decimal text of `n`.
pub(crate) fn push_dec(n: u64, out: &mut Vec<char>)
    ensures
        final(out)@ == old(out)@ + dec_digits(n as int),
    decreases n,
{
    if n < 10 {
        let d = (n as u8) + 48;
        out.push(d as char);
    } else {
        push_dec(n / 10, out);
        let d = ((n % 10) as u8) + 48;
        out.push(d as char);
        proof {
            assert(out@ =~= old(out)@ + dec_digits(n as int));
        }
    }
}

/// The decimal text of `n`, as a string.
pub fn dec_string(n: u64) -> (r: String)
    ensures
        r@ == dec_digits(n as int),
{
    let mut v: Vec<char> = Vec::new();
    push_dec(n, &mut v);
    let len = v.len();
    let r = chars_to_string(&v, 0, len);
    proof {
        assert(v@.subrange(0, v@.len() as int) =~= v@);
        assert(Seq::<char>::empty() + dec_digits(n as int) =~= dec_digits(n as int));
    }
    r
}

/// A word for the set of rule alternatives a failure was prepared to accept.
pub open spec fn expected_text(x: Expected) -> Seq<char> {
    match x {
        Expected::Value => "a value"@,
        Expected::KeyOrCloseBrace => "a key or '}'"@,
        Expected::CommaOrCloseBrace => "',' or '}'"@,
        Expected::ValueOrCloseBracket => "a value or ']'"@,
        Expected::CommaOrCloseBracket => "',' or ']'"@,
        Expected::Colon => "':'"@,
        Expected::Digit => "a digit"@,
        Expected::StringChar => "a string character or a closing quote"@,
        Expected::EscapeChar => "an escaped character"@,
        Expected::HexDigit => "a hex digit"@,
        Expected::EndOfInput => "end of input"@,
    }
}

/// Executable form of [`expected_text`].
pub fn expected_str(x: Expected) -> (r: &'static str)
    ensures
        r@ == expected_text(x),
{
    match x {
        Expected::Value => "a value",
        Expected::KeyOrCloseBrace => "a key or '}'",
        Expected::CommaOrCloseBrace => "',' or '}'",
        Expected::ValueOrCloseBracket => "a value or ']'",
        Expected::CommaOrCloseBracket => "',' or ']'",
        Expected::Colon => "':'",
        Expected::Digit => "a digit",
        Expected::StringChar => "a string character or a closing quote",
        Expected::EscapeChar => "an escaped character",
        Expected::HexDigit => "a hex digit",
        Expected::EndOfInput => "end of input",
    }
}

/// A grammar-mismatch diagnostic: where matching stopped, and what the
/// engine was prepared to accept there.
#[derive(Debug, PartialEq, Eq, Structural)]
pub struct ParseError {
    /// Character offset of the furthest-progress failure.
    pub pos: usize,
    /// 1-based line of the failure.
    pub line: usize,
    /// 1-based column of the failure.
    pub col: usize,
    /// The set of rule alternatives attempted at the failure.
    pub expected: Expected,
}

/// The descriptive text of a diagnostic.
pub open spec fn message_text(e: ParseError) -> Seq<char> {
    "expected "@ + expected_text(e.expected) + " at line "@ + dec_digits(e.line as int)
        + ", column "@ + dec_digits(e.col as int)
}

impl ParseError {
    /// One line describing the failure, usable directly as program output.
    pub fn message(&self) -> (r: String)
        ensures
            r@ == message_text(*self),
    {
        let mut m = String::new();
        m.append("expected ");
        m.append(expected_str(self.expected));
        m.append(" at line ");
        let l = dec_string(self.line as u64);
        m.append(l.as_str());
        m.append(", column ");
        let c = dec_string(self.col as u64);
        m.append(c.as_str());
        m
    }
}

} // verus!
