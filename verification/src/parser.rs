//! The executable grammar engine and tree-to-value transform: recursive
//! descent over the input characters, one function per grammar state, each
//! proved to return exactly what the grammar's reading functions say.

use vstd::prelude::*;
use crate::Dialect;
use crate::chars::{
    is_ws_char, is_digit_char, ws_char, digit_char, hex_char, ident_start_char, ident_part_char,
    chars_to_string,
};
use crate::diag::{ParseError, line_col, line_of, col_of};
use crate::grammar::{
    Expected, ws_end, digits_end, ident_parts_end, string_body_end, number_end, lit_at, key_at,
    value_at, value_ws_at, object_body_at, colon_value_at, object_tail_at, array_body_at,
    array_tail_at, parse_doc,
};
use crate::value::{Value, Json, json_of, json_of_pairs, json_of_elems, lemma_json_of_pairs,
    lemma_json_of_elems};
use vstd::std_specs::iter::IteratorSpec;

verus! {

broadcast use vstd::string::axiom_spec_iter, vstd::string::next_postcondition;

/// The parse outcome the engine owes for `s` in dialect `d`: success with
/// the value whose abstraction the grammar assigns to the document, or the
/// grammar's diagnostic carried over into a [`ParseError`].
pub open spec fn parse_result_ok(r: Result<Value, ParseError>, s: Seq<char>, d: Dialect) -> bool {
    match r {
        Ok(v) => parse_doc(s, d) == Ok::<Json, (int, Expected)>(json_of(v)),
        Err(e) => {
            &&& parse_doc(s, d) matches Err((p, x)) && e.pos as int == p && e.expected == x
            &&& e.line as int == line_of(s, e.pos as int)
            &&& e.col as int == col_of(s, e.pos as int)
        },
    }
}

/// The executable outcome of a value state agrees with the grammar's reading.
pub open spec fn val_matches(
    r: Result<(Value, usize), (usize, Expected)>,
    sp: Result<(Json, int), (int, Expected)>,
) -> bool {
    match (r, sp) {
        (Ok((v, e)), Ok((sv, se))) => json_of(v) == sv && e as int == se,
        (Err((p, x)), Err((sp2, sx))) => p as int == sp2 && x == sx,
        _ => false,
    }
}

/// The executable outcome of an object state agrees with the grammar's reading.
pub open spec fn pairs_matches(
    r: Result<(Vec<(String, Value)>, usize), (usize, Expected)>,
    sp: Result<(Seq<(Seq<char>, Json)>, int), (int, Expected)>,
) -> bool {
    match (r, sp) {
        (Ok((ps, e)), Ok((sps, se))) => json_of_pairs(ps@) == sps && e as int == se,
        (Err((p, x)), Err((sp2, sx))) => p as int == sp2 && x == sx,
        _ => false,
    }
}

/// The executable outcome of an array state agrees with the grammar's reading.
pub open spec fn elems_matches(
    r: Result<(Vec<Value>, usize), (usize, Expected)>,
    sp: Result<(Seq<Json>, int), (int, Expected)>,
) -> bool {
    match (r, sp) {
        (Ok((es, e)), Ok((ses, se))) => json_of_elems(es@) == ses && e as int == se,
        (Err((p, x)), Err((sp2, sx))) => p as int == sp2 && x == sx,
        _ => false,
    }
}

/// Skips whitespace from `i` on.
pub(crate) fn skip_ws(s: &Vec<char>, i: usize) -> (r: usize)
    requires
        i <= s@.len(),
    ensures
        r as int == ws_end(s@, i as int),
        i <= r <= s@.len(),
{
    let mut j = i;
    while j < s.len() && ws_char(s[j])
        invariant
            i <= j <= s@.len(),
            ws_end(s@, i as int) == ws_end(s@, j as int),
        decreases s@.len() - j,
    {
        j += 1;
    }
    j
}

/// Skips digits from `i` on.
pub(crate) fn scan_digits(s: &Vec<char>, i: usize) -> (r: usize)
    requires
        i <= s@.len(),
    ensures
        r as int == digits_end(s@, i as int),
        i <= r <= s@.len(),
        i < s@.len() && is_digit_char(s@[i as int]) ==> r > i,
{
    let mut j = i;
    while j < s.len() && digit_char(s[j])
        invariant
            i <= j <= s@.len(),
            digits_end(s@, i as int) == digits_end(s@, j as int),
        decreases s@.len() - j,
    {
        j += 1;
    }
    j
}

/// Scans identifier characters and `\uXXXX` escapes from `i` on.
pub(crate) fn scan_ident_parts(s: &Vec<char>, i: usize) -> (r: usize)
    requires
        i <= s@.len(),
    ensures
        r as int == ident_parts_end(s@, i as int),
        i <= r <= s@.len(),
{
    let mut j = i;
    loop
        invariant
            i <= j <= s@.len(),
            ident_parts_end(s@, i as int) == ident_parts_end(s@, j as int),
        ensures
            i <= j <= s@.len(),
            ident_parts_end(s@, i as int) == j as int,
        decreases s@.len() - j,
    {
        if j < s.len() && ident_part_char(s[j]) {
            j += 1;
        } else if s.len() - j >= 6 && s[j] == '\\' && s[j + 1] == 'u' && hex_char(s[j + 2])
            && hex_char(s[j + 3]) && hex_char(s[j + 4]) && hex_char(s[j + 5]) {
            j += 6;
        } else {
            break ;
        }
    }
    j
}

/// Scans the inside of a quoted string up to the closing quote `q`.
pub(crate) fn scan_string_body(s: &Vec<char>, i: usize, q: char) -> (r: Result<
    usize,
    (usize, Expected),
>)
    requires
        i <= s@.len(),
    ensures
        match (r, string_body_end(s@, i as int, q)) {
            (Ok(e), Ok(se)) => e as int == se && i <= e < s@.len() && s@[e as int] == q,
            (Err((p, x)), Err((sp, sx))) => p as int == sp && x == sx && p <= s@.len(),
            _ => false,
        },
{
    let mut j = i;
    loop
        invariant
            i <= j <= s@.len(),
            string_body_end(s@, i as int, q) == string_body_end(s@, j as int, q),
        decreases s@.len() - j,
    {
        if j >= s.len() {
            return Err((j, Expected::StringChar));
        }
        let c = s[j];
        if c == q {
            return Ok(j);
        }
        if c == '\\' {
            if j + 1 >= s.len() {
                return Err((j + 1, Expected::EscapeChar));
            }
            if s[j + 1] == 'u' {
                if j + 2 >= s.len() || !hex_char(s[j + 2]) {
                    return Err((j + 2, Expected::HexDigit));
                }
                if j + 3 >= s.len() || !hex_char(s[j + 3]) {
                    return Err((j + 3, Expected::HexDigit));
                }
                if j + 4 >= s.len() || !hex_char(s[j + 4]) {
                    return Err((j + 4, Expected::HexDigit));
                }
                if j + 5 >= s.len() || !hex_char(s[j + 5]) {
                    return Err((j + 5, Expected::HexDigit));
                }
                j += 6;
            } else {
                j += 2;
            }
        } else {
            j += 1;
        }
    }
}

/// Scans a number from `i` on.
pub(crate) fn p_number(s: &Vec<char>, i: usize) -> (r: Result<usize, (usize, Expected)>)
    requires
        i <= s@.len(),
    ensures
        match (r, number_end(s@, i as int)) {
            (Ok(e), Ok(se)) => e as int == se && i < e <= s@.len(),
            (Err((p, x)), Err((sp, sx))) => p as int == sp && x == sx && p <= s@.len(),
            _ => false,
        },
{
    let p = if i < s.len() && s[i] == '-' {
        i + 1
    } else {
        i
    };
    if !(p < s.len() && digit_char(s[p])) {
        return Err((p, Expected::Digit));
    }
    let q = scan_digits(s, p);
    let q2 = if q < s.len() && s[q] == '.' && q + 1 < s.len() && digit_char(s[q + 1]) {
        scan_digits(s, q + 1)
    } else {
        q
    };
    let q3 = if q2 < s.len() && (s[q2] == 'e' || s[q2] == 'E') {
        let r0 = if q2 + 1 < s.len() && (s[q2 + 1] == '+' || s[q2 + 1] == '-') {
            q2 + 2
        } else {
            q2 + 1
        };
        if r0 < s.len() && digit_char(s[r0]) {
            scan_digits(s, r0)
        } else {
            q2
        }
    } else {
        q2
    };
    Ok(q3)
}

/// The keyword `abcd` stands at `i`.
pub(crate) fn lit4(s: &Vec<char>, i: usize, a: char, b: char, c: char, d: char) -> (r: bool)
    requires
        i <= s@.len(),
    ensures
        r == lit_at(s@, i as int, seq![a, b, c, d]),
{
    let hit = s.len() - i >= 4 && s[i] == a && s[i + 1] == b && s[i + 2] == c && s[i + 3] == d;
    proof {
        if hit {
            assert(s@.subrange(i as int, i + 4) =~= seq![a, b, c, d]);
        } else if lit_at(s@, i as int, seq![a, b, c, d]) {
            assert(s@.subrange(i as int, i + 4)[0] == s@[i as int]);
            assert(s@.subrange(i as int, i + 4)[1] == s@[i + 1]);
            assert(s@.subrange(i as int, i + 4)[2] == s@[i + 2]);
            assert(s@.subrange(i as int, i + 4)[3] == s@[i + 3]);
        }
    }
    hit
}

/// The keyword `abcde` stands at `i`.
pub(crate) fn lit5(s: &Vec<char>, i: usize, a: char, b: char, c: char, d: char, e: char) -> (r:
    bool)
    requires
        i <= s@.len(),
    ensures
        r == lit_at(s@, i as int, seq![a, b, c, d, e]),
{
    let hit = s.len() - i >= 5 && s[i] == a && s[i + 1] == b && s[i + 2] == c && s[i + 3] == d
        && s[i + 4] == e;
    proof {
        if hit {
            assert(s@.subrange(i as int, i + 5) =~= seq![a, b, c, d, e]);
        } else if lit_at(s@, i as int, seq![a, b, c, d, e]) {
            assert(s@.subrange(i as int, i + 5)[0] == s@[i as int]);
            assert(s@.subrange(i as int, i + 5)[1] == s@[i + 1]);
            assert(s@.subrange(i as int, i + 5)[2] == s@[i + 2]);
            assert(s@.subrange(i as int, i + 5)[3] == s@[i + 3]);
            assert(s@.subrange(i as int, i + 5)[4] == s@[i + 4]);
        }
    }
    hit
}

/// A pair key: a quoted string or an identifier.
pub(crate) fn p_key(s: &Vec<char>, i: usize, d: Dialect) -> (r: Result<
    (String, usize),
    (usize, Expected),
>)
    requires
        i <= s@.len(),
    ensures
        match (r, key_at(s@, i as int, d)) {
            (Ok((k, e)), Ok((sk, se))) => k@ == sk && e as int == se && i < e <= s@.len(),
            (Err((p, x)), Err((sp, sx))) => p as int == sp && x == sx && p <= s@.len(),
            _ => false,
        },
{
    if i < s.len() && s[i] == '"' {
        match scan_string_body(s, i + 1, '"') {
            Ok(e) => {
                let k = chars_to_string(s, i + 1, e);
                Ok((k, e + 1))
            },
            Err(er) => Err(er),
        }
    } else if d == Dialect::Jsonish && i < s.len() && s[i] == '\'' {
        match scan_string_body(s, i + 1, '\'') {
            Ok(e) => {
                let k = chars_to_string(s, i + 1, e);
                Ok((k, e + 1))
            },
            Err(er) => Err(er),
        }
    } else if i < s.len() && ident_start_char(s[i]) {
        let e = scan_ident_parts(s, i + 1);
        Ok((chars_to_string(s, i, e), e))
    } else if s.len() - i >= 6 && s[i] == '\\' && s[i + 1] == 'u' && hex_char(s[i + 2])
        && hex_char(s[i + 3]) && hex_char(s[i + 4]) && hex_char(s[i + 5]) {
        let e = scan_ident_parts(s, i + 6);
        Ok((chars_to_string(s, i, e), e))
    } else {
        Err((i, Expected::KeyOrCloseBrace))
    }
}

/// A value, dispatched on its first character.
pub(crate) fn p_value(s: &Vec<char>, i: usize, d: Dialect) -> (r: Result<
    (Value, usize),
    (usize, Expected),
>)
    requires
        i <= s@.len(),
    ensures
        val_matches(r, value_at(s@, i as int, d)),
        r matches Ok((_, e)) ==> i < e <= s@.len(),
        r matches Err((p, _)) ==> p <= s@.len(),
    decreases s@.len() - i, 0int,
{
    if i >= s.len() {
        return Err((i, Expected::Value));
    }
    let c = s[i];
    if c == '{' {
        match p_object_body(s, i + 1, d) {
            Ok((ps, e)) => Ok((Value::Object(ps), e)),
            Err(er) => Err(er),
        }
    } else if c == '[' {
        match p_array_body(s, i + 1, d) {
            Ok((es, e)) => Ok((Value::Array(es), e)),
            Err(er) => Err(er),
        }
    } else if c == '"' {
        match scan_string_body(s, i + 1, '"') {
            Ok(e) => {
                let t = chars_to_string(s, i + 1, e);
                Ok((Value::Str(t), e + 1))
            },
            Err(er) => Err(er),
        }
    } else if d == Dialect::Jsonish && c == '\'' {
        match scan_string_body(s, i + 1, '\'') {
            Ok(e) => {
                let t = chars_to_string(s, i + 1, e);
                Ok((Value::Str(t), e + 1))
            },
            Err(er) => Err(er),
        }
    } else if c == '-' || digit_char(c) {
        match p_number(s, i) {
            Ok(e) => {
                let t = chars_to_string(s, i, e);
                Ok((Value::Number(t), e))
            },
            Err(er) => Err(er),
        }
    } else if lit4(s, i, 't', 'r', 'u', 'e') {
        Ok((Value::Boolean(true), i + 4))
    } else if lit5(s, i, 'f', 'a', 'l', 's', 'e') {
        Ok((Value::Boolean(false), i + 5))
    } else if lit4(s, i, 'n', 'u', 'l', 'l') {
        Ok((Value::Null, i + 4))
    } else {
        Err((i, Expected::Value))
    }
}

/// Inside an object, after the opening brace or a comma.
pub(crate) fn p_object_body(s: &Vec<char>, i: usize, d: Dialect) -> (r: Result<
    (Vec<(String, Value)>, usize),
    (usize, Expected),
>)
    requires
        i <= s@.len(),
    ensures
        pairs_matches(r, object_body_at(s@, i as int, d)),
        r matches Ok((_, e)) ==> i < e <= s@.len(),
        r matches Err((p, _)) ==> p <= s@.len(),
    decreases s@.len() - i, 1int,
{
    let mut j = i;
    while j < s.len() && ws_char(s[j])
        invariant
            i <= j <= s@.len(),
            object_body_at(s@, i as int, d) == object_body_at(s@, j as int, d),
        decreases s@.len() - j,
    {
        j += 1;
    }
    if j < s.len() && s[j] == '}' {
        proof {
            assert(json_of_pairs(Seq::<(String, Value)>::empty()) == Seq::<(Seq<char>, Json)>::empty());
        }
        return Ok((Vec::new(), j + 1));
    }
    match p_key(s, j, d) {
        Err(er) => Err(er),
        Ok((k, jk)) => {
            match p_colon_value(s, jk, d) {
                Err(er) => Err(er),
                Ok((v, j2)) => {
                    match p_object_tail(s, j2, d) {
                        Err(er) => Err(er),
                        Ok((rest, e)) => {
                            let mut rest = rest;
                            let ghost gk = k@;
                            let ghost gv = json_of(v);
                            let ghost grestseq = rest@;
                            let ghost grest = json_of_pairs(rest@);
                            let mut out: Vec<(String, Value)> = Vec::new();
                            out.push((k, v));
                            out.append(&mut rest);
                            proof {
                                lemma_json_of_pairs(out@);
                                lemma_json_of_pairs(grestseq);
                                assert(json_of_pairs(out@) =~= seq![(gk, gv)] + grest);
                            }
                            Ok((out, e))
                        },
                    }
                },
            }
        },
    }
}

/// After a pair's key: a colon, then the pair's value.
pub(crate) fn p_colon_value(s: &Vec<char>, i: usize, d: Dialect) -> (r: Result<
    (Value, usize),
    (usize, Expected),
>)
    requires
        i <= s@.len(),
    ensures
        val_matches(r, colon_value_at(s@, i as int, d)),
        r matches Ok((_, e)) ==> i < e <= s@.len(),
        r matches Err((p, _)) ==> p <= s@.len(),
    decreases s@.len() - i, 1int,
{
    let mut j = i;
    while j < s.len() && ws_char(s[j])
        invariant
            i <= j <= s@.len(),
            colon_value_at(s@, i as int, d) == colon_value_at(s@, j as int, d),
        decreases s@.len() - j,
    {
        j += 1;
    }
    if j < s.len() && s[j] == ':' {
        let mut jv = j + 1;
        while jv < s.len() && ws_char(s[jv])
            invariant
                j + 1 <= jv <= s@.len(),
                value_ws_at(s@, (j + 1) as int, d) == value_ws_at(s@, jv as int, d),
            decreases s@.len() - jv,
        {
            jv += 1;
        }
        p_value(s, jv, d)
    } else {
        Err((j, Expected::Colon))
    }
}

/// After an object pair: a closing brace, or a comma and the rest.
pub(crate) fn p_object_tail(s: &Vec<char>, i: usize, d: Dialect) -> (r: Result<
    (Vec<(String, Value)>, usize),
    (usize, Expected),
>)
    requires
        i <= s@.len(),
    ensures
        pairs_matches(r, object_tail_at(s@, i as int, d)),
        r matches Ok((_, e)) ==> i < e <= s@.len(),
        r matches Err((p, _)) ==> p <= s@.len(),
    decreases s@.len() - i, 2int,
{
    let mut j = i;
    while j < s.len() && ws_char(s[j])
        invariant
            i <= j <= s@.len(),
            object_tail_at(s@, i as int, d) == object_tail_at(s@, j as int, d),
        decreases s@.len() - j,
    {
        j += 1;
    }
    if j < s.len() && s[j] == '}' {
        proof {
            assert(json_of_pairs(Seq::<(String, Value)>::empty()) == Seq::<(Seq<char>, Json)>::empty());
        }
        Ok((Vec::new(), j + 1))
    } else if j < s.len() && s[j] == ',' {
        p_object_body(s, j + 1, d)
    } else {
        Err((j, Expected::CommaOrCloseBrace))
    }
}

/// Inside an array, after the opening bracket or a comma.
pub(crate) fn p_array_body(s: &Vec<char>, i: usize, d: Dialect) -> (r: Result<
    (Vec<Value>, usize),
    (usize, Expected),
>)
    requires
        i <= s@.len(),
    ensures
        elems_matches(r, array_body_at(s@, i as int, d)),
        r matches Ok((_, e)) ==> i < e <= s@.len(),
        r matches Err((p, _)) ==> p <= s@.len(),
    decreases s@.len() - i, 1int,
{
    let mut j = i;
    while j < s.len() && ws_char(s[j])
        invariant
            i <= j <= s@.len(),
            array_body_at(s@, i as int, d) == array_body_at(s@, j as int, d),
        decreases s@.len() - j,
    {
        j += 1;
    }
    if j < s.len() && s[j] == ']' {
        proof {
            assert(json_of_elems(Seq::<Value>::empty()) == Seq::<Json>::empty());
        }
        return Ok((Vec::new(), j + 1));
    }
    match p_value(s, j, d) {
        Err((p, er)) => Err(
            (
                p,
                if p == j {
                    Expected::ValueOrCloseBracket
                } else {
                    er
                },
            ),
        ),
        Ok((v, jv)) => {
            match p_array_tail(s, jv, d) {
                Err(er) => Err(er),
                Ok((rest, e)) => {
                    let mut rest = rest;
                    let ghost gv = json_of(v);
                    let ghost grestseq = rest@;
                    let ghost grest = json_of_elems(rest@);
                    let mut out: Vec<Value> = Vec::new();
                    out.push(v);
                    out.append(&mut rest);
                    proof {
                        lemma_json_of_elems(out@);
                        lemma_json_of_elems(grestseq);
                        assert(json_of_elems(out@) =~= seq![gv] + grest);
                    }
                    Ok((out, e))
                },
            }
        },
    }
}

/// After an array element: a closing bracket, or a comma and the rest.
pub(crate) fn p_array_tail(s: &Vec<char>, i: usize, d: Dialect) -> (r: Result<
    (Vec<Value>, usize),
    (usize, Expected),
>)
    requires
        i <= s@.len(),
    ensures
        elems_matches(r, array_tail_at(s@, i as int, d)),
        r matches Ok((_, e)) ==> i < e <= s@.len(),
        r matches Err((p, _)) ==> p <= s@.len(),
    decreases s@.len() - i, 2int,
{
    let mut j = i;
    while j < s.len() && ws_char(s[j])
        invariant
            i <= j <= s@.len(),
            array_tail_at(s@, i as int, d) == array_tail_at(s@, j as int, d),
        decreases s@.len() - j,
    {
        j += 1;
    }
    if j < s.len() && s[j] == ']' {
        proof {
            assert(json_of_elems(Seq::<Value>::empty()) == Seq::<Json>::empty());
        }
        Ok((Vec::new(), j + 1))
    } else if j < s.len() && s[j] == ',' {
        p_array_body(s, j + 1, d)
    } else {
        Err((j, Expected::CommaOrCloseBracket))
    }
}

/// The characters of `text`, in order.
pub(crate) fn chars_of(text: &str) -> (v: Vec<char>)
    ensures
        v@ == text@,
{
    let mut v: Vec<char> = Vec::new();
    let mut it = text.chars();
    proof {
        assert(v@ + it.remaining() =~= text@);
    }
    loop
        invariant
            text@ == v@ + it.remaining(),
            it.decrease() is Some,
        ensures
            text@ == v@,
        decreases it.decrease()->0,
    {
        let ghost pre = it.remaining();
        match it.next() {
            Some(c) => {
                v.push(c);
                proof {
                    assert(v@ + it.remaining() =~= text@);
                }
            },
            None => {
                proof {
                    assert(text@ =~= v@);
                }
                break ;
            },
        }
    }
    v
}

/// Parses a whole document in the given dialect: leading and trailing
/// whitespace around one value, and nothing else. Succeeds if and only if
/// the grammar matches the whole text, and then returns the value the
/// tree-to-value transform assigns to it; fails otherwise, with the
/// position where matching stopped and what was admissible there.
pub fn parse(text: &str, dialect: Dialect) -> (r: Result<Value, ParseError>)
    ensures
        parse_result_ok(r, text@, dialect),
{
    let v = chars_of(text);
    let mut jv: usize = 0;
    while jv < v.len() && ws_char(v[jv])
        invariant
            0 <= jv <= v@.len(),
            v@ == text@,
            value_ws_at(v@, 0, dialect) == value_ws_at(v@, jv as int, dialect),
        decreases v@.len() - jv,
    {
        jv += 1;
    }
    match p_value(&v, jv, dialect) {
        Err((p, x)) => {
            let (line, col) = line_col(&v, p);
            Err(ParseError { pos: p, line, col, expected: x })
        },
        Ok((val, e)) => {
            let t = skip_ws(&v, e);
            if t == v.len() {
                Ok(val)
            } else {
                let (line, col) = line_col(&v, t);
                Err(ParseError { pos: t, line, col, expected: Expected::EndOfInput })
            }
        },
    }
}

/// Parses text in the ESON dialect: identifier or double-quoted keys,
/// double-quoted strings, trailing commas allowed.
pub fn parse_eson_file(contents: &str) -> (r: Result<Value, ParseError>)
    ensures
        parse_result_ok(r, contents@, Dialect::Eson),
{
    parse(contents, Dialect::Eson)
}

/// Parses text in the JSONish dialect: additionally accepts single-quoted
/// strings as keys and as values.
pub fn parse_jsonish_file(contents: &str) -> (r: Result<Value, ParseError>)
    ensures
        parse_result_ok(r, contents@, Dialect::Jsonish),
{
    parse(contents, Dialect::Jsonish)
}

} // verus!
