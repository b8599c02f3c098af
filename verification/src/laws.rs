//! Proved properties tying the serializer to the grammar engine.
//!
//! The central laws: every tree the ESON dialect reads — from any valid
//! strict-JSON text among others — is in strict form, and a strict-form
//! tree serializes to a document that parses back, in either dialect, to
//! exactly the same tree. Together: parsing, serializing and parsing again
//! loses nothing of the logical structure, keeps every pair in its order,
//! and needs no dialect sugar.

use vstd::prelude::*;
use crate::Dialect;
use crate::chars::{is_ws_char, is_digit_char, is_hex_char, is_ident_start_char, is_ident_part_char};
use crate::grammar::{
    Expected, digits_end, ident_parts_end, unicode_escape_at, string_body_end, number_end, lit_at,
    key_at, value_at,
    value_ws_at, object_body_at, colon_value_at, object_tail_at, array_body_at, array_tail_at, ws_end,
    parse_doc,
};
use crate::value::Json;
use crate::serialize::{ser, ser_pairs, ser_pair, ser_elems};

verus! {

/// `t` stands in `s` at position `i`.
pub open spec fn seg_at(s: Seq<char>, i: int, t: Seq<char>) -> bool {
    0 <= i && i + t.len() <= s.len() && s.subrange(i, i + t.len()) == t
}

proof fn lemma_seg_index(s: Seq<char>, i: int, t: Seq<char>, k: int)
    requires
        seg_at(s, i, t),
        0 <= k < t.len(),
    ensures
        s[i + k] == t[k],
{
    assert(s.subrange(i, i + t.len())[k] == t[k]);
}

proof fn lemma_seg_split(s: Seq<char>, i: int, a: Seq<char>, b: Seq<char>)
    requires
        seg_at(s, i, a + b),
    ensures
        seg_at(s, i, a),
        seg_at(s, i + a.len(), b),
{
    let t = a + b;
    assert forall|k: int| 0 <= k < a.len() implies s[i + k] == a[k] by {
        lemma_seg_index(s, i, t, k);
    }
    assert(s.subrange(i, i + a.len()) =~= a);
    assert forall|k: int| 0 <= k < b.len() implies s[i + a.len() + k] == b[k] by {
        lemma_seg_index(s, i, t, a.len() + k);
    }
    assert(s.subrange(i + a.len(), i + a.len() + b.len()) =~= b);
}

/// Stored string text in strict form: scanning it as the inside of a
/// double-quoted string consumes all of it without meeting the quote.
pub open spec fn body_ok(t: Seq<char>) -> bool
    decreases t.len(),
{
    if t.len() == 0 {
        true
    } else if t[0] == '"' {
        false
    } else if t[0] == '\\' {
        if t.len() < 2 {
            false
        } else if t[1] == 'u' {
            t.len() >= 6 && is_hex_char(t[2]) && is_hex_char(t[3]) && is_hex_char(t[4])
                && is_hex_char(t[5]) && body_ok(t.skip(6))
        } else {
            body_ok(t.skip(2))
        }
    } else {
        body_ok(t.skip(1))
    }
}

/// Stored number text in strict form: the number rule consumes all of it.
pub open spec fn is_number_text(t: Seq<char>) -> bool {
    t.len() > 0 && number_end(t, 0) == Ok::<int, (int, Expected)>(t.len() as int)
}

/// A value tree in strict form: every stored string and key re-reads as a
/// double-quoted string body, every number text as a complete number.
pub open spec fn strict_shape(j: Json) -> bool
    decreases j,
{
    match j {
        Json::Object(pairs) => strict_pairs(pairs),
        Json::Array(elems) => strict_elems(elems),
        Json::Str(t) => body_ok(t),
        Json::Number(t) => is_number_text(t),
        Json::Boolean(_) => true,
        Json::Null => true,
    }
}

pub open spec fn strict_pairs(pairs: Seq<(Seq<char>, Json)>) -> bool
    decreases pairs,
{
    if pairs.len() == 0 {
        true
    } else {
        strict_pairs(pairs.drop_last()) && body_ok(pairs.last().0) && strict_shape(pairs.last().1)
    }
}

pub open spec fn strict_elems(elems: Seq<Json>) -> bool
    decreases elems,
{
    if elems.len() == 0 {
        true
    } else {
        strict_elems(elems.drop_last()) && strict_shape(elems.last())
    }
}

/// Strict pairs, pair by pair.
pub proof fn lemma_strict_pairs(pairs: Seq<(Seq<char>, Json)>)
    ensures
        strict_pairs(pairs) == (forall|n: int|
            0 <= n < pairs.len() ==> body_ok((#[trigger] pairs[n]).0) && strict_shape(
                pairs[n].1,
            )),
    decreases pairs.len(),
{
    if pairs.len() > 0 {
        lemma_strict_pairs(pairs.drop_last());
        if forall|n: int|
            0 <= n < pairs.len() ==> body_ok((#[trigger] pairs[n]).0) && strict_shape(
                pairs[n].1,
            ) {
            assert forall|n: int| 0 <= n < pairs.drop_last().len() implies body_ok(
                (#[trigger] pairs.drop_last()[n]).0,
            ) && strict_shape(pairs.drop_last()[n].1) by {
                assert(pairs.drop_last()[n] == pairs[n]);
                assert(body_ok((pairs[n]).0) && strict_shape(pairs[n].1));
            }
            assert(pairs.last() == pairs[pairs.len() - 1]);
            assert(strict_pairs(pairs));
        }
        if strict_pairs(pairs) {
            assert forall|n: int| 0 <= n < pairs.len() implies body_ok(
                (#[trigger] pairs[n]).0,
            ) && strict_shape(pairs[n].1) by {
                if n < pairs.len() - 1 {
                    assert(pairs.drop_last()[n] == pairs[n]);
                } else {
                    assert(pairs.last() == pairs[n]);
                }
            }
        }
    }
}

/// Strict elements, element by element.
pub proof fn lemma_strict_elems(elems: Seq<Json>)
    ensures
        strict_elems(elems) == (forall|n: int|
            0 <= n < elems.len() ==> strict_shape(#[trigger] elems[n])),
    decreases elems.len(),
{
    if elems.len() > 0 {
        lemma_strict_elems(elems.drop_last());
        if forall|n: int| 0 <= n < elems.len() ==> strict_shape(#[trigger] elems[n]) {
            assert forall|n: int| 0 <= n < elems.drop_last().len() implies strict_shape(
                #[trigger] elems.drop_last()[n],
            ) by {
                assert(elems.drop_last()[n] == elems[n]);
                assert(strict_shape(elems[n]));
            }
            assert(elems.last() == elems[elems.len() - 1]);
            assert(strict_elems(elems));
        }
        if strict_elems(elems) {
            assert forall|n: int| 0 <= n < elems.len() implies strict_shape(
                #[trigger] elems[n],
            ) by {
                if n < elems.len() - 1 {
                    assert(elems.drop_last()[n] == elems[n]);
                } else {
                    assert(elems.last() == elems[n]);
                }
            }
        }
    }
}

proof fn lemma_body_embed(s: Seq<char>, i: int, t: Seq<char>)
    requires
        seg_at(s, i, t),
        i + t.len() < s.len(),
        s[i + t.len()] == '"',
        body_ok(t),
    ensures
        string_body_end(s, i, '"') == Ok::<int, (int, Expected)>(i + t.len()),
    decreases t.len(),
{
    if t.len() == 0 {
        assert(s[i] == '"');
    } else {
        lemma_seg_index(s, i, t, 0);
        if t[0] == '\\' {
            lemma_seg_index(s, i, t, 1);
            if t[1] == 'u' {
                lemma_seg_index(s, i, t, 2);
                lemma_seg_index(s, i, t, 3);
                lemma_seg_index(s, i, t, 4);
                lemma_seg_index(s, i, t, 5);
                assert(t =~= t.subrange(0, 6) + t.skip(6));
                lemma_seg_split(s, i, t.subrange(0, 6), t.skip(6));
                lemma_body_embed(s, i + 6, t.skip(6));
            } else {
                assert(t =~= t.subrange(0, 2) + t.skip(2));
                lemma_seg_split(s, i, t.subrange(0, 2), t.skip(2));
                lemma_body_embed(s, i + 2, t.skip(2));
            }
        } else {
            assert(t =~= t.subrange(0, 1) + t.skip(1));
            lemma_seg_split(s, i, t.subrange(0, 1), t.skip(1));
            lemma_body_embed(s, i + 1, t.skip(1));
        }
    }
}

proof fn lemma_digits_end_props(s: Seq<char>, i: int)
    requires
        0 <= i <= s.len(),
    ensures
        i <= digits_end(s, i) <= s.len(),
        forall|k: int| i <= k < digits_end(s, i) ==> is_digit_char(#[trigger] s[k]),
        digits_end(s, i) == s.len() || !is_digit_char(s[digits_end(s, i)]),
    decreases s.len() - i,
{
    if i < s.len() && is_digit_char(s[i]) {
        lemma_digits_end_props(s, i + 1);
    }
}

proof fn lemma_digits_run(s: Seq<char>, i: int, j: int)
    requires
        0 <= i <= j <= s.len(),
        forall|k: int| i <= k < j ==> is_digit_char(#[trigger] s[k]),
        j == s.len() || !is_digit_char(s[j]),
    ensures
        digits_end(s, i) == j,
    decreases j - i,
{
    if i < j {
        lemma_digits_run(s, i + 1, j);
    }
}

#[verifier::rlimit(60)]
proof fn lemma_number_embed(s: Seq<char>, i: int, t: Seq<char>)
    requires
        seg_at(s, i, t),
        is_number_text(t),
        i + t.len() == s.len() || (!is_digit_char(s[i + t.len()]) && s[i + t.len()] != '.' && s[i
            + t.len()] != 'e' && s[i + t.len()] != 'E'),
    ensures
        number_end(s, i) == Ok::<int, (int, Expected)>(i + t.len()),
{
    let n = t.len() as int;
    assert forall|k2: int| i <= k2 < i + n implies s[k2] == t[k2 - i] by {
        lemma_seg_index(s, i, t, k2 - i);
    }
    let pt = if t[0] == '-' {
        1int
    } else {
        0int
    };
    let qt = digits_end(t, pt);
    lemma_digits_end_props(t, pt);
    assert(pt < n && is_digit_char(t[pt]));
    assert forall|k2: int| i + pt <= k2 < i + qt implies is_digit_char(#[trigger] s[k2]) by {
        assert(s[k2] == t[k2 - i]);
    }
    assert(i + qt == s.len() || !is_digit_char(s[i + qt]));
    lemma_digits_run(s, i + pt, i + qt);
    let ct = qt < n && t[qt] == '.' && qt + 1 < n && is_digit_char(t[qt + 1]);
    let cs = i + qt < s.len() && s[i + qt] == '.' && i + qt + 1 < s.len() && is_digit_char(
        s[i + qt + 1],
    );
    assert(cs == ct);
    let q2t = if ct {
        digits_end(t, qt + 1)
    } else {
        qt
    };
    if ct {
        lemma_digits_end_props(t, qt + 1);
        assert forall|k2: int| i + qt + 1 <= k2 < i + q2t implies is_digit_char(
            #[trigger] s[k2],
        ) by {
            assert(s[k2] == t[k2 - i]);
        }
        assert(i + q2t == s.len() || !is_digit_char(s[i + q2t]));
        lemma_digits_run(s, i + qt + 1, i + q2t);
    }
    let et = q2t < n && (t[q2t] == 'e' || t[q2t] == 'E');
    let es_ = i + q2t < s.len() && (s[i + q2t] == 'e' || s[i + q2t] == 'E');
    assert(es_ == et);
    let q3t = if et {
        let rt = if q2t + 1 < n && (t[q2t + 1] == '+' || t[q2t + 1] == '-') {
            q2t + 2
        } else {
            q2t + 1
        };
        if rt < n && is_digit_char(t[rt]) {
            digits_end(t, rt)
        } else {
            q2t
        }
    } else {
        q2t
    };
    assert(q3t == n);
    if et {
        let rt = if q2t + 1 < n && (t[q2t + 1] == '+' || t[q2t + 1] == '-') {
            q2t + 2
        } else {
            q2t + 1
        };
        let rs = if i + q2t + 1 < s.len() && (s[i + q2t + 1] == '+' || s[i + q2t + 1] == '-') {
            i + q2t + 2
        } else {
            i + q2t + 1
        };
        assert(rt < n && is_digit_char(t[rt]));
        assert(rs == i + rt);
        lemma_digits_end_props(t, rt);
        assert forall|k2: int| i + rt <= k2 < i + q3t implies is_digit_char(#[trigger] s[k2]) by {
            assert(s[k2] == t[k2 - i]);
        }
        assert(i + q3t == s.len() || !is_digit_char(s[i + q3t]));
        lemma_digits_run(s, i + rt, i + q3t);
    }
    assert(number_end(s, i) == Ok::<int, (int, Expected)>(i + n));
}

/// The first character of canonical text: never whitespace, never a
/// closing delimiter, never a comma.
proof fn lemma_ser_first(j: Json)
    requires
        strict_shape(j),
    ensures
        ser(j).len() > 0,
        !is_ws_char(ser(j)[0]),
        ser(j)[0] != ']',
        ser(j)[0] != '}',
        ser(j)[0] != ',',
{
    match j {
        Json::Object(pairs) => {
            assert(ser(j)[0] == '{');
        },
        Json::Array(elems) => {
            assert(ser(j)[0] == '[');
        },
        Json::Str(t) => {
            assert(ser(j)[0] == '"');
        },
        Json::Number(t) => {
            assert(ser(j) == t);
            assert(t[0] == '-' || is_digit_char(t[0]));
        },
        Json::Boolean(b) => {
            if b {
                assert(ser(j)[0] == 't');
            } else {
                assert(ser(j)[0] == 'f');
            }
        },
        Json::Null => {
            assert(ser(j)[0] == 'n');
        },
    }
}

/// Head form of `ser_pairs`: the first pair, then a comma and the rest.
proof fn lemma_ser_pairs_head(pairs: Seq<(Seq<char>, Json)>)
    requires
        pairs.len() >= 1,
    ensures
        ser_pairs(pairs) == ser_pair(pairs[0]) + if pairs.len() == 1 {
            Seq::<char>::empty()
        } else {
            seq![','] + ser_pairs(pairs.drop_first())
        },
    decreases pairs.len(),
{
    if pairs.len() == 1 {
        assert(ser_pairs(pairs) == ser_pair(pairs[0]));
        assert(ser_pair(pairs[0]) + Seq::<char>::empty() =~= ser_pair(pairs[0]));
    } else if pairs.len() == 2 {
        let dl = pairs.drop_last();
        assert(dl.len() == 1);
        assert(dl[0] == pairs[0]);
        assert(ser_pairs(dl) == ser_pair(pairs[0]));
        let df = pairs.drop_first();
        assert(df.len() == 1);
        assert(df[0] == pairs[1]);
        assert(ser_pairs(df) == ser_pair(pairs[1]));
        assert(pairs.last() == pairs[1]);
        assert(ser_pairs(dl) + seq![','] + ser_pair(pairs.last()) =~= ser_pair(pairs[0]) + (seq![
            ','
        ] + ser_pairs(df)));
    } else {
        let dl = pairs.drop_last();
        lemma_ser_pairs_head(dl);
        let df = pairs.drop_first();
        assert(dl[0] == pairs[0]);
        assert(dl.drop_first() =~= df.drop_last());
        assert(df.last() == pairs.last());
        assert(ser_pairs(df) == ser_pairs(df.drop_last()) + seq![','] + ser_pair(df.last()));
        assert(ser_pairs(dl) + seq![','] + ser_pair(pairs.last()) =~= ser_pair(pairs[0]) + (seq![
            ','
        ] + ser_pairs(df)));
    }
}

/// Head form of `ser_elems`: the first element, then a comma and the rest.
proof fn lemma_ser_elems_head(elems: Seq<Json>)
    requires
        elems.len() >= 1,
    ensures
        ser_elems(elems) == ser(elems[0]) + if elems.len() == 1 {
            Seq::<char>::empty()
        } else {
            seq![','] + ser_elems(elems.drop_first())
        },
    decreases elems.len(),
{
    if elems.len() == 1 {
        assert(ser_elems(elems) == ser(elems[0]));
        assert(ser(elems[0]) + Seq::<char>::empty() =~= ser(elems[0]));
    } else if elems.len() == 2 {
        let dl = elems.drop_last();
        assert(dl.len() == 1);
        assert(dl[0] == elems[0]);
        let df = elems.drop_first();
        assert(df.len() == 1);
        assert(df[0] == elems[1]);
        assert(elems.last() == elems[1]);
        assert(ser_elems(dl) + seq![','] + ser(elems.last()) =~= ser(elems[0]) + (seq![',']
            + ser_elems(df)));
    } else {
        let dl = elems.drop_last();
        lemma_ser_elems_head(dl);
        let df = elems.drop_first();
        assert(dl[0] == elems[0]);
        assert(dl.drop_first() =~= df.drop_last());
        assert(df.last() == elems.last());
        assert(ser_elems(df) == ser_elems(df.drop_last()) + seq![','] + ser(df.last()));
        assert(ser_elems(dl) + seq![','] + ser(elems.last()) =~= ser(elems[0]) + (seq![',']
            + ser_elems(df)));
    }
}

proof fn lemma_body_extract(s: Seq<char>, i: int, e: int)
    requires
        0 <= i <= s.len(),
        string_body_end(s, i, '"') == Ok::<int, (int, Expected)>(e),
    ensures
        i <= e < s.len(),
        body_ok(s.subrange(i, e)),
    decreases s.len() - i,
{
    let t = s.subrange(i, e);
    if s[i] == '"' {
        assert(t =~= Seq::<char>::empty());
    } else if s[i] == '\\' {
        if s[i + 1] == 'u' {
            lemma_body_extract(s, i + 6, e);
            assert(t.skip(6) =~= s.subrange(i + 6, e));
            assert(body_ok(t.skip(6)));
            assert(t[0] == '\\' && t[1] == 'u');
            assert(is_hex_char(t[2]) && is_hex_char(t[3]) && is_hex_char(t[4]) && is_hex_char(
                t[5],
            ));
        } else {
            lemma_body_extract(s, i + 2, e);
            assert(t.skip(2) =~= s.subrange(i + 2, e));
            assert(t[0] == '\\' && t[1] != 'u');
            assert(body_ok(t));
        }
    } else {
        lemma_body_extract(s, i + 1, e);
        assert(t.skip(1) =~= s.subrange(i + 1, e));
        assert(t[0] != '"' && t[0] != '\\');
        assert(body_ok(t));
    }
}

#[verifier::rlimit(60)]
proof fn lemma_number_extract(s: Seq<char>, i: int, e: int)
    requires
        0 <= i <= s.len(),
        number_end(s, i) == Ok::<int, (int, Expected)>(e),
    ensures
        i < e <= s.len(),
        is_number_text(s.subrange(i, e)),
{
    let p = if i < s.len() && s[i] == '-' {
        i + 1
    } else {
        i
    };
    let q = digits_end(s, p);
    lemma_digits_end_props(s, p);
    let c = q < s.len() && s[q] == '.' && q + 1 < s.len() && is_digit_char(s[q + 1]);
    let q2 = if c {
        digits_end(s, q + 1)
    } else {
        q
    };
    if c {
        lemma_digits_end_props(s, q + 1);
    }
    let ex = q2 < s.len() && (s[q2] == 'e' || s[q2] == 'E');
    let r = if q2 + 1 < s.len() && (s[q2 + 1] == '+' || s[q2 + 1] == '-') {
        q2 + 2
    } else {
        q2 + 1
    };
    if ex && r < s.len() && is_digit_char(s[r]) {
        lemma_digits_end_props(s, r);
    }
    let t = s.subrange(i, e);
    let n = t.len() as int;
    assert forall|k: int| 0 <= k < n implies t[k] == s[i + k] by {}
    // the integer part transfers into the extracted text
    assert(q <= e);
    assert forall|k: int| p - i <= k < q - i implies is_digit_char(#[trigger] t[k]) by {
        assert(t[k] == s[i + k]);
    }
    assert(q - i == n || !is_digit_char(t[q - i]));
    lemma_digits_run(t, p - i, q - i);
    if c {
        assert forall|k: int| q + 1 - i <= k < q2 - i implies is_digit_char(#[trigger] t[k]) by {
            assert(t[k] == s[i + k]);
        }
        assert(q2 - i == n || !is_digit_char(t[q2 - i]));
        lemma_digits_run(t, q + 1 - i, q2 - i);
    }
    if ex && r < s.len() && is_digit_char(s[r]) {
        assert forall|k: int| r - i <= k < e - i implies is_digit_char(#[trigger] t[k]) by {
            assert(t[k] == s[i + k]);
        }
        lemma_digits_run(t, r - i, e - i);
    }
    assert(number_end(t, 0) == Ok::<int, (int, Expected)>(n));
}

proof fn lemma_ident_parts_bounds(s: Seq<char>, i: int)
    requires
        0 <= i <= s.len(),
    ensures
        i <= ident_parts_end(s, i) <= s.len(),
    decreases s.len() - i,
{
    if i < s.len() && is_ident_part_char(s[i]) {
        lemma_ident_parts_bounds(s, i + 1);
    } else if unicode_escape_at(s, i) {
        lemma_ident_parts_bounds(s, i + 6);
    }
}

proof fn lemma_ident_parts_body_ok(s: Seq<char>, i: int, e: int)
    requires
        0 <= i <= s.len(),
        e == ident_parts_end(s, i),
    ensures
        body_ok(s.subrange(i, e)),
    decreases s.len() - i,
{
    lemma_ident_parts_bounds(s, i);
    let t = s.subrange(i, e);
    if i < s.len() && is_ident_part_char(s[i]) {
        lemma_ident_parts_bounds(s, i + 1);
        lemma_ident_parts_body_ok(s, i + 1, e);
        assert(t.skip(1) =~= s.subrange(i + 1, e));
        assert(t[0] == s[i]);
        assert(t[0] != '"' && t[0] != '\\');
        assert(body_ok(t));
    } else if unicode_escape_at(s, i) {
        lemma_ident_parts_bounds(s, i + 6);
        lemma_ident_parts_body_ok(s, i + 6, e);
        assert(t.skip(6) =~= s.subrange(i + 6, e));
        assert(t[0] == '\\' && t[1] == 'u');
        assert(is_hex_char(t[2]) && is_hex_char(t[3]) && is_hex_char(t[4]) && is_hex_char(t[5]));
        assert(body_ok(t));
    } else {
        assert(t =~= Seq::<char>::empty());
    }
}

/// In the ESON dialect every key the grammar accepts is itself in strict
/// form: quoted keys re-read as string bodies, identifier keys hold no
/// quote and only whole escapes.
proof fn lemma_key_strict(s: Seq<char>, i: int)
    requires
        0 <= i <= s.len(),
    ensures
        key_at(s, i, Dialect::Eson) matches Ok((k, e)) ==> i < e <= s.len() && body_ok(k),
{
    if i < s.len() && s[i] == '"' {
        match string_body_end(s, i + 1, '"') {
            Ok(eb) => lemma_body_extract(s, i + 1, eb),
            Err(_) => (),
        }
    } else if i < s.len() && is_ident_start_char(s[i]) {
        lemma_ident_parts_bounds(s, i + 1);
        let e = ident_parts_end(s, i + 1);
        lemma_ident_parts_body_ok(s, i + 1, e);
        let t = s.subrange(i, e);
        assert(t.skip(1) =~= s.subrange(i + 1, e));
        assert(t[0] == s[i]);
        assert(t[0] != '"' && t[0] != '\\');
        assert(body_ok(t));
    } else if unicode_escape_at(s, i) {
        lemma_ident_parts_bounds(s, i + 6);
        let e = ident_parts_end(s, i + 6);
        lemma_ident_parts_body_ok(s, i + 6, e);
        let t = s.subrange(i, e);
        assert(t.skip(6) =~= s.subrange(i + 6, e));
        assert(t[0] == '\\' && t[1] == 'u');
        assert(is_hex_char(t[2]) && is_hex_char(t[3]) && is_hex_char(t[4]) && is_hex_char(t[5]));
        assert(body_ok(t));
    }
}

proof fn lemma_value_strict(s: Seq<char>, i: int)
    requires
        0 <= i <= s.len(),
    ensures
        value_at(s, i, Dialect::Eson) matches Ok((j, e)) ==> i < e <= s.len() && strict_shape(j),
    decreases s.len() - i, 0int,
{
    let d = Dialect::Eson;
    if i < s.len() {
        if s[i] == '{' {
            lemma_object_body_strict(s, i + 1);
        } else if s[i] == '[' {
            lemma_array_body_strict(s, i + 1);
        } else if s[i] == '"' {
            match string_body_end(s, i + 1, '"') {
                Ok(eb) => lemma_body_extract(s, i + 1, eb),
                Err(_) => (),
            }
        } else if s[i] == '-' || is_digit_char(s[i]) {
            match number_end(s, i) {
                Ok(en) => lemma_number_extract(s, i, en),
                Err(_) => (),
            }
        }
    }
}

proof fn lemma_value_ws_strict(s: Seq<char>, i: int)
    requires
        0 <= i <= s.len(),
    ensures
        value_ws_at(s, i, Dialect::Eson) matches Ok((j, e)) ==> i < e <= s.len() && strict_shape(
            j,
        ),
    decreases s.len() - i, 1int,
{
    if i < s.len() && is_ws_char(s[i]) {
        lemma_value_ws_strict(s, i + 1);
    } else {
        lemma_value_strict(s, i);
    }
}

proof fn lemma_colon_value_strict(s: Seq<char>, i: int)
    requires
        0 <= i <= s.len(),
    ensures
        colon_value_at(s, i, Dialect::Eson) matches Ok((j, e)) ==> i < e <= s.len()
            && strict_shape(j),
    decreases s.len() - i, 2int,
{
    if i < s.len() && is_ws_char(s[i]) {
        lemma_colon_value_strict(s, i + 1);
    } else if i < s.len() && s[i] == ':' {
        lemma_value_ws_strict(s, i + 1);
    }
}

proof fn lemma_object_body_strict(s: Seq<char>, i: int)
    requires
        0 <= i <= s.len(),
    ensures
        object_body_at(s, i, Dialect::Eson) matches Ok((pairs, e)) ==> i < e <= s.len()
            && strict_pairs(pairs),
    decreases s.len() - i, 3int,
{
    let d = Dialect::Eson;
    if i < s.len() && is_ws_char(s[i]) {
        lemma_object_body_strict(s, i + 1);
    } else if i < s.len() && s[i] == '}' {
    } else {
        lemma_key_strict(s, i);
        match key_at(s, i, d) {
            Ok((k, jk)) => {
                if i < jk <= s.len() {
                    lemma_colon_value_strict(s, jk);
                    match colon_value_at(s, jk, d) {
                        Ok((v, j2)) => {
                            if jk < j2 <= s.len() {
                                lemma_object_tail_strict(s, j2);
                                match object_tail_at(s, j2, d) {
                                    Ok((rest, e)) => {
                                        lemma_strict_pairs(rest);
                                        lemma_strict_pairs(seq![(k, v)] + rest);
                                        assert forall|n: int|
                                            0 <= n < (seq![(k, v)] + rest).len() implies body_ok(
                                            ((seq![(k, v)] + rest)[n]).0,
                                        ) && strict_shape((seq![(k, v)] + rest)[n].1) by {
                                            if n == 0 {
                                                assert((seq![(k, v)] + rest)[n] == (k, v));
                                            } else {
                                                assert((seq![(k, v)] + rest)[n] == rest[n - 1]);
                                            }
                                        }
                                    },
                                    Err(_) => (),
                                }
                            }
                        },
                        Err(_) => (),
                    }
                }
            },
            Err(_) => (),
        }
    }
}

proof fn lemma_object_tail_strict(s: Seq<char>, i: int)
    requires
        0 <= i <= s.len(),
    ensures
        object_tail_at(s, i, Dialect::Eson) matches Ok((pairs, e)) ==> i < e <= s.len()
            && strict_pairs(pairs),
    decreases s.len() - i, 4int,
{
    if i < s.len() && is_ws_char(s[i]) {
        lemma_object_tail_strict(s, i + 1);
    } else if i < s.len() && s[i] == ',' {
        lemma_object_body_strict(s, i + 1);
    }
}

proof fn lemma_array_body_strict(s: Seq<char>, i: int)
    requires
        0 <= i <= s.len(),
    ensures
        array_body_at(s, i, Dialect::Eson) matches Ok((elems, e)) ==> i < e <= s.len()
            && strict_elems(elems),
    decreases s.len() - i, 1int,
{
    let d = Dialect::Eson;
    if i < s.len() && is_ws_char(s[i]) {
        lemma_array_body_strict(s, i + 1);
    } else if i < s.len() && s[i] == ']' {
    } else {
        lemma_value_strict(s, i);
        match value_at(s, i, d) {
            Ok((v, jv)) => {
                if i < jv <= s.len() {
                    lemma_array_tail_strict(s, jv);
                    match array_tail_at(s, jv, d) {
                        Ok((rest, e)) => {
                            lemma_strict_elems(rest);
                            lemma_strict_elems(seq![v] + rest);
                            assert forall|n: int|
                                0 <= n < (seq![v] + rest).len() implies strict_shape(
                                (seq![v] + rest)[n],
                            ) by {
                                if n == 0 {
                                    assert((seq![v] + rest)[n] == v);
                                } else {
                                    assert((seq![v] + rest)[n] == rest[n - 1]);
                                }
                            }
                        },
                        Err(_) => (),
                    }
                }
            },
            Err(_) => (),
        }
    }
}

proof fn lemma_array_tail_strict(s: Seq<char>, i: int)
    requires
        0 <= i <= s.len(),
    ensures
        array_tail_at(s, i, Dialect::Eson) matches Ok((elems, e)) ==> i < e <= s.len()
            && strict_elems(elems),
    decreases s.len() - i, 2int,
{
    if i < s.len() && is_ws_char(s[i]) {
        lemma_array_tail_strict(s, i + 1);
    } else if i < s.len() && s[i] == ',' {
        lemma_array_body_strict(s, i + 1);
    }
}

/// Whatever the ESON dialect accepts — strict JSON included — it reads
/// into a strict-form tree.
pub proof fn lemma_eson_parse_strict(s: Seq<char>)
    ensures
        parse_doc(s, Dialect::Eson) matches Ok(j) ==> strict_shape(j),
{
    lemma_value_ws_strict(s, 0);
}

/// The full round trip: parse a document the ESON dialect accepts — any
/// valid strict-JSON text among them — serialize the tree, and parsing the
/// canonical text, in either dialect, gives back the same tree: the same
/// pairs in the same order, the same elements, the same stored texts.
pub proof fn lemma_parse_serialize_parse(s: Seq<char>, j: Json, d: Dialect)
    requires
        parse_doc(s, Dialect::Eson) == Ok::<Json, (int, Expected)>(j),
    ensures
        parse_doc(ser(j), d) == Ok::<Json, (int, Expected)>(j),
{
    lemma_eson_parse_strict(s);
    lemma_serialize_parse_round_trip(j, d);
}

/// Canonical text re-reads as the very value it came from, wherever it
/// stands, as long as what follows it is a delimiter or the end.
proof fn lemma_value_rt(s: Seq<char>, i: int, j: Json, d: Dialect)
    requires
        strict_shape(j),
        seg_at(s, i, ser(j)),
        i + ser(j).len() == s.len() || s[i + ser(j).len()] == ',' || s[i + ser(j).len()] == '}'
            || s[i + ser(j).len()] == ']',
    ensures
        value_at(s, i, d) == Ok::<(Json, int), (int, Expected)>((j, i + ser(j).len())),
    decreases j, 1int,
{
    lemma_ser_first(j);
    let w = ser(j);
    lemma_seg_index(s, i, w, 0);
    match j {
        Json::Object(pairs) => {
            assert(decreases_to!(j => j->Object_0));
            assert(w == seq!['{'] + ser_pairs(pairs) + seq!['}']);
            assert(w[0] == '{');
            assert(s[i] == '{');
            assert(seq!['{'] + ser_pairs(pairs) + seq!['}'] =~= seq!['{'] + (ser_pairs(pairs)
                + seq!['}']));
            lemma_seg_split(s, i, seq!['{'], ser_pairs(pairs) + seq!['}']);
            lemma_pairs_rt(s, i + 1, pairs, d);
            assert(value_at(s, i, d) == Ok::<(Json, int), (int, Expected)>(
                (j, i + ser(j).len()),
            ));
        },
        Json::Array(elems) => {
            assert(decreases_to!(j => j->Array_0));
            assert(w == seq!['['] + ser_elems(elems) + seq![']']);
            assert(w[0] == '[');
            assert(seq!['['] + ser_elems(elems) + seq![']'] =~= seq!['['] + (ser_elems(elems)
                + seq![']']));
            lemma_seg_split(s, i, seq!['['], ser_elems(elems) + seq![']']);
            lemma_elems_rt(s, i + 1, elems, d);
            assert(value_at(s, i, d) == Ok::<(Json, int), (int, Expected)>(
                (j, i + ser(j).len()),
            ));
        },
        Json::Str(t) => {
            assert(w == seq!['"'] + t + seq!['"']);
            assert(w[0] == '"');
            assert(seq!['"'] + t + seq!['"'] =~= seq!['"'] + (t + seq!['"']));
            lemma_seg_split(s, i, seq!['"'], t + seq!['"']);
            lemma_seg_split(s, i + 1, t, seq!['"']);
            assert(s[i + 1 + t.len()] == '"') by {
                lemma_seg_index(s, i + 1 + t.len(), seq!['"'], 0);
            }
            lemma_body_embed(s, i + 1, t);
            assert(s.subrange(i + 1, i + 1 + t.len()) == t);
            assert(value_at(s, i, d) == Ok::<(Json, int), (int, Expected)>(
                (j, i + ser(j).len()),
            ));
        },
        Json::Number(t) => {
            assert(w == t);
            assert(t[0] == '-' || is_digit_char(t[0]));
            lemma_number_embed(s, i, t);
            assert(s.subrange(i, i + t.len()) == t);
            assert(value_at(s, i, d) == Ok::<(Json, int), (int, Expected)>(
                (j, i + ser(j).len()),
            ));
        },
        Json::Boolean(b) => {
            if b {
                assert(w =~= seq!['t', 'r', 'u', 'e']);
                assert(lit_at(s, i, seq!['t', 'r', 'u', 'e']));
                assert(value_at(s, i, d) == Ok::<(Json, int), (int, Expected)>((j, i + 4)));
            } else {
                assert(w =~= seq!['f', 'a', 'l', 's', 'e']);
                assert(!lit_at(s, i, seq!['t', 'r', 'u', 'e'])) by {
                    if lit_at(s, i, seq!['t', 'r', 'u', 'e']) {
                        assert(s.subrange(i, i + 4)[0] == s[i]);
                    }
                }
                assert(lit_at(s, i, seq!['f', 'a', 'l', 's', 'e']));
                assert(value_at(s, i, d) == Ok::<(Json, int), (int, Expected)>((j, i + 5)));
            }
        },
        Json::Null => {
            assert(w =~= seq!['n', 'u', 'l', 'l']);
            assert(!lit_at(s, i, seq!['t', 'r', 'u', 'e'])) by {
                if lit_at(s, i, seq!['t', 'r', 'u', 'e']) {
                    assert(s.subrange(i, i + 4)[0] == s[i]);
                }
            }
            assert(!lit_at(s, i, seq!['f', 'a', 'l', 's', 'e'])) by {
                if lit_at(s, i, seq!['f', 'a', 'l', 's', 'e']) {
                    assert(s.subrange(i, i + 5)[0] == s[i]);
                }
            }
            assert(lit_at(s, i, seq!['n', 'u', 'l', 'l']));
            assert(value_at(s, i, d) == Ok::<(Json, int), (int, Expected)>((j, i + 4)));
        },
    }
}

/// The pairs' canonical text followed by a closing brace re-reads as those
/// very pairs, in order.
proof fn lemma_pairs_rt(s: Seq<char>, i: int, pairs: Seq<(Seq<char>, Json)>, d: Dialect)
    requires
        strict_shape(Json::Object(pairs)),
        seg_at(s, i, ser_pairs(pairs) + seq!['}']),
    ensures
        object_body_at(s, i, d) == Ok::<(Seq<(Seq<char>, Json)>, int), (int, Expected)>(
            (pairs, i + ser_pairs(pairs).len() + 1),
        ),
    decreases pairs, 0int,
{
    if pairs.len() == 0 {
        assert(ser_pairs(pairs) + seq!['}'] =~= seq!['}']);
        lemma_seg_index(s, i, seq!['}'], 0);
        assert(pairs =~= Seq::<(Seq<char>, Json)>::empty());
        assert(object_body_at(s, i, d) == Ok::<(Seq<(Seq<char>, Json)>, int), (int, Expected)>(
            (Seq::empty(), i + 1),
        ));
    } else {
        assert(decreases_to!(pairs => pairs[0]));
        let p0 = pairs[0];
        let k = p0.0;
        let v0 = p0.1;
        lemma_strict_pairs(pairs);
        assert(body_ok(k) && strict_shape(v0)) by {
            assert(body_ok((pairs[0]).0) && strict_shape(pairs[0].1));
        }
        assert(p0 == (k, v0));
        lemma_ser_pairs_head(pairs);
        let rest = if pairs.len() == 1 {
            Seq::<char>::empty()
        } else {
            seq![','] + ser_pairs(pairs.drop_first())
        };
        let sp0 = ser_pair(p0);
        assert(sp0 == seq!['"'] + k + seq!['"', ':', ' '] + ser(v0));
        assert(ser_pairs(pairs) + seq!['}'] =~= sp0 + (rest + seq!['}']));
        lemma_seg_split(s, i, sp0, rest + seq!['}']);
        // peel the pair's own components
        assert(sp0 =~= seq!['"'] + (k + (seq!['"', ':', ' '] + ser(v0))));
        lemma_seg_split(s, i, seq!['"'], k + (seq!['"', ':', ' '] + ser(v0)));
        lemma_seg_split(s, i + 1, k, seq!['"', ':', ' '] + ser(v0));
        lemma_seg_split(s, i + 1 + k.len(), seq!['"', ':', ' '], ser(v0));
        let jq = i + 1 + k.len();
        let jv = jq + 3;
        let av = jv + ser(v0).len();
        lemma_seg_index(s, i, seq!['"'], 0);
        lemma_seg_index(s, jq, seq!['"', ':', ' '], 0);
        lemma_seg_index(s, jq, seq!['"', ':', ' '], 1);
        lemma_seg_index(s, jq, seq!['"', ':', ' '], 2);
        // the key scans back
        lemma_body_embed(s, i + 1, k);
        assert(s.subrange(i + 1, i + 1 + k.len()) == k);
        assert(key_at(s, i, d) == Ok::<(Seq<char>, int), (int, Expected)>((k, jq + 1)));
        // the follower of the value
        lemma_seg_split(s, av, rest, seq!['}']);
        lemma_seg_index(s, av, rest + seq!['}'], 0);
        if pairs.len() == 1 {
            assert(s[av] == '}');
        } else {
            assert((seq![','] + ser_pairs(pairs.drop_first()))[0] == ',');
            assert(s[av] == ',');
        }
        // the value reads back
        lemma_value_rt(s, jv, v0, d);
        lemma_ser_first(v0);
        // colon, space, then the value
        assert(colon_value_at(s, jq + 1, d) == value_ws_at(s, jq + 2, d));
        assert(value_ws_at(s, jq + 2, d) == value_ws_at(s, jv, d));
        assert(value_ws_at(s, jv, d) == value_at(s, jv, d));
        assert(colon_value_at(s, jq + 1, d) == Ok::<(Json, int), (int, Expected)>((v0, av)));
        if pairs.len() == 1 {
            assert(object_tail_at(s, av, d) == Ok::<
                (Seq<(Seq<char>, Json)>, int),
                (int, Expected),
            >((Seq::empty(), av + 1)));
            assert(seq![(k, v0)] + Seq::<(Seq<char>, Json)>::empty() =~= pairs);
            assert(object_body_at(s, i, d) == Ok::<
                (Seq<(Seq<char>, Json)>, int),
                (int, Expected),
            >((pairs, i + ser_pairs(pairs).len() + 1)));
        } else {
            let df = pairs.drop_first();
            assert(decreases_to!(pairs => df));
            assert(strict_shape(Json::Object(df))) by {
                lemma_strict_pairs(df);
                assert forall|n: int| 0 <= n < df.len() implies body_ok(
                    (#[trigger] df[n]).0,
                ) && strict_shape(df[n].1) by {
                    assert(body_ok((pairs[n + 1]).0) && strict_shape(pairs[n + 1].1));
                    assert(df[n] == pairs[n + 1]);
                }
            }
            assert(rest + seq!['}'] =~= seq![','] + (ser_pairs(df) + seq!['}']));
            lemma_seg_split(s, av, seq![','], ser_pairs(df) + seq!['}']);
            lemma_pairs_rt(s, av + 1, df, d);
            assert(object_tail_at(s, av, d) == object_body_at(s, av + 1, d));
            assert(seq![(k, v0)] + df =~= pairs);
            assert(object_body_at(s, i, d) == Ok::<
                (Seq<(Seq<char>, Json)>, int),
                (int, Expected),
            >((pairs, i + ser_pairs(pairs).len() + 1)));
        }
    }
}

/// The elements' canonical text followed by a closing bracket re-reads as
/// those very elements, in order.
proof fn lemma_elems_rt(s: Seq<char>, i: int, elems: Seq<Json>, d: Dialect)
    requires
        strict_shape(Json::Array(elems)),
        seg_at(s, i, ser_elems(elems) + seq![']']),
    ensures
        array_body_at(s, i, d) == Ok::<(Seq<Json>, int), (int, Expected)>(
            (elems, i + ser_elems(elems).len() + 1),
        ),
    decreases elems, 0int,
{
    if elems.len() == 0 {
        assert(ser_elems(elems) + seq![']'] =~= seq![']']);
        lemma_seg_index(s, i, seq![']'], 0);
        assert(elems =~= Seq::<Json>::empty());
        assert(array_body_at(s, i, d) == Ok::<(Seq<Json>, int), (int, Expected)>(
            (Seq::empty(), i + 1),
        ));
    } else {
        assert(decreases_to!(elems => elems[0]));
        let e0 = elems[0];
        lemma_strict_elems(elems);
        assert(strict_shape(e0)) by {
            assert(strict_shape(elems[0]));
        }
        lemma_ser_elems_head(elems);
        let rest = if elems.len() == 1 {
            Seq::<char>::empty()
        } else {
            seq![','] + ser_elems(elems.drop_first())
        };
        assert(ser_elems(elems) + seq![']'] =~= ser(e0) + (rest + seq![']']));
        lemma_seg_split(s, i, ser(e0), rest + seq![']']);
        let av = i + ser(e0).len();
        lemma_seg_split(s, av, rest, seq![']']);
        lemma_seg_index(s, av, rest + seq![']'], 0);
        if elems.len() == 1 {
            assert(s[av] == ']');
        } else {
            assert((seq![','] + ser_elems(elems.drop_first()))[0] == ',');
            assert(s[av] == ',');
        }
        lemma_value_rt(s, i, e0, d);
        lemma_ser_first(e0);
        if elems.len() == 1 {
            assert(array_tail_at(s, av, d) == Ok::<(Seq<Json>, int), (int, Expected)>(
                (Seq::empty(), av + 1),
            ));
            assert(seq![e0] + Seq::<Json>::empty() =~= elems);
            assert(array_body_at(s, i, d) == Ok::<(Seq<Json>, int), (int, Expected)>(
                (elems, i + ser_elems(elems).len() + 1),
            ));
        } else {
            let df = elems.drop_first();
            assert(decreases_to!(elems => df));
            assert(strict_shape(Json::Array(df))) by {
                lemma_strict_elems(df);
                assert forall|n: int| 0 <= n < df.len() implies strict_shape(
                    #[trigger] df[n],
                ) by {
                    assert(strict_shape(elems[n + 1]));
                    assert(df[n] == elems[n + 1]);
                }
            }
            assert(rest + seq![']'] =~= seq![','] + (ser_elems(df) + seq![']']));
            lemma_seg_split(s, av, seq![','], ser_elems(df) + seq![']']);
            lemma_elems_rt(s, av + 1, df, d);
            assert(array_tail_at(s, av, d) == array_body_at(s, av + 1, d));
            assert(seq![e0] + df =~= elems);
            assert(array_body_at(s, i, d) == Ok::<(Seq<Json>, int), (int, Expected)>(
                (elems, i + ser_elems(elems).len() + 1),
            ));
        }
    }
}

/// The round-trip law: serializing a strict-form value tree and parsing
/// the text back, in either dialect, yields exactly the same tree — the
/// same pairs in the same order, the same elements, the same texts.
pub proof fn lemma_serialize_parse_round_trip(j: Json, d: Dialect)
    requires
        strict_shape(j),
    ensures
        parse_doc(ser(j), d) == Ok::<Json, (int, Expected)>(j),
{
    let s = ser(j);
    lemma_ser_first(j);
    assert(s.subrange(0, s.len() as int) =~= s);
    assert(seg_at(s, 0, s));
    lemma_value_rt(s, 0, j, d);
    assert(value_ws_at(s, 0, d) == value_at(s, 0, d));
    assert(ws_end(s, s.len() as int) == s.len());
}

/// Serialization is deterministic and total: the canonical text is a
/// function of the value tree alone, so equal trees always yield equal
/// text.
pub proof fn lemma_serialize_deterministic(a: Json, b: Json)
    requires
        a == b,
    ensures
        ser(a) == ser(b),
{
}

/// Canonical text carries no dialect sugar: both dialects read it back the
/// same way.
pub proof fn lemma_dialects_agree_on_canonical(j: Json)
    requires
        strict_shape(j),
    ensures
        parse_doc(ser(j), Dialect::Eson) == parse_doc(ser(j), Dialect::Jsonish),
{
    lemma_serialize_parse_round_trip(j, Dialect::Eson);
    lemma_serialize_parse_round_trip(j, Dialect::Jsonish);
}

/// Identifier text made of plain identifier characters.
pub open spec fn plain_ident(w: Seq<char>) -> bool {
    w.len() > 0 && is_ident_start_char(w[0]) && forall|k: int|
        0 <= k < w.len() ==> is_ident_part_char(#[trigger] w[k])
}

proof fn lemma_ident_run(s: Seq<char>, i: int, j: int)
    requires
        0 <= i <= j <= s.len(),
        forall|k: int| i <= k < j ==> is_ident_part_char(#[trigger] s[k]),
        j == s.len() || (!is_ident_part_char(s[j]) && s[j] != '\\'),
    ensures
        ident_parts_end(s, i) == j,
    decreases j - i,
{
    if i < j {
        lemma_ident_run(s, i + 1, j);
    }
}

proof fn lemma_plain_ident_body_ok(w: Seq<char>)
    requires
        forall|k: int| 0 <= k < w.len() ==> is_ident_part_char(#[trigger] w[k]),
    ensures
        body_ok(w),
    decreases w.len(),
{
    if w.len() > 0 {
        assert(is_ident_part_char(w[0]));
        assert forall|k: int| 0 <= k < w.skip(1).len() implies is_ident_part_char(
            #[trigger] w.skip(1)[k],
        ) by {
            assert(w.skip(1)[k] == w[k + 1]);
            assert(is_ident_part_char(w[k + 1]));
        }
        lemma_plain_ident_body_ok(w.skip(1));
    }
}

/// Superficial key sugar changes nothing: an identifier key, and the same
/// identifier wrapped in double quotes, read back as the same key text, in
/// either dialect.
pub proof fn lemma_key_sugar(w: Seq<char>, rest: Seq<char>, d: Dialect)
    requires
        plain_ident(w),
        rest.len() == 0 || (!is_ident_part_char(rest[0]) && rest[0] != '\\'),
    ensures
        key_at(seq!['"'] + w + seq!['"'] + rest, 0, d) == Ok::<(Seq<char>, int), (int, Expected)>(
            (w, w.len() + 2int),
        ),
        key_at(w + rest, 0, d) == Ok::<(Seq<char>, int), (int, Expected)>((w, w.len() as int)),
{
    let q = seq!['"'] + w + seq!['"'] + rest;
    let p = w + rest;
    // the double-quoted form
    assert(q.subrange(0, q.len() as int) =~= q);
    assert(seg_at(q, 0, q));
    assert(q =~= seq!['"'] + (w + (seq!['"'] + rest)));
    lemma_seg_split(q, 0, seq!['"'], w + (seq!['"'] + rest));
    lemma_seg_split(q, 1, w, seq!['"'] + rest);
    lemma_seg_index(q, 0, seq!['"'], 0);
    lemma_seg_index(q, w.len() + 1int, seq!['"'] + rest, 0);
    lemma_plain_ident_body_ok(w);
    lemma_body_embed(q, 1, w);
    assert(q.subrange(1, w.len() + 1int) == w);
    assert(key_at(q, 0, d) == Ok::<(Seq<char>, int), (int, Expected)>((w, w.len() + 2int)));
    // the bare identifier form
    assert(p.subrange(0, p.len() as int) =~= p);
    assert(seg_at(p, 0, p));
    lemma_seg_split(p, 0, w, rest);
    lemma_seg_index(p, 0, w, 0);
    assert(is_ident_start_char(p[0]));
    assert forall|k: int| 1 <= k < w.len() implies is_ident_part_char(#[trigger] p[k]) by {
        lemma_seg_index(p, 0, w, k);
    }
    if rest.len() > 0 {
        lemma_seg_index(p, w.len() as int, rest, 0);
    }
    lemma_ident_run(p, 1, w.len() as int);
    assert(p.subrange(0, w.len() as int) == w);
    assert(key_at(p, 0, d) == Ok::<(Seq<char>, int), (int, Expected)>((w, w.len() as int)));
}

} // verus!
