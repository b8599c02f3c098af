//! The canonical serializer: renders a value tree as compact, strict JSON
//! text. Keys are re-wrapped in double quotes whatever their source form;
//! stored string text is emitted verbatim; pairs and elements keep their
//! order.

use vstd::prelude::*;
use vstd::string::StringExecFns;
use crate::value::{Value, Json, json_of, json_of_pairs, json_of_elems, lemma_json_of_pairs,
    lemma_json_of_elems};

verus! {

/// The canonical text of a value tree.
pub open spec fn ser(j: Json) -> Seq<char>
    decreases j,
{
    match j {
        Json::Object(pairs) => seq!['{'] + ser_pairs(pairs) + seq!['}'],
        Json::Array(elems) => seq!['['] + ser_elems(elems) + seq![']'],
        Json::Str(t) => seq!['"'] + t + seq!['"'],
        Json::Number(t) => t,
        Json::Boolean(b) => if b {
            seq!['t', 'r', 'u', 'e']
        } else {
            seq!['f', 'a', 'l', 's', 'e']
        },
        Json::Null => seq!['n', 'u', 'l', 'l'],
    }
}

/// The comma-joined text of an object's pairs.
pub open spec fn ser_pairs(pairs: Seq<(Seq<char>, Json)>) -> Seq<char>
    decreases pairs,
{
    if pairs.len() == 0 {
        seq![]
    } else if pairs.len() == 1 {
        ser_pair(pairs[0])
    } else {
        ser_pairs(pairs.drop_last()) + seq![','] + ser_pair(pairs.last())
    }
}

/// The text of one pair: the quoted key, a colon and a space, the value.
pub open spec fn ser_pair(p: (Seq<char>, Json)) -> Seq<char>
    decreases p,
{
    seq!['"'] + p.0 + seq!['"', ':', ' '] + ser(p.1)
}

/// The comma-joined text of an array's elements.
pub open spec fn ser_elems(elems: Seq<Json>) -> Seq<char>
    decreases elems,
{
    if elems.len() == 0 {
        seq![]
    } else if elems.len() == 1 {
        ser(elems[0])
    } else {
        ser_elems(elems.drop_last()) + seq![','] + ser(elems.last())
    }
}

/// Renders a value tree as one line of canonical JSON text. A pure function
/// of the tree: the same tree always yields the same text.
pub fn serialize_jsonvalue(val: &Value) -> (r: String)
    ensures
        r@ == ser(json_of(*val)),
    decreases *val,
{
    proof {
        reveal_strlit("{");
        reveal_strlit("}");
        reveal_strlit("[");
        reveal_strlit("]");
        reveal_strlit(",");
        reveal_strlit("\"");
        reveal_strlit("\": ");
        reveal_strlit("true");
        reveal_strlit("false");
        reveal_strlit("null");
    }
    match val {
        Value::Object(pairs) => {
            let ghost gps = json_of_pairs(pairs@);
            proof {
                lemma_json_of_pairs(pairs@);
            }
            let mut out = String::new();
            out.append("{");
            let mut k: usize = 0;
            while k < pairs.len()
                invariant
                    0 <= k <= pairs@.len(),
                    gps == json_of_pairs(pairs@),
                    gps.len() == pairs@.len(),
                    forall|n: int|
                        0 <= n < pairs@.len() ==> #[trigger] gps[n] == (
                        pairs@[n].0@,
                        json_of(pairs@[n].1),
                        ),
                    out@ == seq!['{'] + ser_pairs(gps.take(k as int)),
                    val == Value::Object(*pairs),
                decreases pairs@.len() - k,
            {
                if k > 0 {
                    out.append(",");
                }
                out.append("\"");
                out.append(pairs[k].0.as_str());
                out.append("\": ");
                proof {
                    broadcast use vstd::std_specs::vec::group_vec_axioms;

                    assert(decreases_to!(*val => val->Object_0));
                    assert(val->Object_0 == *pairs);
                    assert(decreases_to!(*pairs => pairs@));
                    assert(decreases_to!(pairs@ => pairs@[k as int]));
                    assert(decreases_to!(*val => pairs@[k as int].1));
                }
                let sv = serialize_jsonvalue(&pairs[k].1);
                out.append(sv.as_str());
                proof {
                    reveal_strlit(",");
                    reveal_strlit("\"");
                    reveal_strlit("\": ");
                    let t1 = gps.take(k as int + 1);
                    assert(t1.drop_last() =~= gps.take(k as int));
                    assert(t1.last() == gps[k as int]);
                    assert(ser_pair(gps[k as int]) =~= seq!['"'] + pairs@[k as int].0@ + seq![
                        '"',
                        ':',
                        ' ',
                    ] + ser(json_of(pairs@[k as int].1)));
                    assert(out@ =~= seq!['{'] + ser_pairs(gps.take(k as int + 1)));
                }
                k += 1;
            }
            out.append("}");
            proof {
                reveal_strlit("}");
                assert(gps.take(gps.len() as int) =~= gps);
                assert(out@ =~= ser(json_of(*val)));
            }
            out
        },
        Value::Array(elems) => {
            let ghost ges = json_of_elems(elems@);
            proof {
                lemma_json_of_elems(elems@);
            }
            let mut out = String::new();
            out.append("[");
            let mut k: usize = 0;
            while k < elems.len()
                invariant
                    0 <= k <= elems@.len(),
                    ges == json_of_elems(elems@),
                    ges.len() == elems@.len(),
                    forall|n: int|
                        0 <= n < elems@.len() ==> #[trigger] ges[n] == json_of(elems@[n]),
                    out@ == seq!['['] + ser_elems(ges.take(k as int)),
                    val == Value::Array(*elems),
                decreases elems@.len() - k,
            {
                if k > 0 {
                    out.append(",");
                }
                proof {
                    broadcast use vstd::std_specs::vec::group_vec_axioms;

                    assert(decreases_to!(*val => val->Array_0));
                    assert(val->Array_0 == *elems);
                    assert(decreases_to!(*elems => elems@));
                    assert(decreases_to!(elems@ => elems@[k as int]));
                    assert(decreases_to!(*val => elems@[k as int]));
                }
                let sv = serialize_jsonvalue(&elems[k]);
                out.append(sv.as_str());
                proof {
                    reveal_strlit(",");
                    let t1 = ges.take(k as int + 1);
                    assert(t1.drop_last() =~= ges.take(k as int));
                    assert(t1.last() == ges[k as int]);
                    assert(out@ =~= seq!['['] + ser_elems(ges.take(k as int + 1)));
                }
                k += 1;
            }
            out.append("]");
            proof {
                reveal_strlit("]");
                assert(ges.take(ges.len() as int) =~= ges);
                assert(out@ =~= ser(json_of(*val)));
            }
            out
        },
        Value::Str(t) => {
            let mut out = String::new();
            out.append("\"");
            out.append(t.as_str());
            out.append("\"");
            proof {
                reveal_strlit("\"");
                assert(out@ =~= ser(json_of(*val)));
            }
            out
        },
        Value::Number(t) => {
            let out = t.clone();
            out
        },
        Value::Boolean(b) => {
            if *b {
                let out = "true".to_owned();
                proof {
                    assert(out@ =~= ser(json_of(*val)));
                }
                out
            } else {
                let out = "false".to_owned();
                proof {
                    assert(out@ =~= ser(json_of(*val)));
                }
                out
            }
        },
        Value::Null => {
            let out = "null".to_owned();
            proof {
                assert(out@ =~= ser(json_of(*val)));
            }
            out
        },
    }
}

} // verus!
