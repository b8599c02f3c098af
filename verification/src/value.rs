//! The canonical in-memory value model, and its mathematical abstraction.

use vstd::prelude::*;

verus! {

/// One JSON-like datum, built bottom-up by the tree-to-value transform and
/// read by the serializer.
///
/// Strings (and quoted keys) hold the literal text between the quote
/// delimiters: backslash escape sequences are kept as written, not decoded.
/// A number holds the literal text the grammar matched.
#[derive(Debug, PartialEq)]
pub enum Value {
    /// Ordered key/value pairs; insertion order is significant and duplicate
    /// keys are kept as separate pairs.
    Object(Vec<(String, Value)>),
    Array(Vec<Value>),
    Str(String),
    Number(String),
    Boolean(bool),
    Null,
}

/// The mathematical shape of a [`Value`]: the same tree over `Seq<char>`.
pub enum Json {
    Object(Seq<(Seq<char>, Json)>),
    Array(Seq<Json>),
    Str(Seq<char>),
    Number(Seq<char>),
    Boolean(bool),
    Null,
}

/// The abstraction of a value tree.
pub open spec fn json_of(v: Value) -> Json
    decreases v,
{
    match v {
        Value::Object(pairs) => Json::Object(json_of_pairs(pairs@)),
        Value::Array(elems) => Json::Array(json_of_elems(elems@)),
        Value::Str(s) => Json::Str(s@),
        Value::Number(t) => Json::Number(t@),
        Value::Boolean(b) => Json::Boolean(b),
        Value::Null => Json::Null,
    }
}

pub open spec fn json_of_pairs(pairs: Seq<(String, Value)>) -> Seq<(Seq<char>, Json)>
    decreases pairs,
{
    if pairs.len() == 0 {
        seq![]
    } else {
        json_of_pairs(pairs.drop_last()).push((pairs.last().0@, json_of(pairs.last().1)))
    }
}

pub open spec fn json_of_elems(elems: Seq<Value>) -> Seq<Json>
    decreases elems,
{
    if elems.len() == 0 {
        seq![]
    } else {
        json_of_elems(elems.drop_last()).push(json_of(elems.last()))
    }
}

impl View for Value {
    type V = Json;

    open spec fn view(&self) -> Json {
        json_of(*self)
    }
}

/// Each pair of `json_of_pairs` abstracts the pair at the same position.
pub proof fn lemma_json_of_pairs(pairs: Seq<(String, Value)>)
    ensures
        json_of_pairs(pairs).len() == pairs.len(),
        forall|i: int|
            0 <= i < pairs.len() ==> #[trigger] json_of_pairs(pairs)[i] == (
            pairs[i].0@,
            json_of(pairs[i].1),
            ),
    decreases pairs.len(),
{
    if pairs.len() > 0 {
        lemma_json_of_pairs(pairs.drop_last());
    }
}

/// Each element of `json_of_elems` abstracts the element at the same position.
pub proof fn lemma_json_of_elems(elems: Seq<Value>)
    ensures
        json_of_elems(elems).len() == elems.len(),
        forall|i: int|
            0 <= i < elems.len() ==> #[trigger] json_of_elems(elems)[i] == json_of(elems[i]),
    decreases elems.len(),
{
    if elems.len() > 0 {
        lemma_json_of_elems(elems.drop_last());
    }
}

} // verus!
