use vstd::prelude::*;

verus! {

#[verifier::external_type_specification]
#[verifier::external_body]
pub struct ExNumber(serde_json::Number);

#[verifier::external_type_specification]
#[verifier::external_body]
pub struct ExValue(serde_json::Value);

#[verifier::external_type_specification]
#[verifier::external_body]
pub struct ExJsonError(serde_json::Error);

/// A JSON document held as plain values. Object members keep the order in
/// which they were read or built.
pub enum Json {
    Null,
    Bool(bool),
    Number(serde_json::Number),
    Str(String),
    Array(Vec<Json>),
    Object(Vec<(String, Json)>),
}

/// The mathematical form of a JSON document; numbers are kept abstract.
pub enum JsonV {
    Null,
    Bool(bool),
    Number,
    Str(Seq<char>),
    Array(Seq<JsonV>),
    Object(Seq<(Seq<char>, JsonV)>),
}

impl Json {
    pub open spec fn view(self) -> JsonV
        decreases self,
    {
        match self {
            Json::Null => JsonV::Null,
            Json::Bool(b) => JsonV::Bool(b),
            Json::Number(_) => JsonV::Number,
            Json::Str(s) => JsonV::Str(s@),
            Json::Array(a) => JsonV::Array(
                Seq::new(
                    a@.len(),
                    |i: int|
                        if 0 <= i < a@.len() {
                            a@[i].view()
                        } else {
                            JsonV::Null
                        },
                ),
            ),
            Json::Object(o) => JsonV::Object(
                Seq::new(
                    o@.len(),
                    |i: int|
                        if 0 <= i < o@.len() {
                            (o@[i].0@, o@[i].1.view())
                        } else {
                            (Seq::empty(), JsonV::Null)
                        },
                ),
            ),
        }
    }
}

/// The document that serde_json reads from the bytes `b`, if they hold one.
pub uninterp spec fn json_of_bytes(b: Seq<u8>) -> Option<JsonV>;

/// The bytes of serde_json's pretty-printed rendering of a plain document
/// (one without numbers, whose values the view leaves out).
pub uninterp spec fn pretty_json(j: JsonV) -> Seq<u8>;

/// A document built from strings, arrays and objects only, with distinct
/// keys in every object, nested no deeper than `d`.
pub open spec fn plain_within(j: JsonV, d: int) -> bool
    decreases d,
{
    if d <= 0 {
        false
    } else {
        match j {
            JsonV::Number => false,
            JsonV::Array(a) => forall|i: int|
                0 <= i < a.len() ==> plain_within(#[trigger] a[i], d - 1),
            JsonV::Object(o) => {
                &&& forall|i: int, k: int| 0 <= i < k < o.len() ==> o[i].0 != o[k].0
                &&& forall|i: int|
                    0 <= i < o.len() ==> plain_within(#[trigger] o[i].1, d - 1)
            },
            _ => true,
        }
    }
}

/// Documents that serde_json reads back exactly as they were printed: no
/// numbers, no repeated keys, and far below its nesting limit.
pub open spec fn plain_json(j: JsonV) -> bool {
    plain_within(j, 64)
}

/// Turns a serde_json value into the library's tree, member for member.
#[verifier::external_body]
fn json_from_value(v: serde_json::Value) -> Json {
    match v {
        serde_json::Value::Null => Json::Null,
        serde_json::Value::Bool(b) => Json::Bool(b),
        serde_json::Value::Number(n) => Json::Number(n),
        serde_json::Value::String(s) => Json::Str(s),
        serde_json::Value::Array(a) => Json::Array(a.into_iter().map(json_from_value).collect()),
        serde_json::Value::Object(o) => Json::Object(
            o.into_iter().map(|(k, x)| (k, json_from_value(x))).collect(),
        ),
    }
}

/// Turns the library's tree into a serde_json value, member for member.
#[verifier::external_body]
fn json_to_value(j: &Json) -> serde_json::Value {
    match j {
        Json::Null => serde_json::Value::Null,
        Json::Bool(b) => serde_json::Value::Bool(*b),
        Json::Number(n) => serde_json::Value::Number(n.clone()),
        Json::Str(s) => serde_json::Value::String(s.clone()),
        Json::Array(a) => serde_json::Value::Array(a.iter().map(json_to_value).collect()),
        Json::Object(o) => serde_json::Value::Object(
            o.iter().map(|(k, x)| (k.clone(), json_to_value(x))).collect(),
        ),
    }
}

/// Relies on serde_json::from_slice::<Value>: the document read depends on
/// the bytes alone, and the call fails exactly when they hold none.
#[verifier::external_body]
pub(crate) fn decode_json(b: &[u8]) -> (r: Result<Json, serde_json::Error>)
    ensures
        match r {
            Ok(j) => json_of_bytes(b@) == Some(j@),
            Err(_) => json_of_bytes(b@) is None,
        },
{
    serde_json::from_slice::<serde_json::Value>(b).map(json_from_value)
}

/// Relies on serde_json::to_vec_pretty on a Value: it cannot fail (a Value has
/// string keys only), and reading the output back with from_slice gives the
/// same strings, arrays and objects, in the same order (the crate is built
/// with its order-preserving map).
#[verifier::external_body]
pub(crate) fn encode_json_pretty(j: &Json) -> (r: Vec<u8>)
    ensures
        plain_json(j@) ==> r@ == pretty_json(j@),
        plain_json(j@) ==> json_of_bytes(r@) == Some(j@),
{
    match serde_json::to_vec_pretty(&json_to_value(j)) {
        Ok(b) => b,
        Err(_) => Vec::new(),
    }
}

} // verus!
