//! JSON values as plain data, and the calls into `serde_json` that
//! parse and print them.

use vstd::prelude::*;
use serde_json::{Number, Value};
use crate::text::opt_text;

verus! {

#[verifier::external_type_specification]
#[verifier::external_body]
pub struct ExJsonValue(Value);

/// A JSON number: its text as `serde_json` displays it, and its value
/// when it is an integer in `u64` range.
pub struct JsonNumber {
    pub text: String,
    pub as_u64: Option<u64>,
}

/// A JSON value. An object lists its members in the order `serde_json`
/// iterates them (sorted by key, each key once).
pub enum Json {
    Null,
    Bool(bool),
    Number(JsonNumber),
    Str(String),
    Array(Vec<Json>),
    Object(Vec<(String, Json)>),
}

/// What `serde_json::from_str::<Value>` makes of `text`, as a [`Json`];
/// `None` when the text is not JSON.
pub uninterp spec fn json_parse(text: Seq<char>) -> Option<Json>;

/// The compact text `serde_json` prints for `v` (`Value`'s `Display`);
/// `None` when a number's text is not a JSON number.
pub uninterp spec fn json_compact(v: Json) -> Option<Seq<char>>;

/// The text `serde_json::to_string_pretty` prints for `v`; `None` when
/// a number's text is not a JSON number.
pub uninterp spec fn json_pretty(v: Json) -> Option<Seq<char>>;

/// Turns a `serde_json::Value` into a [`Json`], member for member.
#[verifier::external_body]
fn json_from_value(v: Value) -> Json {
    match v {
        Value::Null => Json::Null,
        Value::Bool(b) => Json::Bool(b),
        Value::Number(n) => Json::Number(JsonNumber { text: n.to_string(), as_u64: n.as_u64() }),
        Value::String(s) => Json::Str(s),
        Value::Array(a) => Json::Array(a.into_iter().map(json_from_value).collect()),
        Value::Object(m) => Json::Object(m.into_iter().map(|(k, v)| (k, json_from_value(v))).collect()),
    }
}

/// Turns a [`Json`] back into a `serde_json::Value`, member for member;
/// `None` when a number's text does not parse as a `serde_json::Number`.
#[verifier::external_body]
fn json_to_value(v: &Json) -> Option<Value> {
    match v {
        Json::Null => Some(Value::Null),
        Json::Bool(b) => Some(Value::Bool(*b)),
        Json::Number(n) => n.text.parse::<Number>().ok().map(Value::Number),
        Json::Str(s) => Some(Value::String(s.clone())),
        Json::Array(a) => a.iter().map(json_to_value).collect::<Option<Vec<_>>>().map(Value::Array),
        Json::Object(m) => m.iter().map(|(k, v)| json_to_value(v).map(|v| (k.clone(), v))).collect::<
            Option<serde_json::Map<String, Value>>,
        >().map(Value::Object),
    }
}

/// `serde_json::from_str::<Value>`: the parsed value, named `json_parse`
/// of the text.
#[verifier::external_body]
pub(crate) fn parse_json(text: &str) -> (r: Option<Json>)
    ensures
        r == json_parse(text@),
{
    serde_json::from_str::<Value>(text).ok().map(json_from_value)
}

/// `Value`'s `Display` (compact JSON), named `json_compact` of the value.
#[verifier::external_body]
pub(crate) fn compact_json(v: &Json) -> (r: Option<String>)
    ensures
        opt_text(r) == json_compact(*v),
{
    json_to_value(v).map(|x| x.to_string())
}

/// `serde_json::to_string_pretty`, named `json_pretty` of the value.
#[verifier::external_body]
pub(crate) fn pretty_json(v: &Json) -> (r: Option<String>)
    ensures
        opt_text(r) == json_pretty(*v),
{
    json_to_value(v).and_then(|x| serde_json::to_string_pretty(&x).ok())
}

} // verus!
