//! JSON values, as serde_json holds them.
use vstd::prelude::*;
use serde_json::Value;

verus! {

/// serde_json's `Value`: a JSON value.  The library stores and hands back such
/// values without looking inside them.
#[verifier::external_type_specification]
#[verifier::external_body]
pub struct ExJsonValue(serde_json::Value);

/// What `serde_json::from_str::<Value>` makes of a text: a value, or nothing
/// where the text is not JSON.
pub uninterp spec fn json_parse(text: Seq<char>) -> Option<Value>;

/// The JSON string value `Value::String` holding a text.
pub uninterp spec fn json_string(text: Seq<char>) -> Value;

/// The text that `Value`'s `to_string` writes for a value.
pub uninterp spec fn json_text(v: Value) -> Seq<char>;

/// serde_json's `from_str::<Value>`: its result, with the error dropped, is
/// named `json_parse` of the text.
#[verifier::external_body]
pub(crate) fn parse_json(text: &str) -> (r: Option<Value>)
    ensures
        r == json_parse(text@),
{
    serde_json::from_str::<Value>(text).ok()
}

/// serde_json's `Value::String`: the value is named `json_string` of the text.
#[verifier::external_body]
pub(crate) fn json_from_string(text: String) -> (r: Value)
    ensures
        r == json_string(text@),
{
    Value::String(text)
}

/// `Value`'s `to_string` (its `Display`, which serialises the value): the text
/// is named `json_text` of the value.
#[verifier::external_body]
pub(crate) fn json_to_text(v: &Value) -> (r: String)
    ensures
        r@ == json_text(*v),
{
    v.to_string()
}

/// `Value`'s derived `clone`: the copy is taken to be the same value (it holds
/// the same JSON; the capacity of the vectors and maps inside it may differ,
/// which nothing here reads).
#[verifier::external_body]
pub(crate) fn clone_json(v: &Value) -> (r: Value)
    ensures
        r == *v,
{
    v.clone()
}

} // verus!
