//! The JSON documents that log lines are parsed into.
//!
//! A document is kept as the `serde_json::Value` that the parser produced.
//! Nothing here looks inside one: what the rules can read of a document is
//! named by the spec functions below, and each accessor says which of them it
//! returns.

use serde_json::Value;
use vstd::prelude::*;

verus! {

#[verifier::external_type_specification]
#[verifier::external_body]
pub struct ExValue(serde_json::Value);

#[verifier::external_type_specification]
#[verifier::external_body]
pub struct ExJsonError(serde_json::Error);

/// What a rule can read of one JSON value.
pub enum JsonField {
    /// A string, with its text.
    Text(Seq<char>),
    /// An integer in the range of `i64`.
    Int(i64),
    /// Anything else: null, a boolean, another number, an array, an object.
    Other,
}

/// The members of a document, by name.
pub type JsonFields = Map<Seq<char>, JsonField>;

/// The members of the document that `text` denotes, or `None` where `text`
/// is not one complete JSON value.
pub uninterp spec fn json_parse(text: Seq<char>) -> Option<JsonFields>;

/// The members of `doc`, by name. A document that is not an object has none.
pub uninterp spec fn json_fields(doc: Value) -> JsonFields;

/// What `value` is, taken by itself.
pub uninterp spec fn json_scalar(value: Value) -> JsonField;

/// `Value::clone` copies a document: the copy has the same members and, taken
/// by itself, is the same value.
pub assume_specification[ <Value as Clone>::clone ](value: &Value) -> (r: Value)
    ensures
        json_fields(r) == json_fields(*value),
        json_scalar(r) == json_scalar(*value),
;

/// `serde_json::from_str` at `Value`: parses `text` as a single JSON value.
/// The contract claims only that the outcome is a function of the text: it
/// succeeds exactly where `json_parse` has members, and the document it then
/// returns has those members.
#[verifier::external_body]
pub(crate) fn parse_document(text: &str) -> (r: Result<Value, serde_json::Error>)
    ensures
        r is Ok <==> json_parse(text@) is Some,
        r matches Ok(doc) ==> json_parse(text@) == Some(json_fields(doc)),
{
    serde_json::from_str::<Value>(text)
}

/// `Value::get` with a string index: looks `name` up among the members of an
/// object and yields nothing for every other kind of value. The contract
/// says that it finds exactly the members that `json_fields` names, each as
/// `json_fields` has it.
#[verifier::external_body]
pub(crate) fn member<'a>(doc: &'a Value, name: &str) -> (r: Option<&'a Value>)
    ensures
        r is Some <==> json_fields(*doc).contains_key(name@),
        r matches Some(value) ==> json_fields(*doc)[name@] == json_scalar(*value),
{
    doc.get(name)
}

/// `Value::as_str`: the contents of a JSON string, nothing for any other
/// value.
#[verifier::external_body]
pub(crate) fn as_text<'a>(value: &'a Value) -> (r: Option<&'a str>)
    ensures
        match json_scalar(*value) {
            JsonField::Text(text) => r matches Some(s) && s@ == text,
            _ => r is None,
        },
{
    value.as_str()
}

/// `Value::as_i64`: a JSON integer that fits `i64`, nothing for any other
/// value.
#[verifier::external_body]
pub(crate) fn as_int(value: &Value) -> (r: Option<i64>)
    ensures
        match json_scalar(*value) {
            JsonField::Int(number) => r == Some(number),
            _ => r is None,
        },
{
    value.as_i64()
}

} // verus!
