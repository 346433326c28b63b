//! Reading JSON and YAML text into document values, through `serde_json` and
//! `serde_norway`.
use vstd::prelude::*;
use crate::value::{well_keyed, JsonView, Value};
use serde_json::Value as SerdeValue;
use serde_json::Error as JsonError;
use serde_norway::Error as YamlError;

verus! {

#[verifier::external_type_specification]
#[verifier::external_body]
pub struct ExSerdeValue(SerdeValue);

/// The document that a JSON text reads as under `serde_json`'s grammar, when it reads
/// as one.
pub uninterp spec fn json_document(text: Seq<char>) -> Option<JsonView>;

/// The document that a YAML text reads as under `serde_norway`, when it reads as one.
pub uninterp spec fn yaml_document(text: Seq<char>) -> Option<JsonView>;

/// A `serde_json::Value` as a [`Value`], variant for variant: a number as its
/// `Display` text, an object's entries in its map's order.
#[verifier::external_body]
fn value_from_serde(v: SerdeValue) -> Value {
    match v {
        SerdeValue::Null => Value::Null,
        SerdeValue::Bool(b) => Value::Bool(b),
        SerdeValue::Number(n) => Value::Number(n.to_string()),
        SerdeValue::String(s) => Value::String(s),
        SerdeValue::Array(a) => Value::Array(a.into_iter().map(value_from_serde).collect()),
        SerdeValue::Object(m) => Value::Object(
            m.into_iter().map(|(k, x)| (k, value_from_serde(x))).collect(),
        ),
    }
}

/// `serde_json::from_str` into a `serde_json::Value`: the text reads as a document
/// just when the call succeeds, and the result is that document; its objects have
/// distinct keys, as a `serde_json::Map` (a `BTreeMap` here) holds each key once.
/// What the document is for a given text (`serde_json`'s grammar) is not stated.
#[verifier::external_body]
pub(crate) fn read_json(text: &str) -> (r: Result<Value, JsonError>)
    ensures
        r is Ok <==> json_document(text@) is Some,
        r matches Ok(v) ==> json_document(text@) == Some(v@),
        r matches Ok(v) ==> well_keyed(v),
{
    match serde_json::from_str::<SerdeValue>(text) {
        Ok(v) => Ok(value_from_serde(v)),
        Err(e) => Err(e),
    }
}

/// `serde_norway::from_str` into a `serde_json::Value`: the text reads as a document
/// just when the call succeeds, and the result is that document; its objects have
/// distinct keys, as a `serde_json::Map` holds each key once. What the document is
/// for a given text (YAML's grammar, and how scalars are typed) is not stated.
#[verifier::external_body]
pub(crate) fn read_yaml(text: &str) -> (r: Result<Value, YamlError>)
    ensures
        r is Ok <==> yaml_document(text@) is Some,
        r matches Ok(v) ==> yaml_document(text@) == Some(v@),
        r matches Ok(v) ==> well_keyed(v),
{
    match serde_norway::from_str::<SerdeValue>(text) {
        Ok(v) => Ok(value_from_serde(v)),
        Err(e) => Err(e),
    }
}

/// `serde::de::Error::missing_field` for `serde_json::Error`: the error that
/// deserialising a struct without a required field gives. Nothing is stated of the
/// error.
#[verifier::external_body]
pub(crate) fn missing_field_error(field: &'static str) -> JsonError {
    <JsonError as serde::de::Error>::missing_field(field)
}

/// `std::str::from_utf8`: succeeds just when the bytes are valid UTF-8, and then gives
/// the text they encode; on failure, the error's `Display` text.
#[verifier::external_body]
pub(crate) fn utf8_text(bytes: &[u8]) -> (r: Result<&str, String>)
    ensures
        r is Ok <==> vstd::utf8::valid_utf8(bytes@),
        r matches Ok(s) ==> s@ == vstd::utf8::decode_utf8(bytes@),
{
    match std::str::from_utf8(bytes) {
        Ok(s) => Ok(s),
        Err(e) => Err(e.to_string()),
    }
}

} // verus!
