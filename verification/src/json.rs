//! JSON documents as `serde_json` parses them, with the mathematical model
//! that the contracts of this crate speak of.

use vstd::prelude::*;

verus! {

/// A JSON document as a mathematical value.
pub enum Json {
    Null,
    Bool(bool),
    /// A number. The payload is its value where that is an integer that a
    /// `u64` holds, `None` for every other number.
    Number(Option<u64>),
    Text(Seq<char>),
    Array(Seq<Json>),
    Object(Map<Seq<char>, Json>),
}

/// `serde_json::Value`, a parsed document. What it holds is `json_of`.
#[verifier::external_type_specification]
#[verifier::external_body]
pub struct ExValue(serde_json::Value);

/// `serde_json::Error`, why a text was rejected. Nothing is said of it.
#[verifier::external_type_specification]
#[verifier::external_body]
pub struct ExJsonError(serde_json::Error);

/// The document that a parsed value holds.
pub uninterp spec fn json_of(value: serde_json::Value) -> Json;

/// The document that a byte text denotes to `serde_json`, `None` where the
/// parser rejects the text.
pub uninterp spec fn json_document(bytes: Seq<u8>) -> Option<Json>;

/// The member of an object under a key, if the document is an object that
/// has one.
pub open spec fn member(doc: Json, key: Seq<char>) -> Option<Json> {
    match doc {
        Json::Object(fields) => if fields.contains_key(key) {
            Some(fields[key])
        } else {
            None
        },
        _ => None,
    }
}

/// The text of a document that is a string.
pub open spec fn text_of(doc: Json) -> Option<Seq<char>> {
    match doc {
        Json::Text(text) => Some(text),
        _ => None,
    }
}

/// The value of a document that is a number and fits `u64`.
pub open spec fn unsigned_of(doc: Json) -> Option<u64> {
    match doc {
        Json::Number(n) => n,
        _ => None,
    }
}

/// The documents that a sequence of parsed values holds.
pub open spec fn jsons_of(values: Seq<serde_json::Value>) -> Seq<Json> {
    values.map_values(|value: serde_json::Value| json_of(value))
}

/// `serde_json::Value::as_str` hands out the text of a string value and
/// `None` for every other value.
pub assume_specification<'a>[ serde_json::Value::as_str ](value: &'a serde_json::Value) -> (r: Option<&'a str>)
    ensures
        match r {
            Some(text) => json_of(*value) == Json::Text(text@),
            None => !(json_of(*value) is Text),
        },
;

/// `serde_json::Value::as_array` hands out the elements of an array value
/// and `None` for every other value.
pub assume_specification<'a>[ serde_json::Value::as_array ](value: &'a serde_json::Value) -> (r: Option<&'a Vec<serde_json::Value>>)
    ensures
        match r {
            Some(items) => json_of(*value) == Json::Array(jsons_of(items@)),
            None => !(json_of(*value) is Array),
        },
;

/// `serde_json::Value::as_u64` hands out a number that is an integer within
/// `u64` and `None` for every other value.
pub assume_specification[ serde_json::Value::as_u64 ](value: &serde_json::Value) -> (r: Option<u64>)
    ensures
        r == unsigned_of(json_of(*value)),
;

/// Calls `serde_json::from_slice` for a `Value`. Trusted: the parser
/// accepts the bytes exactly where they denote a document, and the value it
/// hands back holds that document.
#[verifier::external_body]
pub(crate) fn parse_value(bytes: &[u8]) -> (r: Result<serde_json::Value, serde_json::Error>)
    ensures
        match r {
            Ok(value) => json_document(bytes@) == Some(json_of(value)),
            Err(_) => json_document(bytes@) is None,
        },
{
    serde_json::from_slice::<serde_json::Value>(bytes)
}

/// Calls `serde_json::Value::get` with a text key. Trusted: the result is
/// the member under that key where the value is an object that has one,
/// `None` otherwise.
#[verifier::external_body]
pub(crate) fn value_member<'a>(value: &'a serde_json::Value, key: &str) -> (r: Option<&'a serde_json::Value>)
    ensures
        match r {
            Some(found) => member(json_of(*value), key@) == Some(json_of(*found)),
            None => member(json_of(*value), key@) is None,
        },
{
    value.get(key)
}

} // verus!
