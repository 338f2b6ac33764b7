//! The shape of a market-cap payload as JSON: an object of objects of strings.

use vstd::prelude::*;
use serde_json::Value;

verus! {

/// A field of a record: a JSON string, or any other JSON value.
#[derive(Clone, Debug, PartialEq, Eq)]
pub enum JsonField {
    Text(String),
    Other,
}

/// The value under a pair symbol: an object of fields, or any other JSON value.
#[derive(Clone, Debug, PartialEq, Eq)]
pub enum JsonEntry {
    Object(Vec<(String, JsonField)>),
    Other,
}

/// A decoded payload: an object of entries, another JSON value, or bytes that
/// are not JSON at all.
#[derive(Clone, Debug, PartialEq, Eq)]
pub enum JsonDocument {
    Object(Vec<(String, JsonEntry)>),
    Other,
    Invalid,
}

/// What serde_json decodes from the bytes, seen down to the fields' strings.
pub uninterp spec fn json_document(b: Seq<u8>) -> JsonDocument;

/// Relies on `serde_json::from_slice` into `serde_json::Value`; the objects'
/// entries are taken in the order of its map, their string values kept.
#[verifier::external_body]
pub(crate) fn decode_json(b: &[u8]) -> (r: JsonDocument)
    ensures
        r == json_document(b@),
{
    match serde_json::from_slice::<Value>(b) {
        Err(_) => JsonDocument::Invalid,
        Ok(Value::Object(m)) => JsonDocument::Object(m.into_iter().map(|(k, v)| (k, match v {
            Value::Object(f) => JsonEntry::Object(f.into_iter().map(|(n, x)| (n, match x {
                Value::String(t) => JsonField::Text(t),
                _ => JsonField::Other,
            })).collect()),
            _ => JsonEntry::Other,
        })).collect()),
        Ok(_) => JsonDocument::Other,
    }
}

} // verus!
