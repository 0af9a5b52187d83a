//! The library's own model of a parsed status document.
//!
//! The control plane's output is structured data; the extraction rules only
//! ever read strings, arrays, and object fields. `JsonValue` holds exactly
//! that as plain values, and the one trusted parsing call turns raw text
//! into it.

use vstd::prelude::*;

verus! {

/// A parsed document: the control plane's snapshot of known peers.
///
/// Numeric payloads are never read by any extraction rule, so a number is
/// kept only as its variant. Object entries keep the order the parser
/// handed them out in; that order is the document traversal order.
pub enum JsonValue {
    Null,
    Bool(bool),
    Number,
    Str(String),
    Arr(Vec<JsonValue>),
    Obj(Vec<(String, JsonValue)>),
}

#[verifier::external_type_specification]
#[verifier::external_body]
pub struct ExSerdeValue(serde_json::Value);

/// The document that a given text parses to, if it parses at all. The parse
/// depends on the text alone.
pub uninterp spec fn json_of(s: Seq<char>) -> Option<JsonValue>;

/// Mirrors a parsed `serde_json::Value` as the library's own document tree,
/// variant by variant. Numeric payloads are dropped: no extraction rule
/// reads them.
#[verifier::external_body]
fn convert_value(v: &serde_json::Value) -> JsonValue {
    match v {
        serde_json::Value::Null => JsonValue::Null,
        serde_json::Value::Bool(b) => JsonValue::Bool(*b),
        serde_json::Value::Number(_) => JsonValue::Number,
        serde_json::Value::String(s) => JsonValue::Str(s.clone()),
        serde_json::Value::Array(items) => JsonValue::Arr(
            items.iter().map(convert_value).collect(),
        ),
        serde_json::Value::Object(entries) => JsonValue::Obj(
            entries.iter().map(|(k, val)| (k.clone(), convert_value(val))).collect(),
        ),
    }
}

/// Relies on `serde_json::from_str`: whether a text parses as a document,
/// and which document it parses to, depend on the text alone.
#[verifier::external_body]
pub(crate) fn parse_json(s: &str) -> (r: Option<JsonValue>)
    ensures
        r == json_of(s@),
{
    match serde_json::from_str::<serde_json::Value>(s) {
        Ok(v) => Some(convert_value(&v)),
        Err(_) => None,
    }
}

} // verus!
