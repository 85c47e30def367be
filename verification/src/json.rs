//! A plain model of parsed JSON, and the trusted parser behind it.
//!
//! The repository configuration file is JSON.  Parsing the text is the job
//! of `serde_json`; everything after the parse — shape resolution and
//! validation — is this crate's own verified logic, working on the plain
//! [`Json`] tree below.  Numbers appear in no valid configuration, so their
//! value is not carried.

use vstd::prelude::*;

verus! {

/// A parsed JSON document as plain values: object fields are listed in the
/// parser's order with duplicate keys already collapsed.
#[derive(Debug)]
pub enum Json {
    Null,
    Bool(bool),
    Num,
    Str(String),
    Arr(Vec<Json>),
    Obj(Vec<(String, Json)>),
}

/// What parsing a JSON text yields: `None` on malformed input, otherwise
/// the parsed tree.  The result depends on the text alone.
pub uninterp spec fn json_of(s: Seq<char>) -> Option<Json>;

#[verifier::external_type_specification]
#[verifier::external_body]
pub struct ExValue(serde_json::Value);

/// Converts a `serde_json` tree into the plain form, variant by variant;
/// the body of [`parse_json`] relies on it and is trusted together with it.
#[verifier::external_body]
fn value_to_json(v: serde_json::Value) -> Json {
    match v {
        serde_json::Value::Null => Json::Null,
        serde_json::Value::Bool(b) => Json::Bool(b),
        serde_json::Value::Number(_) => Json::Num,
        serde_json::Value::String(s) => Json::Str(s),
        serde_json::Value::Array(a) => Json::Arr(a.into_iter().map(value_to_json).collect()),
        serde_json::Value::Object(o) => Json::Obj(
            o.into_iter().map(|(k, v)| (k, value_to_json(v))).collect(),
        ),
    }
}

/// Relies on `serde_json::from_str::<serde_json::Value>`: parses a JSON
/// text, `None` on a syntax error; the parsed tree is a function of the
/// text alone.
#[verifier::external_body]
pub fn parse_json(s: &str) -> (r: Option<Json>)
    ensures
        r == json_of(s@),
{
    match serde_json::from_str::<serde_json::Value>(s) {
        Ok(v) => Some(value_to_json(v)),
        Err(_) => None,
    }
}

} // verus!
