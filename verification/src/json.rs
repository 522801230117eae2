//! Reading of JSON text into structured values.

use vstd::prelude::*;
use crate::error::ErrorKind;
use crate::value::{Datum, Node};

verus! {

/// `serde_json::Value`, carried through as it is.
#[verifier::external_type_specification]
#[verifier::external_body]
pub struct ExJsonValue(serde_json::Value);

/// `serde_json::Error`, carried through as it is.
#[verifier::external_type_specification]
#[verifier::external_body]
pub struct ExJsonError(serde_json::Error);

/// The value that a JSON text denotes, or `None` where the text is not
/// JSON.
pub uninterp spec fn json_document(text: Seq<char>) -> Option<Node>;

/// What a value of `serde_json` holds: a number by the literal that
/// `Number::to_string` prints for it, an object by its members in the
/// order in which `Map::into_iter` yields them.
pub uninterp spec fn json_content(v: serde_json::Value) -> Node;

/// `serde_json::from_str`, read as a `serde_json::Value`: the value that
/// the text denotes, which depends on the text alone, or the error of the
/// parser where the text is not JSON.
#[verifier::external_body]
fn from_str(text: &str) -> (r: Result<serde_json::Value, serde_json::Error>)
    ensures
        match r {
            Ok(v) => json_document(text@) == Some(json_content(v)),
            Err(_) => json_document(text@) is None,
        },
{
    serde_json::from_str::<serde_json::Value>(text)
}

/// Turns a value of `serde_json` into a value of this crate, variant by
/// variant and with the same content.
#[verifier::external_body]
fn json_value(v: serde_json::Value) -> (r: Datum)
    ensures
        r@ == json_content(v),
{
    match v {
        serde_json::Value::Null => Datum::Null,
        serde_json::Value::Bool(b) => Datum::Bool(b),
        serde_json::Value::Number(n) => Datum::Float(n.to_string()),
        serde_json::Value::String(s) => Datum::Str(s),
        serde_json::Value::Array(a) => Datum::Array(a.into_iter().map(json_value).collect()),
        serde_json::Value::Object(m) => Datum::Doc(
            m.into_iter().map(|(k, x)| (k, json_value(x))).collect(),
        ),
    }
}

/// Reads a JSON text.
pub fn parse_json(text: &str) -> (r: Result<Datum, ErrorKind>)
    ensures
        match r {
            Ok(v) => json_document(text@) == Some(v@),
            Err(e) => e == ErrorKind::ExtractionError && json_document(text@) is None,
        },
{
    match from_str(text) {
        Ok(v) => Ok(json_value(v)),
        Err(_) => Err(ErrorKind::ExtractionError),
    }
}

} // verus!
