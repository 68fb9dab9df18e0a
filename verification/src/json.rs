//! The JSON text of a rendered document, as `rustc_serialize` writes it.

use crate::value::{Value, ValueView};
use rustc_serialize::json::Json;
use vstd::prelude::*;

verus! {

/// `rustc_serialize::json::Json`, a JSON value. The library makes such
/// values only to have them encoded, and never looks inside one.
#[verifier::external_type_specification]
#[verifier::external_body]
pub struct ExJson(Json);

/// The compact JSON text of a document: what `rustc_serialize` prints for
/// the `Json` value with the same content.
pub uninterp spec fn json_text(value: ValueView) -> Seq<char>;

/// The `rustc_serialize::json::Json` value with the content of `value`:
/// text becomes `Json::String`, numbers `Json::I64` and `Json::U64`, a
/// list `Json::Array` with the items in order, an object `Json::Object`
/// with the same fields. Nothing is claimed of the result here; it is
/// only handed on to the encoder.
#[verifier::external_body]
fn to_outside(value: &Value) -> Json {
    match value {
        Value::Text(text) => Json::String(text.clone()),
        Value::Integer(number) => Json::I64(*number),
        Value::Unsigned(number) => Json::U64(*number),
        Value::List(items) => Json::Array(items.iter().map(to_outside).collect()),
        Value::Object(object) => Json::Object(
            object.entries.iter().map(|e| (e.key.clone(), to_outside(&e.value))).collect(),
        ),
    }
}

/// Encodes a document with the `Display` impl of
/// `rustc_serialize::json::Json`, which writes compact JSON: strings
/// quoted and escaped, list items and object fields separated by commas,
/// an object's fields in the order of their names. The text depends on
/// the document's content alone, and the encoder does not fail on a value
/// made of strings, integers, lists and objects with string keys.
#[verifier::external_body]
pub(crate) fn encode(value: &Value) -> (text: String)
    ensures
        text@ == json_text(value@),
{
    to_outside(value).to_string()
}

impl Value {
    /// The document as compact JSON text.
    pub fn to_json_text(&self) -> (text: String)
        ensures
            text@ == json_text(self@),
    {
        encode(self)
    }
}

} // verus!
