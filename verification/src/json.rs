//! JSON documents as this crate reads them: the value tree of a parsed
//! document and field lookup in objects.

use vstd::prelude::*;
use crate::text::{chars_eq, chars_of};

verus! {

/// A JSON value. Numbers are kept in their textual form; an object keeps its
/// fields in the order the parser yields them.
pub enum JsonValue {
    Null,
    Bool(bool),
    Number(String),
    Text(String),
    Array(Vec<JsonValue>),
    Object(Vec<(String, JsonValue)>),
}

/// The value tree of the `serde_json` crate, which [`parse_json`] converts.
#[verifier::external_type_specification]
#[verifier::external_body]
pub struct ExSerdeJsonValue(serde_json::Value);

/// What `serde_json::from_str::<serde_json::Value>` yields for a text, as a
/// [`JsonValue`]; `None` for a text that is not a JSON document.
pub uninterp spec fn json_document(text: Seq<char>) -> Option<JsonValue>;

/// Calls `serde_json::from_str::<serde_json::Value>` and converts the value
/// variant by variant; the contract names the result and claims nothing of
/// JSON syntax.
#[verifier::external_body]
pub(crate) fn parse_json(text: &str) -> (r: Option<JsonValue>)
    ensures
        r == json_document(text@),
{
    serde_json::from_str::<serde_json::Value>(text).ok().map(from_serde_json)
}

/// Converts a `serde_json::Value` into a [`JsonValue`], variant by variant.
#[verifier::external_body]
fn from_serde_json(v: serde_json::Value) -> JsonValue {
    match v {
        serde_json::Value::Null => JsonValue::Null,
        serde_json::Value::Bool(b) => JsonValue::Bool(b),
        serde_json::Value::Number(n) => JsonValue::Number(n.to_string()),
        serde_json::Value::String(s) => JsonValue::Text(s),
        serde_json::Value::Array(items) => JsonValue::Array(items.into_iter().map(from_serde_json).collect()),
        serde_json::Value::Object(m) => JsonValue::Object(m.into_iter().map(|(k, x)| (k, from_serde_json(x))).collect()),
    }
}

/// The value of the first of the fields from `i` on named `key`.
pub open spec fn field_from(fields: Seq<(String, JsonValue)>, key: Seq<char>, i: int) -> Option<
    JsonValue,
>
    decreases fields.len() - i,
{
    if i < 0 || i >= fields.len() {
        None
    } else if fields[i].0@ == key {
        Some(fields[i].1)
    } else {
        field_from(fields, key, i + 1)
    }
}

/// `value[key].as_str()`: the text of the field `key` of an object, when the
/// value is an object and the field exists and holds a string.
pub open spec fn str_field(v: JsonValue, key: Seq<char>) -> Option<Seq<char>> {
    match v {
        JsonValue::Object(fields) => match field_from(fields@, key, 0) {
            Some(JsonValue::Text(s)) => Some(s@),
            _ => None,
        },
        _ => None,
    }
}

/// The position of the first field named `key`.
fn find_field(fields: &Vec<(String, JsonValue)>, key: &Vec<char>) -> (r: Option<usize>)
    ensures
        match r {
            Some(i) => i < fields@.len() && field_from(fields@, key@, 0) == Some(fields@[i as int].1),
            None => field_from(fields@, key@, 0) is None,
        },
{
    let mut i: usize = 0;
    while i < fields.len()
        invariant
            i <= fields@.len(),
            field_from(fields@, key@, 0) == field_from(fields@, key@, i as int),
        decreases fields@.len() - i,
    {
        if chars_eq(&chars_of(fields[i].0.as_str()), key) {
            return Some(i);
        }
        i = i + 1;
    }
    None
}

/// `value[key].as_str()`.
pub fn get_str_field(v: &JsonValue, key: &str) -> (r: Option<String>)
    ensures
        match r {
            Some(s) => str_field(*v, key@) == Some(s@),
            None => str_field(*v, key@) is None,
        },
{
    match v {
        JsonValue::Object(fields) => {
            let k = chars_of(key);
            match find_field(fields, &k) {
                Some(i) => match &fields[i].1 {
                    JsonValue::Text(s) => Some(s.clone()),
                    _ => None,
                },
                None => None,
            }
        },
        _ => None,
    }
}

} // verus!
