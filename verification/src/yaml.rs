//! YAML documents as this crate reads them: the value tree of a parsed
//! document and the accessors that look through tags.

use vstd::prelude::*;
use crate::text::chars_of;
use crate::text::chars_eq;

verus! {

/// A YAML value. Numbers are kept in their textual form; a tagged value
/// keeps the value it tags.
pub enum YamlValue {
    Null,
    Bool(bool),
    Number(String),
    Text(String),
    Sequence(Vec<YamlValue>),
    Mapping(Vec<(YamlValue, YamlValue)>),
    Tagged(Box<YamlValue>),
}

/// The value tree of the `serde_yaml` crate, which [`parse_yaml`] converts.
#[verifier::external_type_specification]
#[verifier::external_body]
pub struct ExSerdeYamlValue(serde_yaml::Value);

/// What `serde_yaml::from_str::<serde_yaml::Value>` yields for a text, as a
/// [`YamlValue`]; `None` for a text that is not a YAML document.
pub uninterp spec fn yaml_document(text: Seq<char>) -> Option<YamlValue>;

/// Calls `serde_yaml::from_str::<serde_yaml::Value>` and converts the value
/// variant by variant; the contract names the result and claims nothing of
/// YAML syntax.
#[verifier::external_body]
pub(crate) fn parse_yaml(text: &str) -> (r: Option<YamlValue>)
    ensures
        r == yaml_document(text@),
{
    serde_yaml::from_str::<serde_yaml::Value>(text).ok().map(from_serde)
}

/// Converts a `serde_yaml::Value` into a [`YamlValue`], variant by variant.
#[verifier::external_body]
fn from_serde(v: serde_yaml::Value) -> YamlValue {
    match v {
        serde_yaml::Value::Null => YamlValue::Null,
        serde_yaml::Value::Bool(b) => YamlValue::Bool(b),
        serde_yaml::Value::Number(n) => YamlValue::Number(n.to_string()),
        serde_yaml::Value::String(s) => YamlValue::Text(s),
        serde_yaml::Value::Sequence(items) => YamlValue::Sequence(items.into_iter().map(from_serde).collect()),
        serde_yaml::Value::Mapping(m) => YamlValue::Mapping(m.into_iter().map(|(k, x)| (from_serde(k), from_serde(x))).collect()),
        serde_yaml::Value::Tagged(t) => YamlValue::Tagged(Box::new(from_serde(t.value))),
    }
}

/// The value under its tags.
pub open spec fn untag(v: YamlValue) -> YamlValue
    decreases v,
{
    match v {
        YamlValue::Tagged(b) => untag(*b),
        _ => v,
    }
}

/// `Value::as_str`.
pub open spec fn as_str(v: YamlValue) -> Option<Seq<char>> {
    match untag(v) {
        YamlValue::Text(s) => Some(s@),
        _ => None,
    }
}

/// The textual form of a number, through tags.
pub open spec fn as_number(v: YamlValue) -> Option<Seq<char>> {
    match untag(v) {
        YamlValue::Number(s) => Some(s@),
        _ => None,
    }
}

/// `Value::as_sequence`.
pub open spec fn as_seq(v: YamlValue) -> Option<Seq<YamlValue>> {
    match untag(v) {
        YamlValue::Sequence(items) => Some(items@),
        _ => None,
    }
}

/// `Value::as_mapping`.
pub open spec fn as_map(v: YamlValue) -> Option<Seq<(YamlValue, YamlValue)>> {
    match untag(v) {
        YamlValue::Mapping(entries) => Some(entries@),
        _ => None,
    }
}

/// Whether a key is the (untagged) string `key`.
pub open spec fn is_key(k: YamlValue, key: Seq<char>) -> bool {
    k matches YamlValue::Text(s) && s@ == key
}

/// `Mapping::get` with a string key: the value of the first entry whose key
/// is that string.
pub open spec fn map_get(entries: Seq<(YamlValue, YamlValue)>, key: Seq<char>) -> Option<YamlValue>
    decreases entries.len(),
{
    if entries.len() == 0 {
        None
    } else if is_key(entries[0].0, key) {
        Some(entries[0].1)
    } else {
        map_get(entries.drop_first(), key)
    }
}

/// `Value::get` with a string key.
pub open spec fn value_get(v: YamlValue, key: Seq<char>) -> Option<YamlValue> {
    match as_map(v) {
        Some(entries) => map_get(entries, key),
        None => None,
    }
}

/// The value under its tags.
pub fn untagged(v: &YamlValue) -> (r: &YamlValue)
    ensures
        *r == untag(*v),
    decreases v,
{
    match v {
        YamlValue::Tagged(b) => untagged(b),
        _ => v,
    }
}

/// `Value::as_str`.
pub fn value_as_str(v: &YamlValue) -> (r: Option<&String>)
    ensures
        match r {
            Some(s) => as_str(*v) == Some(s@),
            None => as_str(*v) is None,
        },
{
    match untagged(v) {
        YamlValue::Text(s) => Some(s),
        _ => None,
    }
}

/// The textual form of a number.
pub fn value_as_number(v: &YamlValue) -> (r: Option<&String>)
    ensures
        match r {
            Some(s) => as_number(*v) == Some(s@),
            None => as_number(*v) is None,
        },
{
    match untagged(v) {
        YamlValue::Number(s) => Some(s),
        _ => None,
    }
}

/// `Value::as_sequence`.
pub fn value_as_seq(v: &YamlValue) -> (r: Option<&Vec<YamlValue>>)
    ensures
        match r {
            Some(items) => as_seq(*v) == Some(items@),
            None => as_seq(*v) is None,
        },
{
    match untagged(v) {
        YamlValue::Sequence(items) => Some(items),
        _ => None,
    }
}

/// `Value::as_mapping`.
pub fn value_as_map(v: &YamlValue) -> (r: Option<&Vec<(YamlValue, YamlValue)>>)
    ensures
        match r {
            Some(entries) => as_map(*v) == Some(entries@),
            None => as_map(*v) is None,
        },
{
    match untagged(v) {
        YamlValue::Mapping(entries) => Some(entries),
        _ => None,
    }
}

/// `Mapping::get` with a string key.
pub fn mapping_get<'a>(entries: &'a Vec<(YamlValue, YamlValue)>, key: &str) -> (r: Option<
    &'a YamlValue,
>)
    ensures
        match r {
            Some(v) => map_get(entries@, key@) == Some(*v),
            None => map_get(entries@, key@) is None,
        },
{
    let k = chars_of(key);
    let mut i: usize = 0;
    assert(entries@.skip(0) =~= entries@);
    while i < entries.len()
        invariant
            k@ == key@,
            i <= entries@.len(),
            map_get(entries@, key@) == map_get(entries@.skip(i as int), key@),
        decreases entries@.len() - i,
    {
        let ghost rest = entries@.skip(i as int);
        assert(rest[0] == entries@[i as int]);
        assert(rest.drop_first() =~= entries@.skip(i + 1));
        match &entries[i].0 {
            YamlValue::Text(s) => {
                let sv = chars_of(s.as_str());
                if chars_eq(&sv, &k) {
                    return Some(&entries[i].1);
                }
            },
            _ => {},
        }
        i = i + 1;
    }
    None
}

/// `Value::get` with a string key.
pub fn value_get_key<'a>(v: &'a YamlValue, key: &str) -> (r: Option<&'a YamlValue>)
    ensures
        match r {
            Some(x) => value_get(*v, key@) == Some(*x),
            None => value_get(*v, key@) is None,
        },
{
    match value_as_map(v) {
        Some(entries) => mapping_get(entries, key),
        None => None,
    }
}

} // verus!
