//! Json documents, kept as their text. What the library reads of one is asked
//! of `serde_json`, and each answer is a function of the text alone.

use vstd::prelude::*;

use crate::text::strings_view;

verus! {

/// The kinds of json value.
#[derive(Debug, Clone, Copy, PartialEq, Eq, Structural)]
pub enum JsonKind {
    Null,
    Bool,
    Number,
    String,
    Array,
    Object,
}

/// `{}`, a json object with no keys.
pub const EMPTY_OBJECT: &'static str = "{}";

/// Why `text` is not a json document, as `serde_json::from_str` words it, or
/// `None` when it is one.
pub uninterp spec fn json_parse_error(text: Seq<char>) -> Option<Seq<char>>;

/// The kind of value the json document `text` is, when it is one.
pub uninterp spec fn json_kind_of(text: Seq<char>) -> Option<JsonKind>;

/// The value under `key` of the json object `text`, written out compactly,
/// when `text` is an object holding `key`.
pub uninterp spec fn json_field_of(text: Seq<char>, key: Seq<char>) -> Option<Seq<char>>;

/// The string the json document `text` is, unescaped, when it is a string.
pub uninterp spec fn json_str_of(text: Seq<char>) -> Option<Seq<char>>;

/// The number the json document `text` is, when it is a whole number from 0
/// to `u64::MAX`.
pub uninterp spec fn json_u64_of(text: Seq<char>) -> Option<u64>;

/// The keys of the json object `text`, in the order `serde_json` keeps them,
/// when it is an object.
pub uninterp spec fn json_keys_of(text: Seq<char>) -> Option<Seq<Seq<char>>>;

/// Whether `text` is a json document, by parsing it with
/// `serde_json::from_str`: the parser's message when it is not. The kind of a
/// document that parses is known, and one that does not parse has none.
#[verifier::external_body]
pub(crate) fn check_json(text: &str) -> (r: Result<JsonKind, String>)
    ensures
        match json_parse_error(text@) {
            None => r is Ok && json_kind_of(text@) == Some(r->Ok_0),
            Some(e) => r matches Err(m) && m@ == e && json_kind_of(text@) is None,
        },
{
    match serde_json::from_str::<serde_json::Value>(text) {
        Ok(serde_json::Value::Null) => Ok(JsonKind::Null),
        Ok(serde_json::Value::Bool(_)) => Ok(JsonKind::Bool),
        Ok(serde_json::Value::Number(_)) => Ok(JsonKind::Number),
        Ok(serde_json::Value::String(_)) => Ok(JsonKind::String),
        Ok(serde_json::Value::Array(_)) => Ok(JsonKind::Array),
        Ok(serde_json::Value::Object(_)) => Ok(JsonKind::Object),
        Err(e) => Err(e.to_string()),
    }
}

/// Parses `text` and takes `.get(key)` of it, written back out with
/// `to_string`: the field's own json, when `text` is an object holding `key`.
#[verifier::external_body]
pub(crate) fn json_field(text: &str, key: &str) -> (r: Option<String>)
    ensures
        match r {
            Some(f) => json_field_of(text@, key@) == Some(f@),
            None => json_field_of(text@, key@) is None,
        },
{
    match serde_json::from_str::<serde_json::Value>(text) {
        Ok(v) => match v.get(key) {
            Some(f) => Some(f.to_string()),
            None => None,
        },
        Err(_) => None,
    }
}

/// Parses `text` and takes `.as_str()` of it.
#[verifier::external_body]
pub(crate) fn json_str(text: &str) -> (r: Option<String>)
    ensures
        match r {
            Some(s) => json_str_of(text@) == Some(s@),
            None => json_str_of(text@) is None,
        },
{
    match serde_json::from_str::<serde_json::Value>(text) {
        Ok(serde_json::Value::String(s)) => Some(s),
        _ => None,
    }
}

/// Parses `text` and takes `.as_u64()` of it.
#[verifier::external_body]
pub(crate) fn json_u64(text: &str) -> (r: Option<u64>)
    ensures
        r == json_u64_of(text@),
{
    match serde_json::from_str::<serde_json::Value>(text) {
        Ok(v) => v.as_u64(),
        Err(_) => None,
    }
}

/// Parses `text` and takes the keys of `.as_object()` of it.
#[verifier::external_body]
pub(crate) fn json_keys(text: &str) -> (r: Option<Vec<String>>)
    ensures
        match r {
            Some(k) => json_keys_of(text@) == Some(strings_view(k@)),
            None => json_keys_of(text@) is None,
        },
{
    match serde_json::from_str::<serde_json::Value>(text) {
        Ok(serde_json::Value::Object(map)) => Some(map.keys().cloned().collect()),
        _ => None,
    }
}

} // verus!
