//! Reading JSON answers, one step at a time: a member of an object, the
//! items of an array, a number, a flag or a text. Each step is serde_json's
//! and hands on the JSON text of what it found, so that the next step reads
//! that text again.
use vstd::prelude::*;

verus! {

/// The member `key` of the object `text` holds, as JSON text (serde_json's
/// `from_str::<Value>`, `Value::get`, `Value::to_string`): nothing where the
/// text does not parse, is no object or has no such member.
pub uninterp spec fn json_field(text: Seq<char>, key: Seq<char>) -> Option<Seq<char>>;

/// The items of the array `text` holds, each as JSON text (`Value::as_array`).
pub uninterp spec fn json_array(text: Seq<char>) -> Option<Seq<Seq<char>>>;

/// The number `text` holds, where it fits an `i64` (`Value::as_i64`).
pub uninterp spec fn json_int(text: Seq<char>) -> Option<i64>;

/// The flag `text` holds (`Value::as_bool`).
pub uninterp spec fn json_flag(text: Seq<char>) -> Option<bool>;

/// The string `text` holds (`Value::as_str`).
pub uninterp spec fn json_string(text: Seq<char>) -> Option<Seq<char>>;

/// `serde_json::from_str::<serde_json::Value>`, `Value::get(key)` and
/// `Value::to_string` (serde_json); the result is named.
#[verifier::external_body]
pub(crate) fn read_field(text: &str, key: &str) -> (r: Option<String>)
    ensures
        match r {
            Some(s) => json_field(text@, key@) == Some(s@),
            None => json_field(text@, key@) is None,
        },
{
    serde_json::from_str::<serde_json::Value>(text).ok()?.get(key).map(|v| v.to_string())
}

pub open spec fn texts_view(v: Seq<String>) -> Seq<Seq<char>> {
    v.map_values(|s: String| s@)
}

/// `serde_json::from_str::<serde_json::Value>`, `Value::as_array` and
/// `Value::to_string` of each item (serde_json); the result is named.
#[verifier::external_body]
pub(crate) fn read_items(text: &str) -> (r: Option<Vec<String>>)
    ensures
        match r {
            Some(v) => json_array(text@) == Some(texts_view(v@)),
            None => json_array(text@) is None,
        },
{
    let v = serde_json::from_str::<serde_json::Value>(text).ok()?;
    v.as_array().map(|a| a.iter().map(|x| x.to_string()).collect())
}

/// `serde_json::from_str::<serde_json::Value>` and `Value::as_i64`
/// (serde_json); the result is named.
#[verifier::external_body]
pub(crate) fn read_int(text: &str) -> (r: Option<i64>)
    ensures
        r == json_int(text@),
{
    serde_json::from_str::<serde_json::Value>(text).ok()?.as_i64()
}

/// `serde_json::from_str::<serde_json::Value>` and `Value::as_bool`
/// (serde_json); the result is named.
#[verifier::external_body]
pub(crate) fn read_flag(text: &str) -> (r: Option<bool>)
    ensures
        r == json_flag(text@),
{
    serde_json::from_str::<serde_json::Value>(text).ok()?.as_bool()
}

/// `serde_json::from_str::<serde_json::Value>` and `Value::as_str`
/// (serde_json); the result is named.
#[verifier::external_body]
pub(crate) fn read_string(text: &str) -> (r: Option<String>)
    ensures
        match r {
            Some(s) => json_string(text@) == Some(s@),
            None => json_string(text@) is None,
        },
{
    serde_json::from_str::<serde_json::Value>(text).ok()?.as_str().map(str::to_string)
}

} // verus!
