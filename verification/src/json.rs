//! The boundary to `serde_json`.
//!
//! A JSON document is carried as a `serde_json::Value`, which the verifier
//! cannot look into. Everything in this file is believed, not proved: each
//! item names the `serde_json` function it stands for and says what is
//! claimed of it. The claims are all of one kind: a function's result is
//! determined by the document (or text) it is applied to, so that it can be
//! given a name in specifications.

use serde_json::Value;
use vstd::prelude::*;

verus! {

/// `serde_json::Value`, a JSON document of any shape. Opaque to the verifier.
#[verifier::external_type_specification]
#[verifier::external_body]
pub struct ExValue(serde_json::Value);

/// `serde_json::Error`, what `serde_json` reports for text that is not JSON.
#[verifier::external_type_specification]
#[verifier::external_body]
pub struct ExJsonError(serde_json::Error);

/// The document that `serde_json::from_str` reads from `text`, or `None`
/// where it reports an error.
pub uninterp spec fn json_document(text: Seq<char>) -> Option<Value>;

/// The entries of `v`, key and value, in the order in which its map hands
/// them out, where `v` is a JSON object; `None` where it is anything else.
pub uninterp spec fn json_entries(v: Value) -> Option<Seq<(Seq<char>, Value)>>;

/// What `Value::get` returns for `v` and the string `key`: the value under
/// `key` where `v` is an object that has the key.
pub uninterp spec fn json_field(v: Value, key: Seq<char>) -> Option<Value>;

/// What `Value::as_str` returns for `v`: the text of `v` where `v` is a JSON string.
pub uninterp spec fn json_str(v: Value) -> Option<Seq<char>>;

/// What `Value::as_bool` returns for `v`: the boolean where `v` is one.
pub uninterp spec fn json_bool(v: Value) -> Option<bool>;

/// What `Value::as_i64` returns for `v`: the number where `v` is an integer
/// that an `i64` can hold.
pub uninterp spec fn json_i64(v: Value) -> Option<i64>;

/// The entries of an object as exec code holds them, by the keys' views.
pub open spec fn entry_views(entries: Seq<(String, Value)>) -> Seq<(Seq<char>, Value)> {
    entries.map_values(|e: (String, Value)| (e.0@, e.1))
}

/// Calls `serde_json::from_str` to read one `Value` from `text`.
///
/// Claimed: whether it succeeds, and the document it returns, depend on the
/// text alone.
#[verifier::external_body]
pub(crate) fn parse_document(text: &str) -> (r: Result<Value, serde_json::Error>)
    ensures
        match r {
            Ok(v) => json_document(text@) == Some(v),
            Err(_) => json_document(text@) is None,
        },
{
    serde_json::from_str::<Value>(text)
}

/// Takes an object apart with `serde_json::Map::into_iter`.
///
/// Claimed: an object yields its entries in the map's own order, and any
/// other document yields `None`.
#[verifier::external_body]
pub(crate) fn into_entries(v: Value) -> (r: Option<Vec<(String, Value)>>)
    ensures
        match r {
            Some(entries) => json_entries(v) == Some(entry_views(entries@)),
            None => json_entries(v) is None,
        },
{
    match v {
        Value::Object(map) => Some(map.into_iter().collect()),
        _ => None,
    }
}

/// Calls `Value::get` with a string key.
///
/// Claimed: the result depends on the document and the key alone.
#[verifier::external_body]
pub(crate) fn field<'a>(v: &'a Value, key: &str) -> (r: Option<&'a Value>)
    ensures
        match r {
            Some(found) => json_field(*v, key@) == Some(*found),
            None => json_field(*v, key@) is None,
        },
{
    v.get(key)
}

/// `Value::as_str`. Claimed: the result depends on the document alone.
pub assume_specification<'a>[ serde_json::Value::as_str ](v: &'a Value) -> (r: Option<&'a str>)
    ensures
        match r {
            Some(text) => json_str(*v) == Some(text@),
            None => json_str(*v) is None,
        },
;

/// `Value::as_bool`. Claimed: the result depends on the document alone.
pub assume_specification[ serde_json::Value::as_bool ](v: &Value) -> (r: Option<bool>)
    ensures
        r == json_bool(*v),
;

/// `Value::as_i64`. Claimed: the result depends on the document alone.
pub assume_specification[ serde_json::Value::as_i64 ](v: &Value) -> (r: Option<i64>)
    ensures
        r == json_i64(*v),
;

/// `Value::clone`. Claimed: the copy is the same document.
pub assume_specification[ <serde_json::Value as Clone>::clone ](v: &Value) -> (r: Value)
    ensures
        r == *v,
;

} // verus!
