//! What the library reads from JSON texts, through serde_json.
//!
//! Each reader parses a JSON text with `serde_json::from_str::<serde_json::Value>`
//! and looks up one member of the top-level value with `Value`'s `[key]` index,
//! which gives `null` when the value is not an object or has no such member.
use vstd::prelude::*;

verus! {

/// Whether serde_json accepts the text as one JSON value.
pub uninterp spec fn json_parses(text: Seq<char>) -> bool;

/// The string member `key` of the JSON text: `None` when the text does not
/// parse or the member is absent or not a string.
pub uninterp spec fn json_str_member(text: Seq<char>, key: Seq<char>) -> Option<Seq<char>>;

/// The boolean member `key` of the JSON text: `None` when the text does not
/// parse or the member is absent or not a boolean.
pub uninterp spec fn json_bool_member(text: Seq<char>, key: Seq<char>) -> Option<bool>;

/// The array member `key` of the JSON text, each item given as its string
/// value or `None` when the item is not a string: `None` when the text does
/// not parse or the member is absent or not an array.
pub uninterp spec fn json_str_array_member(text: Seq<char>, key: Seq<char>) -> Option<
    Seq<Option<Seq<char>>>,
>;

pub open spec fn opt_view(o: Option<String>) -> Option<Seq<char>> {
    match o {
        Some(s) => Some(s@),
        None => None,
    }
}

pub open spec fn opt_views(v: Seq<Option<String>>) -> Seq<Option<Seq<char>>> {
    v.map_values(|o: Option<String>| opt_view(o))
}

/// Whether `serde_json::from_str::<Value>` accepts `text`.
#[verifier::external_body]
pub(crate) fn json_is_valid(text: &str) -> (r: bool)
    ensures
        r == json_parses(text@),
{
    serde_json::from_str::<serde_json::Value>(text).is_ok()
}

/// `serde_json::from_str::<Value>(text)`, then `value[key].as_str()`.
#[verifier::external_body]
pub(crate) fn json_get_str(text: &str, key: &str) -> (r: Option<String>)
    ensures
        opt_view(r) == json_str_member(text@, key@),
{
    serde_json::from_str::<serde_json::Value>(text).ok().and_then(
        |v| v[key].as_str().map(String::from),
    )
}

/// `serde_json::from_str::<Value>(text)`, then `value[key].as_bool()`.
#[verifier::external_body]
pub(crate) fn json_get_bool(text: &str, key: &str) -> (r: Option<bool>)
    ensures
        r == json_bool_member(text@, key@),
{
    serde_json::from_str::<serde_json::Value>(text).ok().and_then(|v| v[key].as_bool())
}

/// `serde_json::from_str::<Value>(text)`, then `value[key].as_array()`, each
/// item read with `as_str()`.
#[verifier::external_body]
pub(crate) fn json_get_str_array(text: &str, key: &str) -> (r: Option<Vec<Option<String>>>)
    ensures
        match r {
            Some(v) => json_str_array_member(text@, key@) == Some(opt_views(v@)),
            None => json_str_array_member(text@, key@) is None,
        },
{
    serde_json::from_str::<serde_json::Value>(text).ok().and_then(
        |v| v[key].as_array().map(|a| a.iter().map(|i| i.as_str().map(String::from)).collect()),
    )
}

} // verus!
