//! The few JSON operations the decoder needs, each relying on `serde_json`.

use vstd::prelude::*;
use vstd::utf8::{decode_utf8, valid_utf8};

verus! {

#[verifier::external_type_specification]
#[verifier::external_body]
pub struct ExValue(serde_json::Value);

/// Relies on the derived `Clone` of `serde_json::Value`: a deep copy.
pub assume_specification[ <serde_json::Value as Clone>::clone ](v: &serde_json::Value) -> (r:
    serde_json::Value)
    ensures
        r == *v,
;

/// The value that a JSON text denotes, or JSON `null` where the text is not valid JSON.
pub uninterp spec fn json_or_null(text: Seq<char>) -> serde_json::Value;

/// The member of a JSON value under a key (none unless the value is an object holding it).
pub uninterp spec fn json_member(v: serde_json::Value, key: Seq<char>) -> Option<serde_json::Value>;

/// The characters of a JSON value that is a string (none for any other value).
pub uninterp spec fn json_str(v: serde_json::Value) -> Option<Seq<char>>;

/// Relies on `serde_json::from_str`: parses a JSON text; a text that fails to parse
/// becomes `null`. The result depends on the text alone.
#[verifier::external_body]
pub(crate) fn parse_json_or_null(text: &str) -> (r: serde_json::Value)
    ensures
        r == json_or_null(text@),
{
    serde_json::from_str(text).unwrap_or(serde_json::Value::Null)
}

/// Relies on `serde_json::Value::get` with a string key: the member under `key`, if the
/// value is an object that holds one.
#[verifier::external_body]
pub(crate) fn member<'a>(v: &'a serde_json::Value, key: &str) -> (r: Option<&'a serde_json::Value>)
    ensures
        match r {
            Some(m) => json_member(*v, key@) == Some(*m),
            None => json_member(*v, key@) is None,
        },
{
    v.get(key)
}

/// Relies on `serde_json::Value::as_str`: the characters of a JSON string value.
#[verifier::external_body]
pub(crate) fn string_of(v: &serde_json::Value) -> (r: Option<String>)
    ensures
        match r {
            Some(s) => json_str(*v) == Some(s@),
            None => json_str(*v) is None,
        },
{
    v.as_str().map(String::from)
}

/// Relies on `std::str::from_utf8`: the text of a byte sequence that is valid UTF-8.
#[verifier::external_body]
pub(crate) fn utf8_text(b: &[u8]) -> (r: Option<&str>)
    ensures
        match r {
            Some(s) => valid_utf8(b@) && s@ == decode_utf8(b@),
            None => !valid_utf8(b@),
        },
{
    std::str::from_utf8(b).ok()
}

/// The elements of a JSON value that is an array (none for any other value).
pub uninterp spec fn json_items(v: serde_json::Value) -> Option<Seq<serde_json::Value>>;

/// Relies on `serde_json::Value::as_array`: the elements of a JSON array, in order.
#[verifier::external_body]
pub(crate) fn items_of(v: &serde_json::Value) -> (r: Option<&Vec<serde_json::Value>>)
    ensures
        match r {
            Some(a) => json_items(*v) == Some(a@),
            None => json_items(*v) is None,
        },
{
    v.as_array()
}

/// The value of a JSON boolean (none for any other value).
pub uninterp spec fn json_bool(v: serde_json::Value) -> Option<bool>;

/// Whether a JSON value is `null`.
pub uninterp spec fn json_null(v: serde_json::Value) -> bool;

/// Relies on `serde_json::Value::as_bool`: the value of a JSON boolean.
#[verifier::external_body]
pub(crate) fn bool_of(v: &serde_json::Value) -> (r: Option<bool>)
    ensures
        r == json_bool(*v),
{
    v.as_bool()
}

/// Relies on `serde_json::Value::is_null`: whether the value is `null`.
#[verifier::external_body]
pub(crate) fn is_null(v: &serde_json::Value) -> (r: bool)
    ensures
        r == json_null(*v),
{
    v.is_null()
}

/// The string under `key` in `v`, if `v` is an object whose member there is a string.
pub open spec fn str_member(v: serde_json::Value, key: Seq<char>) -> Option<Seq<char>> {
    match json_member(v, key) {
        Some(m) => json_str(m),
        None => None,
    }
}

/// The string under `key` in `v`, as `str_member` states.
pub(crate) fn get_str(v: &serde_json::Value, key: &str) -> (r: Option<String>)
    ensures
        match r {
            Some(s) => str_member(*v, key@) == Some(s@),
            None => str_member(*v, key@) is None,
        },
{
    match member(v, key) {
        Some(m) => string_of(m),
        None => None,
    }
}

} // verus!
