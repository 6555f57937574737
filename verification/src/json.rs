//! Opening JSON values.
//!
//! A value is `serde_json`'s own, carried through unopened; what is read off it goes
//! through the few calls named here.

use crate::config::maybe_string;
use crate::double::Double;
use vstd::prelude::*;

verus! {

/// `serde_json::Value`: a JSON value, carried through unopened.
#[verifier::external_type_specification]
#[verifier::external_body]
pub struct ExJsonValue(serde_json::Value);

/// The value that a JSON text stands for, if it is one.
pub uninterp spec fn json_value(text: Seq<char>) -> Option<serde_json::Value>;

/// The value under a key of a JSON object, if there is one.
pub uninterp spec fn json_member(value: serde_json::Value, key: Seq<char>) -> Option<
    serde_json::Value,
>;

/// The text that a value is, if it is one.
pub uninterp spec fn json_text(value: serde_json::Value) -> Option<Seq<char>>;

/// The number that a value is, by the bit pattern of the nearest double, if it is one.
pub uninterp spec fn json_number(value: serde_json::Value) -> Option<u64>;

/// The integer that a value is, if it is one that fits.
pub uninterp spec fn json_integer(value: serde_json::Value) -> Option<i64>;

/// The integer that a value is, if it is one that is not negative and fits.
pub uninterp spec fn json_unsigned(value: serde_json::Value) -> Option<u64>;

/// The truth value that a value is, if it is one.
pub uninterp spec fn json_boolean(value: serde_json::Value) -> Option<bool>;

/// The items of the array that a value is, if it is one.
pub uninterp spec fn json_items(value: serde_json::Value) -> Option<Seq<serde_json::Value>>;

/// Whether a value is `null`.
pub uninterp spec fn json_is_null(value: serde_json::Value) -> bool;

/// `serde_json::from_str`: the value of a JSON text, a function of the text alone.
#[verifier::external_body]
pub(crate) fn parse_json(text: &str) -> (value: Option<serde_json::Value>)
    ensures
        value == json_value(text@),
{
    serde_json::from_str(text).ok()
}

/// `serde_json::Value::get` with a text, and a copy of what it finds: the value under a
/// key of an object; nothing where the value is no object.
#[verifier::external_body]
pub(crate) fn member(value: &serde_json::Value, key: &str) -> (found: Option<serde_json::Value>)
    ensures
        found == json_member(*value, key@),
{
    value.get(key).cloned()
}

/// `serde_json::Value::as_str`: the text that a value is.
#[verifier::external_body]
pub(crate) fn text_of(value: &serde_json::Value) -> (text: Option<String>)
    ensures
        maybe_string(text) == json_text(*value),
{
    value.as_str().map(|text| text.to_owned())
}

/// `serde_json::Value::as_f64`: the number that a value is. A JSON number is never
/// infinite and never not a number.
#[verifier::external_body]
pub(crate) fn number_of(value: &serde_json::Value) -> (number: Option<Double>)
    ensures
        (match number {
            Some(n) => Some(n.bits),
            None => None,
        }) == json_number(*value),
        number matches Some(n) ==> n.finite(),
{
    value.as_f64().map(|number| Double { bits: number.to_bits() })
}

/// `serde_json::Value::as_i64`: the integer that a value is.
#[verifier::external_body]
pub(crate) fn integer_of(value: &serde_json::Value) -> (integer: Option<i64>)
    ensures
        integer == json_integer(*value),
{
    value.as_i64()
}

/// `serde_json::Value::as_u64`: the integer that a value is, where it is not negative.
#[verifier::external_body]
pub(crate) fn unsigned_of(value: &serde_json::Value) -> (integer: Option<u64>)
    ensures
        integer == json_unsigned(*value),
{
    value.as_u64()
}

/// `serde_json::Value::as_bool`: the truth value that a value is.
#[verifier::external_body]
pub(crate) fn boolean_of(value: &serde_json::Value) -> (boolean: Option<bool>)
    ensures
        boolean == json_boolean(*value),
{
    value.as_bool()
}

/// `serde_json::Value::as_array`, and a copy of what it finds: the items of the array
/// that a value is.
#[verifier::external_body]
pub(crate) fn items_of(value: &serde_json::Value) -> (items: Option<Vec<serde_json::Value>>)
    ensures
        (match items {
            Some(list) => Some(list@),
            None => None,
        }) == json_items(*value),
{
    value.as_array().cloned()
}

/// `serde_json::Value::is_null`: whether a value is `null`.
#[verifier::external_body]
pub(crate) fn is_null(value: &serde_json::Value) -> (yes: bool)
    ensures
        yes == json_is_null(*value),
{
    value.is_null()
}

/// The value under a key, where there is a value to look into.
pub open spec fn under(value: Option<serde_json::Value>, key: Seq<char>) -> Option<
    serde_json::Value,
> {
    match value {
        Some(v) => json_member(v, key),
        None => None,
    }
}

/// The text under a key, where there is one.
pub open spec fn text_under(value: Option<serde_json::Value>, key: Seq<char>) -> Option<Seq<char>> {
    match under(value, key) {
        Some(v) => json_text(v),
        None => None,
    }
}

/// The number under a key, by its bit pattern, where there is one.
pub open spec fn number_under(value: Option<serde_json::Value>, key: Seq<char>) -> Option<u64> {
    match under(value, key) {
        Some(v) => json_number(v),
        None => None,
    }
}

/// The integer under a key, where there is one.
pub open spec fn integer_under(value: Option<serde_json::Value>, key: Seq<char>) -> Option<i64> {
    match under(value, key) {
        Some(v) => json_integer(v),
        None => None,
    }
}

/// The integer that is not negative under a key, where there is one.
pub open spec fn unsigned_under(value: Option<serde_json::Value>, key: Seq<char>) -> Option<u64> {
    match under(value, key) {
        Some(v) => json_unsigned(v),
        None => None,
    }
}

/// The truth value under a key, where there is one.
pub open spec fn boolean_under(value: Option<serde_json::Value>, key: Seq<char>) -> Option<bool> {
    match under(value, key) {
        Some(v) => json_boolean(v),
        None => None,
    }
}

/// The value that may be there, as it is.
pub open spec fn held(value: Option<&serde_json::Value>) -> Option<serde_json::Value> {
    match value {
        Some(v) => Some(*v),
        None => None,
    }
}

/// The value under a key, where there is a value to look into.
pub fn member_at(value: Option<&serde_json::Value>, key: &str) -> (found: Option<
    serde_json::Value,
>)
    ensures
        found == under(held(value), key@),
{
    match value {
        Some(v) => member(v, key),
        None => None,
    }
}

/// The text under a key, where there is one.
pub fn text_at(value: Option<&serde_json::Value>, key: &str) -> (text: Option<String>)
    ensures
        maybe_string(text) == text_under(held(value), key@),
{
    match member_at(value, key) {
        Some(v) => text_of(&v),
        None => None,
    }
}

/// The number under a key, where there is one.
pub fn number_at(value: Option<&serde_json::Value>, key: &str) -> (number: Option<Double>)
    ensures
        (match number {
            Some(n) => Some(n.bits),
            None => None,
        }) == number_under(held(value), key@),
        number matches Some(n) ==> n.finite(),
{
    match member_at(value, key) {
        Some(v) => number_of(&v),
        None => None,
    }
}

/// The integer under a key, where there is one.
pub fn integer_at(value: Option<&serde_json::Value>, key: &str) -> (integer: Option<i64>)
    ensures
        integer == integer_under(held(value), key@),
{
    match member_at(value, key) {
        Some(v) => integer_of(&v),
        None => None,
    }
}

/// The integer that is not negative under a key, where there is one.
pub fn unsigned_at(value: Option<&serde_json::Value>, key: &str) -> (integer: Option<u64>)
    ensures
        integer == unsigned_under(held(value), key@),
{
    match member_at(value, key) {
        Some(v) => unsigned_of(&v),
        None => None,
    }
}

/// The truth value under a key, where there is one.
pub fn boolean_at(value: Option<&serde_json::Value>, key: &str) -> (boolean: Option<bool>)
    ensures
        boolean == boolean_under(held(value), key@),
{
    match member_at(value, key) {
        Some(v) => boolean_of(&v),
        None => None,
    }
}

/// What stands under a key is read as what it is, and nothing is read where nothing stands.
pub proof fn what_stands_under_a_key_is_read(
    value: serde_json::Value,
    key: Seq<char>,
    found: serde_json::Value,
)
    ensures
        json_member(value, key) == Some(found) ==> text_under(Some(value), key) == json_text(found)
            && number_under(Some(value), key) == json_number(found) && integer_under(
            Some(value),
            key,
        ) == json_integer(found) && unsigned_under(Some(value), key) == json_unsigned(found)
            && boolean_under(Some(value), key) == json_boolean(found) && under(Some(value), key)
            == Some(found),
        json_member(value, key) is None ==> text_under(Some(value), key) is None && number_under(
            Some(value),
            key,
        ) is None && integer_under(Some(value), key) is None && unsigned_under(
            Some(value),
            key,
        ) is None && boolean_under(Some(value), key) is None && under(Some(value), key) is None,
        text_under(None, key) is None,
{
}

} // verus!
