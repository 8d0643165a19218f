//! JSON values of trace lines.

use vstd::prelude::*;
use serde_json::Value;

verus! {

/// A parsed JSON value.
#[verifier::external_type_specification]
#[verifier::external_body]
pub struct ExValue(serde_json::Value);

/// Why a text is no JSON.
#[verifier::external_type_specification]
#[verifier::external_body]
pub struct ExJsonError(serde_json::Error);

/// What `serde_json::from_str` makes of a text.
pub uninterp spec fn json_of(text: Seq<char>) -> Result<Value, serde_json::Error>;

/// The message of a JSON error.
pub uninterp spec fn fault_text(e: serde_json::Error) -> Seq<char>;

/// The member of an object under a key.
pub uninterp spec fn member_of(v: Value, key: Seq<char>) -> Option<Value>;

/// The unsigned number that a value is.
pub uninterp spec fn number_of(v: Value) -> Option<u64>;

/// The text that a value is.
pub uninterp spec fn text_of(v: Value) -> Option<Seq<char>>;

/// The elements of the array that a value is.
pub uninterp spec fn items_of(v: Value) -> Option<Seq<Value>>;

/// The bits of the double-precision number that a value is.
pub uninterp spec fn bits_of(v: Value) -> Option<u64>;

/// `serde_json::from_str` into a value: its result is named after the text alone.
#[verifier::external_body]
pub(crate) fn parse(text: &str) -> (parsed: Result<Value, serde_json::Error>)
    ensures
        parsed == json_of(text@),
{
    serde_json::from_str(text)
}

/// `to_string` of a `serde_json::Error`: the text is named after the error alone.
#[verifier::external_body]
pub(crate) fn fault(e: &serde_json::Error) -> (text: String)
    ensures
        text@ == fault_text(*e),
{
    e.to_string()
}

/// `Value::get` with a key: the member is named after the value and the key alone.
#[verifier::external_body]
pub(crate) fn member<'a>(v: &'a Value, key: &str) -> (m: Option<&'a Value>)
    ensures
        m is Some <==> member_of(*v, key@) is Some,
        m matches Some(x) ==> member_of(*v, key@) == Some(*x),
{
    v.get(key)
}

/// `Value::as_u64`: the number is named after the value alone.
#[verifier::external_body]
pub(crate) fn number(v: &Value) -> (n: Option<u64>)
    ensures
        n == number_of(*v),
{
    v.as_u64()
}

/// `Value::as_str`: the text is named after the value alone.
#[verifier::external_body]
pub(crate) fn string(v: &Value) -> (s: Option<&str>)
    ensures
        s is Some <==> text_of(*v) is Some,
        s matches Some(x) ==> text_of(*v) == Some(x@),
{
    v.as_str()
}

/// `Value::as_array`: the elements are named after the value alone.
#[verifier::external_body]
pub(crate) fn items(v: &Value) -> (a: Option<&Vec<Value>>)
    ensures
        a is Some <==> items_of(*v) is Some,
        a matches Some(x) ==> items_of(*v) == Some(x@),
{
    v.as_array()
}

/// `Value::as_f64`, by the bits of the number: they are named after the value
/// alone.
#[verifier::external_body]
pub(crate) fn float_bits(v: &Value) -> (bits: Option<u64>)
    ensures
        bits == bits_of(*v),
{
    v.as_f64().map(|x| x.to_bits())
}

// ---- members by key ------------------------------------------------------

/// The unsigned number under a key.
pub open spec fn number_at(v: Value, key: Seq<char>) -> Option<u64> {
    match member_of(v, key) {
        Some(m) => number_of(m),
        None => None,
    }
}

/// The text under a key.
pub open spec fn text_at(v: Value, key: Seq<char>) -> Option<Seq<char>> {
    match member_of(v, key) {
        Some(m) => text_of(m),
        None => None,
    }
}

/// The bits of the number under a key.
pub open spec fn bits_at(v: Value, key: Seq<char>) -> Option<u64> {
    match member_of(v, key) {
        Some(m) => bits_of(m),
        None => None,
    }
}

/// The elements of the array under a key.
pub open spec fn items_at(v: Value, key: Seq<char>) -> Option<Seq<Value>> {
    match member_of(v, key) {
        Some(m) => items_of(m),
        None => None,
    }
}

/// The unsigned number under a key.
pub fn get_number(v: &Value, key: &str) -> (n: Option<u64>)
    ensures
        n == number_at(*v, key@),
{
    match member(v, key) {
        Some(m) => number(m),
        None => None,
    }
}

/// The text under a key.
pub fn get_string<'a>(v: &'a Value, key: &str) -> (s: Option<&'a str>)
    ensures
        s is Some <==> text_at(*v, key@) is Some,
        s matches Some(x) ==> text_at(*v, key@) == Some(x@),
{
    match member(v, key) {
        Some(m) => string(m),
        None => None,
    }
}

/// The bits of the number under a key.
pub fn get_bits(v: &Value, key: &str) -> (bits: Option<u64>)
    ensures
        bits == bits_at(*v, key@),
{
    match member(v, key) {
        Some(m) => float_bits(m),
        None => None,
    }
}

/// The elements of the array under a key.
pub fn get_items<'a>(v: &'a Value, key: &str) -> (a: Option<&'a Vec<Value>>)
    ensures
        a is Some <==> items_at(*v, key@) is Some,
        a matches Some(x) ==> items_at(*v, key@) == Some(x@),
{
    match member(v, key) {
        Some(m) => items(m),
        None => None,
    }
}

/// What stands under a key is what the member of that key is; without the member
/// there is nothing.
pub proof fn law_members_are_read_by_key(v: Value, key: Seq<char>)
    ensures
        member_of(v, key) is None ==> number_at(v, key) is None && text_at(v, key) is None
            && bits_at(v, key) is None && items_at(v, key) is None,
        member_of(v, key) matches Some(m) ==> number_at(v, key) == number_of(m) && text_at(v, key)
            == text_of(m) && bits_at(v, key) == bits_of(m) && items_at(v, key) == items_of(m),
{
}

}
