//! JSON values, as `serde_json` holds them.
//!
//! The simulator carries JSON values without looking into them, and it
//! builds a few: the records of the event log. The functions of `serde_json`
//! that it calls for that are not verified here. Each stands behind one
//! small function of this module, whose contract says what is taken for
//! granted, over a name for the value that the call returns.

use vstd::prelude::*;

verus! {

#[verifier::external_type_specification]
#[verifier::external_body]
pub struct ExValue(serde_json::Value);

#[verifier::external_type_specification]
#[verifier::external_body]
pub struct ExJsonError(serde_json::Error);

/// The JSON value of an integer that may be missing: the JSON number of
/// the integer, or `null` where there is none.
pub uninterp spec fn json_optional_integer(number: Option<i64>) -> serde_json::Value;

/// The JSON value `null`.
pub open spec fn json_null() -> serde_json::Value {
    json_optional_integer(None)
}

/// The JSON string with the characters `text`.
pub uninterp spec fn json_text(text: Seq<char>) -> serde_json::Value;

/// The JSON number that is the integer `number`.
pub uninterp spec fn json_integer(number: i64) -> serde_json::Value;

/// The JSON array of `items`, in their order.
pub uninterp spec fn json_list(items: Seq<serde_json::Value>) -> serde_json::Value;

/// The JSON object that is collected from the members `members`, each a
/// key and its value. An object holds one value for a key.
pub uninterp spec fn json_record(members: Seq<(Seq<char>, serde_json::Value)>) -> serde_json::Value;

/// The compact JSON text of `value`, without a line end, where `value` can
/// be written as text.
pub uninterp spec fn json_line(value: serde_json::Value) -> Option<Seq<char>>;

/// The keys and values of `members`, as a contract speaks of them.
pub open spec fn members_view(members: Seq<(String, serde_json::Value)>) -> Seq<
    (Seq<char>, serde_json::Value),
> {
    Seq::new(members.len(), |i: int| (members[i].0@, members[i].1))
}

/// Wraps an integer that may be missing as a JSON value. This is
/// `serde_json`'s `From<Option<T>> for Value`: the value of the integer
/// where there is one, and `null` where there is none.
#[verifier::external_body]
pub(crate) fn optional_integer_value(number: Option<i64>) -> (value: serde_json::Value)
    ensures
        value == json_optional_integer(number),
        number matches Some(n) ==> value == json_integer(n),
{
    serde_json::Value::from(number)
}

/// Wraps a string as a JSON value. This is `serde_json::Value::String`: the
/// value is the JSON string with the characters of `text`.
#[verifier::external_body]
pub(crate) fn text_value(text: String) -> (value: serde_json::Value)
    ensures
        value == json_text(text@),
{
    serde_json::Value::String(text)
}

/// Wraps an integer as a JSON value. This is `serde_json`'s
/// `From<i64> for Value`: the value is the JSON number `number`.
#[verifier::external_body]
pub(crate) fn integer_value(number: i64) -> (value: serde_json::Value)
    ensures
        value == json_integer(number),
{
    serde_json::Value::from(number)
}

/// Wraps values as a JSON array. This is `serde_json::Value::Array`: the
/// array holds `items` in their order.
#[verifier::external_body]
pub(crate) fn list_value(items: Vec<serde_json::Value>) -> (value: serde_json::Value)
    ensures
        value == json_list(items@),
{
    serde_json::Value::Array(items)
}

/// Collects keys and values into a JSON object. This is `serde_json`'s
/// `FromIterator<(String, Value)> for Map`, inside `Value::Object`: the
/// object is the one that is collected from the members, in their order.
#[verifier::external_body]
pub(crate) fn record_value(members: Vec<(String, serde_json::Value)>) -> (value: serde_json::Value)
    ensures
        value == json_record(members_view(members@)),
{
    serde_json::Value::Object(members.into_iter().collect())
}

/// `Clone for serde_json::Value`, which the crate derives: the copy equals
/// the value that was copied.
pub assume_specification[ <serde_json::Value as Clone>::clone ](
    value: &serde_json::Value,
) -> (copy: serde_json::Value)
    ensures
        copy == *value,
;

/// Writes a JSON value as compact text. This is `serde_json::to_string`,
/// which computes its result from the value alone: the text of the value,
/// or an error where the value cannot be written.
#[verifier::external_body]
pub(crate) fn value_line(value: &serde_json::Value) -> (line: Result<String, serde_json::Error>)
    ensures
        match line {
            Ok(text) => json_line(*value) == Some(text@),
            Err(_) => json_line(*value) is None,
        },
{
    serde_json::to_string(value)
}

/// The message of a `serde_json` error. This is `to_string` on
/// `serde_json::Error`, through its `Display`. Nothing is claimed of the
/// text: where the error wraps an error of the operating system, the text
/// comes from there.
#[verifier::external_body]
pub(crate) fn error_text(error: &serde_json::Error) -> (text: String) {
    error.to_string()
}

} // verus!
