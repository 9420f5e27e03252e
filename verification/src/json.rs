//! What a JSON text says, as `serde_json` reads it.
//!
//! `serde_json::Value` is opaque here. Its contents are a [`Json`] tree, and
//! the methods that are called on it are stated over that tree.
use serde_json::Value;
use vstd::prelude::*;

verus! {

/// The contents of a JSON value. A number is held as the integer it is, or as
/// `None` where it is read as a floating-point one: written with a fraction
/// or an exponent (`1.0` and `1e3` among them), `-0`, or below the least
/// `i64` or above the greatest `u64`. An object has one value under each of
/// its names.
pub enum Json {
    Null,
    Bool(bool),
    Number(Option<int>),
    Text(Seq<char>),
    Array(Seq<Json>),
    Object(Map<Seq<char>, Json>),
}

impl Json {
    /// The value under `name`, where this is an object that has one.
    pub open spec fn member(self, name: Seq<char>) -> Option<Json> {
        match self {
            Json::Object(members) if members.dom().contains(name) => Some(members[name]),
            _ => None,
        }
    }

    /// The boolean that this is, if it is one.
    pub open spec fn boolean(self) -> Option<bool> {
        match self {
            Json::Bool(value) => Some(value),
            _ => None,
        }
    }

    /// The integer that this is, if it is one and an `i64` or a `u64` holds
    /// it.
    pub open spec fn integer(self) -> Option<int> {
        match self {
            Json::Number(Some(value)) if i64::MIN <= value <= u64::MAX => Some(value),
            _ => None,
        }
    }

    /// The text that this is, if it is one.
    pub open spec fn text(self) -> Option<Seq<char>> {
        match self {
            Json::Text(value) => Some(value),
            _ => None,
        }
    }
}

/// `serde_json`'s JSON value.
#[verifier::external_type_specification]
#[verifier::external_body]
pub struct ExValue(serde_json::Value);

/// The contents of a `serde_json::Value`.
pub uninterp spec fn json_of(value: Value) -> Json;

/// What `serde_json::from_str` makes of a text: its contents, or what it says
/// is wrong with it.
pub uninterp spec fn json_read(text: Seq<char>) -> Result<Json, Seq<char>>;

/// `serde_json::from_str` into a `Value`, its error as the text that it
/// displays: the contents of the value, or the text of the failure, depend on
/// nothing but `text`. Which texts are JSON, and what they hold, is left to
/// `serde_json`.
#[verifier::external_body]
pub(crate) fn parse(text: &str) -> (read: Result<Value, String>)
    ensures
        match read {
            Ok(value) => json_read(text@) == Ok::<Json, Seq<char>>(json_of(value)),
            Err(failure) => json_read(text@) == Err::<Json, Seq<char>>(failure@),
        },
{
    match serde_json::from_str(text) {
        Ok(value) => Ok(value),
        Err(failure) => Err(failure.to_string()),
    }
}

/// `Value::get` with a name: the value under that name where `value` is an
/// object that has one, `None` where it is anything else.
#[verifier::external_body]
pub(crate) fn member<'a>(value: &'a Value, name: &str) -> (found: Option<&'a Value>)
    ensures
        match found {
            Some(inner) => json_of(*value).member(name@) == Some(json_of(*inner)),
            None => json_of(*value).member(name@) is None,
        },
{
    value.get(name)
}

/// `Value::is_null`: whether the value is `null`.
pub assume_specification[ Value::is_null ](value: &Value) -> (found: bool)
    ensures
        found == (json_of(*value) is Null),
;

/// `Value::as_bool`: the boolean of a boolean.
pub assume_specification[ Value::as_bool ](value: &Value) -> (found: Option<bool>)
    ensures
        found == json_of(*value).boolean(),
;

/// `Value::as_i64`: the integer of a number that is one and that an `i64`
/// holds.
pub assume_specification[ Value::as_i64 ](value: &Value) -> (found: Option<i64>)
    ensures
        found == match json_of(*value).integer() {
            Some(integer) if integer <= i64::MAX => Some(integer as i64),
            _ => None,
        },
;

/// `Value::as_u64`: the integer of a number that is one and that a `u64`
/// holds.
pub assume_specification[ Value::as_u64 ](value: &Value) -> (found: Option<u64>)
    ensures
        found == match json_of(*value).integer() {
            Some(integer) if integer >= 0 => Some(integer as u64),
            _ => None,
        },
;

/// `Value::as_str`: the text of a string.
pub assume_specification[ Value::as_str ](value: &Value) -> (found: Option<&str>)
    ensures
        match found {
            Some(text) => json_of(*value).text() == Some(text@),
            None => json_of(*value).text() is None,
        },
;

/// `Value::as_array`: the elements of an array, in order.
pub assume_specification[ Value::as_array ](value: &Value) -> (found: Option<&Vec<Value>>)
    ensures
        match found {
            Some(elements) => json_of(*value) == Json::Array(
                elements@.map_values(|element: Value| json_of(element)),
            ),
            None => !(json_of(*value) is Array),
        },
;

} // verus!
