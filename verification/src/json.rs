//! JSON values.

use vstd::prelude::*;

verus! {

/// A value of `serde_json`.
#[verifier::external_type_specification]
#[verifier::external_body]
pub struct ExJsonValue(serde_json::Value);

/// An error of `serde_json`.
#[verifier::external_type_specification]
#[verifier::external_body]
pub struct ExJsonError(serde_json::Error);

/// What a JSON value is.
pub enum Json {
    Null,
    Bool(bool),
    /// A number, by the unsigned integer of 64 bits that it is, if it is one.
    Number(Option<u64>),
    Text(Seq<char>),
    Array(Seq<Json>),
    Object(Map<Seq<char>, Json>),
}

impl Json {
    /// The member of an object; of other values there is none.
    pub open spec fn member(self, key: Seq<char>) -> Option<Json> {
        match self {
            Json::Object(m) => if m.dom().contains(key) {
                Some(m[key])
            } else {
                None
            },
            _ => None,
        }
    }

    pub open spec fn as_u64(self) -> Option<u64> {
        match self {
            Json::Number(n) => n,
            _ => None,
        }
    }

    pub open spec fn as_text(self) -> Option<Seq<char>> {
        match self {
            Json::Text(s) => Some(s),
            _ => None,
        }
    }
}

/// What a value of `serde_json` holds.
pub uninterp spec fn json_value(v: serde_json::Value) -> Json;

/// What `serde_json::from_str` reads from a text, if it is JSON.
pub uninterp spec fn json_parsed(text: Seq<char>) -> Option<Json>;

/// Calls `serde_json::from_str`: the result depends on the text alone.
#[verifier::external_body]
pub(crate) fn parse_json(text: &str) -> (r: Result<serde_json::Value, serde_json::Error>)
    ensures
        match r {
            Ok(v) => json_parsed(text@) == Some(json_value(v)),
            Err(_) => json_parsed(text@) is None,
        },
{
    serde_json::from_str(text)
}

/// Calls `serde_json::Value::get` with a string: the member of an object under that
/// key, `None` where there is none or the value is no object.
#[verifier::external_body]
pub(crate) fn json_get<'a>(v: &'a serde_json::Value, key: &str) -> (r: Option<
    &'a serde_json::Value,
>)
    ensures
        match r {
            Some(m) => json_value(*v).member(key@) == Some(json_value(*m)),
            None => json_value(*v).member(key@) is None,
        },
{
    v.get(key)
}

/// Calls `serde_json::Value::as_u64`.
#[verifier::external_body]
pub(crate) fn json_as_u64(v: &serde_json::Value) -> (r: Option<u64>)
    ensures
        r == json_value(*v).as_u64(),
{
    v.as_u64()
}

/// Calls `serde_json::Value::as_str`: the text of a string, `None` of other values.
#[verifier::external_body]
pub(crate) fn json_as_str(v: &serde_json::Value) -> (r: Option<&str>)
    ensures
        crate::text::opt_str(r) == json_value(*v).as_text(),
{
    v.as_str()
}

/// A member of an object is found under its key, and nothing else has members; only numbers and texts
/// are read as such.
pub proof fn law_members(m: Map<Seq<char>, Json>, key: Seq<char>, v: Json, n: Option<u64>, s: Seq<char>)
    ensures
        Json::Object(m.insert(key, v)).member(key) == Some(v),
        !m.dom().contains(key) ==> Json::Object(m).member(key) is None,
        !(v is Object) ==> v.member(key) is None,
        Json::Number(n).as_u64() == n,
        !(v is Number) ==> v.as_u64() is None,
        Json::Text(s).as_text() == Some(s),
        !(v is Text) ==> v.as_text() is None,
{
}

} // verus!
