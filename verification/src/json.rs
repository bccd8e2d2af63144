//! JSON values of the `serde_json` crate, and what the library relies on of them.
use vstd::prelude::*;

verus! {

/// A JSON value.
#[verifier::external_type_specification]
#[verifier::external_body]
pub struct ExValue(serde_json::Value);

/// A JSON number: a whole one, or the bits of a double.
pub enum NumberModel {
    Whole(int),
    Double(u64),
}

/// What a JSON value says.
pub enum JsonModel {
    Null,
    Bool(bool),
    Number(NumberModel),
    Text(Seq<char>),
    List(Seq<JsonModel>),
    Object(Map<Seq<char>, JsonModel>),
}

impl JsonModel {
    /// The value under a key, where there is one.
    pub open spec fn field(self, key: Seq<char>) -> Option<JsonModel> {
        match self {
            JsonModel::Object(fields) => if fields.contains_key(key) {
                Some(fields[key])
            } else {
                None
            },
            _ => None,
        }
    }

    pub open spec fn text(self) -> Option<Seq<char>> {
        match self {
            JsonModel::Text(s) => Some(s),
            _ => None,
        }
    }

    pub open spec fn truth(self) -> Option<bool> {
        match self {
            JsonModel::Bool(b) => Some(b),
            _ => None,
        }
    }

    /// The whole number that the value is, if an `i64` holds it.
    pub open spec fn signed(self) -> Option<i64> {
        match self {
            JsonModel::Number(NumberModel::Whole(n)) => if i64::MIN <= n <= i64::MAX {
                Some(n as i64)
            } else {
                None
            },
            _ => None,
        }
    }

    /// The whole number that the value is, if a `u64` holds it.
    pub open spec fn unsigned(self) -> Option<u64> {
        match self {
            JsonModel::Number(NumberModel::Whole(n)) => if 0 <= n <= u64::MAX {
                Some(n as u64)
            } else {
                None
            },
            _ => None,
        }
    }
}

/// What a `serde_json::Value` says.
pub uninterp spec fn json_view(value: serde_json::Value) -> JsonModel;

/// What a text says as JSON, or the words for why it is none.
pub uninterp spec fn json_parse(text: Seq<char>) -> Result<JsonModel, Seq<char>>;

/// A JSON value as text, without white space.
pub uninterp spec fn json_text(value: JsonModel) -> Seq<char>;

/// What a sequence of values says.
pub open spec fn json_views(values: Seq<serde_json::Value>) -> Seq<JsonModel> {
    values.map_values(|v: serde_json::Value| json_view(v))
}

/// `serde_json::from_str`: the value that a text stands for, or the words for why there is none.
/// The grammar of JSON is not stated.
#[verifier::external_body]
pub(crate) fn parse(text: &str) -> (res: Result<serde_json::Value, String>)
    ensures
        match res {
            Ok(value) => json_parse(text@) == Ok::<JsonModel, Seq<char>>(json_view(value)),
            Err(e) => json_parse(text@) == Err::<JsonModel, Seq<char>>(e@),
        },
{
    serde_json::from_str(text).map_err(|e: serde_json::Error| e.to_string())
}

/// `serde_json::Value` displayed: its compact text. The form of that text is not stated.
#[verifier::external_body]
pub(crate) fn to_text(value: &serde_json::Value) -> (text: String)
    ensures
        text@ == json_text(json_view(*value)),
{
    value.to_string()
}

/// `serde_json::Value::get` with a text: the value under a key of an object.
#[verifier::external_body]
pub(crate) fn get<'a>(value: &'a serde_json::Value, key: &str) -> (res: Option<
    &'a serde_json::Value,
>)
    ensures
        match res {
            Some(field) => json_view(*value).field(key@) == Some(json_view(*field)),
            None => json_view(*value).field(key@) is None,
        },
{
    value.get(key)
}

/// `serde_json::Value::as_str`: the text of a text.
#[verifier::external_body]
pub(crate) fn as_str<'a>(value: &'a serde_json::Value) -> (res: Option<&'a str>)
    ensures
        match res {
            Some(text) => json_view(*value).text() == Some(text@),
            None => json_view(*value).text() is None,
        },
{
    value.as_str()
}

/// `serde_json::Value::as_i64`: a whole number that an `i64` holds.
#[verifier::external_body]
pub(crate) fn as_i64(value: &serde_json::Value) -> (res: Option<i64>)
    ensures
        res == json_view(*value).signed(),
{
    value.as_i64()
}

/// `serde_json::Value::as_u64`: a whole number that a `u64` holds.
#[verifier::external_body]
pub(crate) fn as_u64(value: &serde_json::Value) -> (res: Option<u64>)
    ensures
        res == json_view(*value).unsigned(),
{
    value.as_u64()
}

/// `serde_json::Value::as_bool`: a truth value.
#[verifier::external_body]
pub(crate) fn as_bool(value: &serde_json::Value) -> (res: Option<bool>)
    ensures
        res == json_view(*value).truth(),
{
    value.as_bool()
}

/// `serde_json::Value::as_array`: the values of a list.
#[verifier::external_body]
pub(crate) fn as_array<'a>(value: &'a serde_json::Value) -> (res: Option<&'a Vec<serde_json::Value>>)
    ensures
        match res {
            Some(list) => json_view(*value) == JsonModel::List(json_views(list@)),
            None => !(json_view(*value) is List),
        },
{
    value.as_array()
}

} // verus!
