//! JSON values, read and written by `serde_json`.

use serde_json::Value;
use vstd::prelude::*;

verus! {

/// What a JSON value holds.  Members of an object have no order.
pub enum JsonModel {
    Null,
    Bool(bool),
    /// A number, as it is written.
    Number(Seq<char>),
    Text(Seq<char>),
    Array(Seq<JsonModel>),
    Object(Map<Seq<char>, JsonModel>),
}

#[verifier::external_type_specification]
#[verifier::external_body]
pub struct ExValue(Value);

/// What a JSON value holds.
pub uninterp spec fn json_of(value: Value) -> JsonModel;

/// The JSON value that the bytes write, or the text of the error where they write
/// none.
pub uninterp spec fn json_read(data: Seq<u8>) -> Result<JsonModel, Seq<char>>;

/// The bytes that write the JSON value without white space, with the members of
/// objects in the order of their keys.
pub uninterp spec fn json_written(model: JsonModel) -> Seq<u8>;

/// The text that writes the JSON value on indented lines.
pub uninterp spec fn json_pretty(model: JsonModel) -> Seq<char>;

/// The value has no numbers, and no more than `depth` arrays and objects within
/// each other.
pub open spec fn plain(model: JsonModel, depth: nat) -> bool
    decreases depth,
{
    match model {
        JsonModel::Number(_) => false,
        JsonModel::Array(items) => depth > 0 && forall|i: int|
            0 <= i < items.len() ==> plain(#[trigger] items[i], (depth - 1) as nat),
        JsonModel::Object(members) => depth > 0 && forall|key: Seq<char>| #[trigger]
            members.contains_key(key) ==> plain(members[key], (depth - 1) as nat),
        _ => true,
    }
}

/// The member of an object; `Null` where there is none.
pub open spec fn member(model: JsonModel, key: Seq<char>) -> JsonModel {
    match model {
        JsonModel::Object(members) => if members.contains_key(key) {
            members[key]
        } else {
            JsonModel::Null
        },
        _ => JsonModel::Null,
    }
}

/// The item of an array; `Null` where there is none.
pub open spec fn item(model: JsonModel, index: nat) -> JsonModel {
    match model {
        JsonModel::Array(items) => if index < items.len() {
            items[index as int]
        } else {
            JsonModel::Null
        },
        _ => JsonModel::Null,
    }
}

/// The text of a value that is text.
pub open spec fn text_of(model: JsonModel) -> Option<Seq<char>> {
    match model {
        JsonModel::Text(text) => Some(text),
        _ => None,
    }
}

/// What the values of a list hold.
pub open spec fn json_items(items: Seq<Value>) -> Seq<JsonModel> {
    items.map_values(|value: Value| json_of(value))
}

/// The members of an object from a list; of several with one key, the last.
pub open spec fn json_members(members: Seq<(String, Value)>) -> Map<Seq<char>, JsonModel>
    decreases members.len(),
{
    if members.len() == 0 {
        Map::empty()
    } else {
        json_members(members.drop_last()).insert(
            members.last().0@,
            json_of(members.last().1),
        )
    }
}

/// `serde_json::from_slice` into a `Value`, with an error as text.
#[verifier::external_body]
pub(crate) fn parse_json(data: &[u8]) -> (value: Result<Value, String>)
    ensures
        match value {
            Ok(value) => json_read(data@) == Ok::<_, Seq<char>>(json_of(value)),
            Err(error) => json_read(data@) == Err::<JsonModel, _>(error@),
        },
{
    serde_json::from_slice(data).map_err(|error| error.to_string())
}

/// `serde_json::to_vec`, which does not fail for a `Value`.  What it writes reads
/// back as it was, for a value without numbers whose arrays and objects are not
/// too deep for `serde_json::from_slice`.
#[verifier::external_body]
pub(crate) fn write_json(value: &Value) -> (data: Vec<u8>)
    ensures
        data@ == json_written(json_of(*value)),
        plain(json_of(*value), 100) ==> json_read(data@) is Ok && json_read(data@)->Ok_0 == json_of(
            *value,
        ),
{
    serde_json::to_vec(value).unwrap_or_default()
}

/// `serde_json::to_string_pretty`, which does not fail for a `Value`.
#[verifier::external_body]
pub(crate) fn pretty_json(value: &Value) -> (text: String)
    ensures
        text@ == json_pretty(json_of(*value)),
{
    serde_json::to_string_pretty(value).unwrap_or_default()
}

/// `Value`'s indexing by a key.
#[verifier::external_body]
pub(crate) fn json_member<'a>(value: &'a Value, key: &str) -> (found: &'a Value)
    ensures
        json_of(*found) == member(json_of(*value), key@),
{
    &value[key]
}

/// `Value`'s indexing by a position.
#[verifier::external_body]
pub(crate) fn json_item(value: &Value, index: usize) -> (found: &Value)
    ensures
        json_of(*found) == item(json_of(*value), index as nat),
{
    &value[index]
}

/// `Value::as_str`.
#[verifier::external_body]
pub(crate) fn json_text(value: &Value) -> (text: Option<String>)
    ensures
        match text {
            Some(text) => text_of(json_of(*value)) == Some(text@),
            None => text_of(json_of(*value)) is None,
        },
{
    value.as_str().map(|text| text.to_string())
}

/// `Value::String`.
#[verifier::external_body]
pub(crate) fn text_value(text: String) -> (value: Value)
    ensures
        json_of(value) == JsonModel::Text(text@),
{
    Value::String(text)
}

/// `Value::Array`.
#[verifier::external_body]
pub(crate) fn array_value(items: Vec<Value>) -> (value: Value)
    ensures
        json_of(value) == JsonModel::Array(json_items(items@)),
{
    Value::Array(items)
}

/// `Value::Object` of a `serde_json::Map` collected from the members.
#[verifier::external_body]
pub(crate) fn object_value(members: Vec<(String, Value)>) -> (value: Value)
    ensures
        json_of(value) == JsonModel::Object(json_members(members@)),
{
    Value::Object(members.into_iter().collect())
}

} // verus!
