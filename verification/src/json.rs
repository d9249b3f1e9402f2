//! JSON documents, read and written by `serde_json`.

use vstd::prelude::*;
use vstd::utf8::*;

verus! {

/// A JSON number, as far as this crate reads it.
pub struct JsonNumber {
    /// The number as a 64-bit integer, where it is an integer in that range.
    pub whole: Option<i64>,
    /// The bits of the number as an IEEE-754 double, where it has one.
    pub double: Option<u64>,
    /// The digits the number is written with.
    pub literal: Seq<char>,
}

/// A JSON document as a mathematical value.
pub enum Json {
    Null,
    Bool(bool),
    Number(JsonNumber),
    Text(Seq<char>),
    Array(Seq<Json>),
    Object(Map<Seq<char>, Json>),
}

/// Trusted: `serde_json::Value`, a JSON document, of which nothing is seen
/// but through the functions below.
#[verifier::external_type_specification]
#[verifier::external_body]
pub struct ExJsonValue(serde_json::Value);

/// Trusted: `serde_json::Map`, the members of a JSON object, of which
/// nothing is seen but through the functions below.
#[verifier::external_type_specification]
#[verifier::external_body]
#[verifier::reject_recursive_types(K)]
#[verifier::reject_recursive_types(V)]
pub struct ExJsonMap<K, V>(serde_json::Map<K, V>);

/// Trusted: `serde_json::Error`, why bytes were not read or a document was
/// not written.
#[verifier::external_type_specification]
#[verifier::external_body]
pub struct ExJsonError(serde_json::Error);

/// The document that a `serde_json::Value` holds.
pub uninterp spec fn value_model(value: serde_json::Value) -> Json;

/// The members that a `serde_json::Map` holds, by name.
pub uninterp spec fn object_model(object: serde_json::Map<String, serde_json::Value>) -> Map<
    Seq<char>,
    Json,
>;

/// The document that `serde_json::from_slice` reads from `bytes`, if it
/// accepts them.
pub uninterp spec fn parsed_json(bytes: Seq<u8>) -> Option<Json>;

/// The text that `serde_json::to_string` writes for an object with these
/// members, or `None` where it fails on them.
pub uninterp spec fn printed_object(members: Map<Seq<char>, Json>) -> Option<Seq<u8>>;

/// Trusted: `serde_json::from_slice` at type `Value`. The outcome is a
/// function of the bytes alone.
#[verifier::external_body]
pub(crate) fn parse_value(data: &[u8]) -> (parsed: Result<serde_json::Value, serde_json::Error>)
    ensures
        parsed matches Ok(value) ==> parsed_json(data@) == Some(value_model(value)),
        parsed is Err ==> parsed_json(data@) is None,
{
    serde_json::from_slice::<serde_json::Value>(data)
}

/// Trusted: `Display` of `serde_json::Error`, of which nothing is claimed.
#[verifier::external_body]
pub(crate) fn error_text(error: &serde_json::Error) -> (text: String) {
    error.to_string()
}

/// Trusted: tells the `Object` variant of `serde_json::Value` from the
/// others and hands out its members.
#[verifier::external_body]
pub(crate) fn into_object(value: serde_json::Value) -> (object: Option<
    serde_json::Map<String, serde_json::Value>,
>)
    ensures
        object matches Some(members) ==> value_model(value) == Json::Object(
            object_model(members),
        ),
        object is None ==> !(value_model(value) is Object),
{
    match value {
        serde_json::Value::Object(members) => Some(members),
        _ => None,
    }
}

/// Trusted: `serde_json::Map::get`, the member of that name if there is one.
#[verifier::external_body]
pub(crate) fn object_get<'a>(
    object: &'a serde_json::Map<String, serde_json::Value>,
    name: &str,
) -> (member: Option<&'a serde_json::Value>)
    ensures
        member matches Some(value) ==> object_model(*object).contains_key(name@)
            && object_model(*object)[name@] == value_model(*value),
        member is None ==> !object_model(*object).contains_key(name@),
{
    object.get(name)
}

/// Trusted: `serde_json::Map::insert`, after which the name has the new
/// value and every other member is as before.
#[verifier::external_body]
pub(crate) fn object_insert(
    object: &mut serde_json::Map<String, serde_json::Value>,
    name: String,
    value: serde_json::Value,
)
    ensures
        object_model(*final(object)) == object_model(*old(object)).insert(
            name@,
            value_model(value),
        ),
{
    object.insert(name, value);
}

/// Trusted: `IntoIterator` of `serde_json::Map`, which hands out every
/// member with its name.
#[verifier::external_body]
pub(crate) fn object_into_entries(object: serde_json::Map<String, serde_json::Value>) -> (entries:
    Vec<(String, serde_json::Value)>)
    ensures
        forall|i: int|
            0 <= i < entries@.len() ==> object_model(object).contains_key(
                (#[trigger] entries@[i]).0@,
            ) && object_model(object)[entries@[i].0@] == value_model(entries@[i].1),
        forall|name: Seq<char>| #[trigger]
            object_model(object).contains_key(name) ==> exists|i: int|
                0 <= i < entries@.len() && (#[trigger] entries@[i]).0@ == name,
{
    object.into_iter().collect()
}

/// Trusted: `serde_json::to_string` on a map. Whether it succeeds and what
/// it writes is a function of the members alone, and what it writes is a
/// `String`, so UTF-8.
#[verifier::external_body]
pub(crate) fn object_to_bytes(object: &serde_json::Map<String, serde_json::Value>) -> (printed:
    Result<Vec<u8>, serde_json::Error>)
    ensures
        printed matches Ok(bytes) ==> printed_object(object_model(*object)) == Some(bytes@)
            && valid_utf8(bytes@),
        printed is Err ==> printed_object(object_model(*object)) is None,
{
    serde_json::to_string(object).map(String::into_bytes)
}

/// Trusted: `serde_json::Value::as_str`, the text of a JSON string.
#[verifier::external_body]
pub(crate) fn value_text<'a>(value: &'a serde_json::Value) -> (text: Option<&'a str>)
    ensures
        text matches Some(s) ==> value_model(*value) == Json::Text(s@),
        text is None ==> !(value_model(*value) is Text),
{
    value.as_str()
}

/// Trusted: `serde_json::Value::as_bool`, the value of a JSON boolean.
#[verifier::external_body]
pub(crate) fn value_bool(value: &serde_json::Value) -> (flag: Option<bool>)
    ensures
        flag matches Some(b) ==> value_model(*value) == Json::Bool(b),
        flag is None ==> !(value_model(*value) is Bool),
{
    value.as_bool()
}

/// Trusted: `serde_json::Value::is_number`.
#[verifier::external_body]
pub(crate) fn value_is_number(value: &serde_json::Value) -> (yes: bool)
    ensures
        yes == (value_model(*value) is Number),
{
    value.is_number()
}

/// Trusted: `serde_json::Value::as_i64`, the number where it is an integer
/// that fits in 64 bits.
#[verifier::external_body]
pub(crate) fn value_i64(value: &serde_json::Value) -> (whole: Option<i64>)
    ensures
        value_model(*value) matches Json::Number(number) ==> whole == number.whole,
{
    value.as_i64()
}

/// Trusted: `serde_json::Value::as_f64`, handed out as the bits of the
/// double.
#[verifier::external_body]
pub(crate) fn value_double(value: &serde_json::Value) -> (double: Option<u64>)
    ensures
        value_model(*value) matches Json::Number(number) ==> double == number.double,
{
    value.as_f64().map(|double| double.to_bits())
}

} // verus!
