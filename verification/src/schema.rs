//! The key codec: encoding field values, building keys, merging patches.

use vstd::prelude::*;
use vstd::string::*;
use vstd::utf8::*;
use crate::errors::ConstDBError;
use crate::errors::ErrorView;
use crate::json::error_text;
use crate::json::into_object;
use crate::json::Json;
use crate::json::object_get;
use crate::json::object_insert;
use crate::json::object_into_entries;
use crate::json::object_model;
use crate::json::object_to_bytes;
use crate::json::parse_value;
use crate::json::parsed_json;
use crate::json::printed_object;
use crate::json::value_bool;
use crate::json::value_double;
use crate::json::value_i64;
use crate::json::value_is_number;
use crate::json::value_model;
use crate::json::value_text;
use crate::model::DataType;
use crate::model::Field;
use crate::model::FieldView;
use crate::model::TableSettings;
use crate::model::TableView;
use crate::numbers::be_bytes;
use crate::numbers::differs_at;
use crate::numbers::encode_i32;
use crate::numbers::encode_i64;
use crate::numbers::encode_u32;
use crate::numbers::encode_u64;
use crate::numbers::law_i32_order_within_sign;
use crate::numbers::law_i64_order_within_sign;
use crate::numbers::lex_less;
use crate::numbers::spec_encode_i32;
use crate::numbers::spec_encode_i64;
use crate::params::Params;
use crate::pk::KeyView;
use crate::pk::PrimaryKey;
use crate::text::eq_ignore_ascii_case;
use crate::text::parse_i32;
use crate::text::parse_i64;
use crate::text::same_ignoring_case;
use crate::text::spec_parse_i32;
use crate::text::spec_parse_i64;

verus! {

/// How a value reads as an IEEE-754 number, as bit patterns.
///
/// The crate does no floating-point arithmetic. Where a key field is declared
/// `Float32` or `Float64`, the caller supplies what the field's value parses
/// or narrows to: `single` for 32 bits, `double` for 64.
#[derive(Debug, Clone, Copy, PartialEq, Eq)]
pub struct FloatReading {
    pub single: Option<u32>,
    pub double: Option<u64>,
}

impl FloatReading {
    /// The reading of a value that is no number.
    pub fn none() -> (reading: FloatReading)
        ensures
            reading == no_reading(),
    {
        FloatReading { single: None, double: None }
    }
}

/// The reading of a value that is no number.
pub open spec fn no_reading() -> FloatReading {
    FloatReading { single: None, double: None }
}

/// What the key codec reads of a field's value.
#[derive(Debug, Clone, PartialEq, Eq)]
pub enum FieldValue {
    /// A JSON string or a query parameter.
    Text(String),
    /// A JSON number: as a 64-bit integer where it is one, and the bits of
    /// its double where it has one.
    Number { whole: Option<i64>, double: Option<u64> },
    /// A JSON boolean.
    Bool(bool),
    /// Anything else: null, an array, an object.
    Other,
}

/// The mathematical value of a [`FieldValue`].
pub enum ValueView {
    Text(Seq<char>),
    Number { whole: Option<i64>, double: Option<u64> },
    Bool(bool),
    Other,
}

impl View for FieldValue {
    type V = ValueView;

    open spec fn view(&self) -> ValueView {
        match self {
            FieldValue::Text(text) => ValueView::Text(text@),
            FieldValue::Number { whole, double } => ValueView::Number { whole: *whole, double: *double },
            FieldValue::Bool(flag) => ValueView::Bool(*flag),
            FieldValue::Other => ValueView::Other,
        }
    }
}

/// The bytes that stand for `value` in a key field declared as `data_type`,
/// or `None` where the value does not have the shape of the type.
///
/// Text is stored as its UTF-8 bytes, a boolean as one byte, an integer as
/// the big-endian bytes of its two's complement, a float as the big-endian
/// bytes of its IEEE-754 bits.
pub open spec fn spec_encode_field(
    data_type: DataType,
    value: ValueView,
    reading: FloatReading,
) -> Option<Seq<u8>> {
    match data_type {
        DataType::String | DataType::DateTime => match value {
            ValueView::Text(text) => Some(encode_utf8(text)),
            _ => None,
        },
        DataType::Boolean => match value {
            ValueView::Text(text) => if same_ignoring_case(text, "true"@) {
                Some(seq![1u8])
            } else if same_ignoring_case(text, "false"@) {
                Some(seq![0u8])
            } else {
                None
            },
            ValueView::Bool(flag) => Some(
                seq![if flag {
                    1u8
                } else {
                    0u8
                }],
            ),
            _ => None,
        },
        DataType::Int32 => match value {
            ValueView::Text(text) => match spec_parse_i32(text) {
                Some(number) => Some(spec_encode_i32(number)),
                None => None,
            },
            ValueView::Number { whole: Some(number), .. } => if i32::MIN <= number <= i32::MAX {
                Some(spec_encode_i32(number as i32))
            } else {
                None
            },
            _ => None,
        },
        DataType::Int64 => match value {
            ValueView::Text(text) => match spec_parse_i64(text) {
                Some(number) => Some(spec_encode_i64(number)),
                None => None,
            },
            ValueView::Number { whole: Some(number), .. } => Some(spec_encode_i64(number)),
            _ => None,
        },
        DataType::Float32 => match value {
            ValueView::Text(_) | ValueView::Number { double: Some(_), .. } => match reading.single {
                Some(bits) => Some(be_bytes(bits as nat, 4)),
                None => None,
            },
            _ => None,
        },
        DataType::Float64 => match value {
            ValueView::Text(_) => match reading.double {
                Some(bits) => Some(be_bytes(bits as nat, 8)),
                None => None,
            },
            ValueView::Number { double: Some(bits), .. } => Some(be_bytes(bits as nat, 8)),
            _ => None,
        },
        DataType::Unknown => None,
    }
}

/// The error for a value that is no number of the type `target`.
fn cannot_cast(field: &Field, target: &str) -> (error: ConstDBError)
    ensures
        error@ == ErrorView::InvalidArguments(
            "Primary key "@ + field@.name + " cannot be cast to "@ + target@ + "."@,
        ),
{
    let mut message = String::from_str("Primary key ");
    message.append(field.name.as_str());
    message.append(" cannot be cast to ");
    message.append(target);
    message.append(".");
    ConstDBError::InvalidArguments(message)
}

/// The error for a value that the type of the field cannot hold.
fn invalid_value(field: &Field) -> (error: ConstDBError)
    ensures
        error@ == ErrorView::InvalidArguments("Invalid value for primary key: "@ + field@.name),
{
    ConstDBError::invalid_argument("Invalid value for primary key: ", field.name.as_str())
}

/// The error for a value of a kind that the type of the field does not
/// take, and for a field of unknown type.
fn unsupported(field: &Field) -> (error: ConstDBError)
    ensures
        error@ == ErrorView::InvalidArguments("unsupported type for primary key "@ + field@.name),
{
    ConstDBError::invalid_argument("unsupported type for primary key ", field.name.as_str())
}

fn one_byte(byte: u8) -> (bytes: Vec<u8>)
    ensures
        bytes@ == seq![byte],
{
    let mut bytes: Vec<u8> = Vec::new();
    bytes.push(byte);
    assert(bytes@ =~= seq![byte]);
    bytes
}

/// Encodes one value against the declared type of its key field.
///
/// Fails with `InvalidArguments` exactly where the value does not have the
/// shape of the declared type, and always for the type `Unknown`.
pub fn cast_field_data_type(value: &FieldValue, field: &Field, reading: FloatReading) -> (bytes:
    Result<Vec<u8>, ConstDBError>)
    ensures
        match spec_encode_field(field.data_type, value@, reading) {
            Some(encoded) => bytes matches Ok(b) && b@ == encoded,
            None => bytes matches Err(e) && e@ is InvalidArguments,
        },
{
    match field.data_type {
        DataType::String | DataType::DateTime => match value {
            FieldValue::Text(text) => Ok(text.as_str().as_bytes_vec()),
            _ => Err(unsupported(field)),
        },
        DataType::Boolean => match value {
            FieldValue::Text(text) => {
                if eq_ignore_ascii_case(text.as_str(), "true") {
                    Ok(one_byte(1))
                } else if eq_ignore_ascii_case(text.as_str(), "false") {
                    Ok(one_byte(0))
                } else {
                    Err(invalid_value(field))
                }
            },
            FieldValue::Bool(flag) => Ok(
                one_byte(
                    if *flag {
                        1
                    } else {
                        0
                    },
                ),
            ),
            _ => Err(unsupported(field)),
        },
        DataType::Int32 => match value {
            FieldValue::Text(text) => match parse_i32(text.as_str()) {
                Some(number) => Ok(encode_i32(number)),
                None => Err(cannot_cast(field, "Int32")),
            },
            FieldValue::Number { whole: Some(number), .. } => {
                if *number >= -0x8000_0000 && *number <= 0x7fff_ffff {
                    Ok(encode_i32(*number as i32))
                } else {
                    Err(invalid_value(field))
                }
            },
            FieldValue::Number { whole: None, .. } => Err(cannot_cast(field, "Int32")),
            _ => Err(unsupported(field)),
        },
        DataType::Int64 => match value {
            FieldValue::Text(text) => match parse_i64(text.as_str()) {
                Some(number) => Ok(encode_i64(number)),
                None => Err(cannot_cast(field, "Int64")),
            },
            FieldValue::Number { whole: Some(number), .. } => Ok(encode_i64(*number)),
            FieldValue::Number { whole: None, .. } => Err(cannot_cast(field, "Int64")),
            _ => Err(unsupported(field)),
        },
        DataType::Float32 => match value {
            FieldValue::Text(_) => match reading.single {
                Some(bits) => Ok(encode_u32(bits)),
                None => Err(cannot_cast(field, "Float32")),
            },
            FieldValue::Number { double: Some(_), .. } => match reading.single {
                Some(bits) => Ok(encode_u32(bits)),
                None => Err(invalid_value(field)),
            },
            FieldValue::Number { double: None, .. } => Err(cannot_cast(field, "Float32")),
            _ => Err(unsupported(field)),
        },
        DataType::Float64 => match value {
            FieldValue::Text(_) => match reading.double {
                Some(bits) => Ok(encode_u64(bits)),
                None => Err(cannot_cast(field, "Float64")),
            },
            FieldValue::Number { double: Some(bits), .. } => Ok(encode_u64(*bits)),
            FieldValue::Number { double: None, .. } => Err(cannot_cast(field, "Float64")),
            _ => Err(unsupported(field)),
        },
        DataType::Unknown => Err(unsupported(field)),
    }
}

/// The values of a list, in order.
pub open spec fn values_view(values: Seq<FieldValue>) -> Seq<ValueView> {
    Seq::new(values.len(), |i: int| values[i]@)
}

/// What the codec reads of a JSON value.
pub open spec fn field_value_of(json: Json) -> ValueView {
    match json {
        Json::Text(text) => ValueView::Text(text),
        Json::Bool(flag) => ValueView::Bool(flag),
        Json::Number(number) => ValueView::Number { whole: number.whole, double: number.double },
        _ => ValueView::Other,
    }
}

/// The first position at or after `from` whose key field has no value
/// among `names`, or the number of key fields if there is none.
pub open spec fn bound_from(keys: Seq<FieldView>, names: Set<Seq<char>>, from: int) -> int
    decreases keys.len() - from,
{
    if from < 0 || from >= keys.len() || !names.contains(keys[from].name) {
        from
    } else {
        bound_from(keys, names, from + 1)
    }
}

/// How many leading key fields have a value among `names`: the binding stops
/// at the first field without one, whatever is bound after it.
pub open spec fn leading_bound(keys: Seq<FieldView>, names: Set<Seq<char>>) -> int {
    bound_from(keys, names, 0)
}

/// The binding stops within the key fields: every field before the stop has
/// a value, and the field at the stop has none.
pub proof fn lemma_bound_from_range(keys: Seq<FieldView>, names: Set<Seq<char>>, from: int)
    requires
        0 <= from <= keys.len(),
    ensures
        from <= bound_from(keys, names, from) <= keys.len(),
        forall|j: int|
            from <= j < bound_from(keys, names, from) ==> names.contains((#[trigger] keys[j]).name),
        bound_from(keys, names, from) < keys.len() ==> !names.contains(
            keys[bound_from(keys, names, from)].name,
        ),
    decreases keys.len() - from,
{
    if from < keys.len() && names.contains(keys[from].name) {
        lemma_bound_from_range(keys, names, from + 1);
    }
}

/// The values that a parameter map gives to the leading key fields.
pub open spec fn param_values(keys: Seq<FieldView>, params: Map<Seq<char>, Seq<char>>) -> Seq<
    ValueView,
> {
    Seq::new(
        leading_bound(keys, params.dom()) as nat,
        |i: int| ValueView::Text(params[keys[i].name]),
    )
}

/// The values that a record gives to the leading key fields.
pub open spec fn record_values(keys: Seq<FieldView>, members: Map<Seq<char>, Json>) -> Seq<
    ValueView,
> {
    Seq::new(
        leading_bound(keys, members.dom()) as nat,
        |i: int| field_value_of(members[keys[i].name]),
    )
}

/// The float reading supplied for position `i`, or none.
pub open spec fn reading_at(readings: Seq<FloatReading>, i: int) -> FloatReading {
    if 0 <= i < readings.len() {
        readings[i]
    } else {
        no_reading()
    }
}

/// The encodings of the first `count` values, each followed by a zero byte,
/// or `None` if one of them cannot be encoded.
pub open spec fn spec_key_bytes(
    keys: Seq<FieldView>,
    values: Seq<ValueView>,
    readings: Seq<FloatReading>,
    count: int,
) -> Option<Seq<u8>>
    decreases count,
{
    if count <= 0 {
        Some(Seq::empty())
    } else {
        match (
            spec_key_bytes(keys, values, readings, count - 1),
            spec_encode_field(
                keys[count - 1].data_type,
                values[count - 1],
                reading_at(readings, count - 1),
            ),
        ) {
            (Some(head), Some(field)) => Some(head + field + seq![0u8]),
            _ => None,
        }
    }
}

/// The key that `values` make for the key fields `keys`: complete where
/// every field has a value, a prefix otherwise; `None` where a value cannot
/// be encoded.
pub open spec fn spec_build_pk(
    keys: Seq<FieldView>,
    values: Seq<ValueView>,
    readings: Seq<FloatReading>,
) -> Option<KeyView> {
    let count = if values.len() < keys.len() {
        values.len()
    } else {
        keys.len()
    };
    match spec_key_bytes(keys, values, readings, count as int) {
        Some(bytes) => if count < keys.len() {
            Some(KeyView::Prefix(bytes))
        } else {
            Some(KeyView::Complete(bytes))
        },
        None => None,
    }
}

/// How merging a patch into a record ends.
pub enum Merge {
    /// One of the two is not JSON.
    Malformed,
    /// One of the two is JSON but no object.
    NotObject,
    /// The patch names a key field.
    TouchesKey,
    /// The members of the merged record.
    Merged(Map<Seq<char>, Json>),
}

/// Whether `members` has a member named like one of the key fields.
pub open spec fn names_key_field(keys: Seq<FieldView>, members: Map<Seq<char>, Json>) -> bool {
    exists|i: int| 0 <= i < keys.len() && members.contains_key((#[trigger] keys[i]).name)
}

/// The shallow merge of `patch` into `old`: members of the patch replace
/// members of the same name, all other members of `old` stay.
pub open spec fn spec_merge(keys: Seq<FieldView>, old: Seq<u8>, patch: Seq<u8>) -> Merge {
    match parsed_json(old) {
        None => Merge::Malformed,
        Some(Json::Object(record)) => match parsed_json(patch) {
            None => Merge::Malformed,
            Some(Json::Object(changes)) => if names_key_field(keys, changes) {
                Merge::TouchesKey
            } else {
                Merge::Merged(record.union_prefer_right(changes))
            },
            Some(_) => Merge::NotObject,
        },
        Some(_) => Merge::NotObject,
    }
}

/// A patch that names a key field is never merged.
pub proof fn law_update_rejects_key_patch(
    keys: Seq<FieldView>,
    old: Seq<u8>,
    patch: Seq<u8>,
    i: int,
)
    requires
        0 <= i < keys.len(),
        parsed_json(patch) matches Some(Json::Object(changes)) && changes.contains_key(
            keys[i].name,
        ),
    ensures
        !(spec_merge(keys, old, patch) is Merged),
{
}

/// Reads a JSON value as the codec sees it.
pub fn read_value(value: &serde_json::Value) -> (read: FieldValue)
    ensures
        read@ == field_value_of(value_model(*value)),
{
    match value_text(value) {
        Some(text) => FieldValue::Text(text.to_owned()),
        None => match value_bool(value) {
            Some(flag) => FieldValue::Bool(flag),
            None => if value_is_number(value) {
                FieldValue::Number { whole: value_i64(value), double: value_double(value) }
            } else {
                FieldValue::Other
            },
        },
    }
}

/// Reads bytes as a JSON object.
///
/// Fails with `InvalidStates` where the bytes are not JSON, and with
/// `InvalidArguments` where they are JSON but no object.
pub fn get_json_object(data: &[u8]) -> (object: Result<
    serde_json::Map<String, serde_json::Value>,
    ConstDBError,
>)
    ensures
        match parsed_json(data@) {
            None => object matches Err(e) && e@ is InvalidStates,
            Some(Json::Object(members)) => object matches Ok(o) && object_model(o) == members,
            Some(_) => object matches Err(e) && e@ is InvalidArguments,
        },
{
    match parse_value(data) {
        Err(error) => {
            let detail = error_text(&error);
            Err(ConstDBError::invalid_state("serialization failed: ", detail.as_str()))
        },
        Ok(value) => match into_object(value) {
            Some(members) => Ok(members),
            None => Err(
                ConstDBError::InvalidArguments(String::from_str("only json object are supported!")),
            ),
        },
    }
}

/// Builds the keys of one table and merges patches into its records.
pub struct SchemaHelper {
    table_settings: TableSettings,
}

impl View for SchemaHelper {
    type V = TableView;

    closed spec fn view(&self) -> TableView {
        self.table_settings@
    }
}

impl SchemaHelper {
    /// The helper for the table `table_settings`.
    pub fn new(table_settings: TableSettings) -> (helper: SchemaHelper)
        ensures
            helper@ == table_settings@,
    {
        SchemaHelper { table_settings }
    }

    /// Merges the JSON object `patch` into the JSON object `old`.
    ///
    /// A patch that names a key field is refused with `InvalidArguments`, as
    /// is a record or a patch that is no object. Bytes that are not JSON give
    /// `InvalidStates`. Otherwise the merged record is written as JSON text,
    /// which is UTF-8; `InvalidStates` is left for members that cannot be
    /// written.
    pub fn update(&self, old: &[u8], patch: &[u8]) -> (merged: Result<Vec<u8>, ConstDBError>)
        ensures
            match spec_merge(self@.primary_keys, old@, patch@) {
                Merge::Malformed => merged matches Err(e) && e@ is InvalidStates,
                Merge::NotObject => merged matches Err(e) && e@ is InvalidArguments,
                Merge::TouchesKey => merged matches Err(e) && e@ is InvalidArguments,
                Merge::Merged(members) => match printed_object(members) {
                    Some(text) => merged matches Ok(bytes) && bytes@ == text && valid_utf8(text),
                    None => merged matches Err(e) && e@ is InvalidStates,
                },
            },
    {
        let mut record = match get_json_object(old) {
            Ok(record) => record,
            Err(error) => {
                return Err(error);
            },
        };
        let changes = match get_json_object(patch) {
            Ok(changes) => changes,
            Err(error) => {
                return Err(error);
            },
        };
        let ghost keys = self@.primary_keys;
        let ghost record_before = object_model(record);
        let ghost patch_members = object_model(changes);
        let mut i: usize = 0;
        while i < self.table_settings.primary_keys.len()
            invariant
                i <= self.table_settings.primary_keys.len(),
                keys == self@.primary_keys,
                patch_members == object_model(changes),
                parsed_json(old@) == Some(Json::Object(record_before)),
                parsed_json(patch@) == Some(Json::Object(patch_members)),
                forall|j: int| 0 <= j < i ==> !patch_members.contains_key((#[trigger] keys[j]).name),
            decreases self.table_settings.primary_keys.len() - i,
        {
            let field = &self.table_settings.primary_keys[i];
            assert(keys[i as int].name == field.name@);
            if object_get(&changes, field.name.as_str()).is_some() {
                assert(patch_members.contains_key(keys[i as int].name));
                return Err(
                    ConstDBError::invalid_argument(
                        "primary key field cannot be updated: ",
                        field.name.as_str(),
                    ),
                );
            }
            i = i + 1;
        }
        assert(!names_key_field(keys, patch_members));
        let mut entries = object_into_entries(changes);
        let ghost all = entries@;
        while entries.len() > 0
            invariant
                entries@.len() <= all.len(),
                entries@ == all.subrange(0, entries@.len() as int),
                forall|j: int|
                    0 <= j < all.len() ==> patch_members.contains_key((#[trigger] all[j]).0@)
                        && patch_members[all[j].0@] == value_model(all[j].1),
                forall|name: Seq<char>| #[trigger]
                    object_model(record).contains_key(name) <==> record_before.contains_key(name)
                        || merged_from(all, entries@.len() as int, name),
                forall|name: Seq<char>| #[trigger]
                    object_model(record).contains_key(name) ==> object_model(record)[name] == (
                    if merged_from(all, entries@.len() as int, name) {
                        patch_members[name]
                    } else {
                        record_before[name]
                    }),
            decreases entries.len(),
        {
            let ghost before = object_model(record);
            let ghost rest = entries@.len() as int;
            let entry = entries.pop().unwrap();
            let ghost picked = entry.0@;
            assert(entry == all[rest - 1]);
            object_insert(&mut record, entry.0, entry.1);
            proof {
                assert forall|name: Seq<char>|
                    merged_from(all, rest - 1, name) <==> (name == picked || merged_from(
                        all,
                        rest,
                        name,
                    )) by {
                    if merged_from(all, rest - 1, name) {
                        let j = choose|j: int| rest - 1 <= j < all.len() && all[j].0@ == name;
                        if j != rest - 1 {
                            assert(rest <= j < all.len() && all[j].0@ == name);
                        }
                    }
                    if name == picked {
                        assert(rest - 1 <= rest - 1 < all.len() && all[rest - 1].0@ == name);
                    }
                    if merged_from(all, rest, name) {
                        let j = choose|j: int| rest <= j < all.len() && all[j].0@ == name;
                        assert(rest - 1 <= j < all.len() && all[j].0@ == name);
                    }
                }
                assert forall|name: Seq<char>| #[trigger]
                    object_model(record).contains_key(name) implies object_model(record)[name] == (
                    if merged_from(all, rest - 1, name) {
                        patch_members[name]
                    } else {
                        record_before[name]
                    }) by {
                    if name != picked {
                        assert(before.contains_key(name));
                    }
                }
            }
        }
        proof {
            assert forall|name: Seq<char>|
                patch_members.contains_key(name) <==> merged_from(all, 0, name) by {
                if merged_from(all, 0, name) {
                    let j = choose|j: int| 0 <= j < all.len() && all[j].0@ == name;
                    assert(patch_members.contains_key(all[j].0@));
                }
            }
            assert(object_model(record) =~= record_before.union_prefer_right(patch_members));
        }
        match object_to_bytes(&record) {
            Ok(bytes) => Ok(bytes),
            Err(error) => {
                let detail = error_text(&error);
                Err(ConstDBError::invalid_state("serialization failed: ", detail.as_str()))
            },
        }
    }
}

/// Whether `name` is the name of an entry at position `from` or later.
pub open spec fn merged_from(
    entries: Seq<(String, serde_json::Value)>,
    from: int,
    name: Seq<char>,
) -> bool {
    exists|j: int| from <= j < entries.len() && (#[trigger] entries[j]).0@ == name
}

/// The key that a parameter map makes.
pub open spec fn spec_build_pk_from_params(
    keys: Seq<FieldView>,
    params: Map<Seq<char>, Seq<char>>,
    readings: Seq<FloatReading>,
) -> Option<KeyView> {
    spec_build_pk(keys, param_values(keys, params), readings)
}

/// The key that a record makes: complete, or `None` where the bytes are no
/// JSON object, a key field is missing or a value cannot be encoded.
pub open spec fn spec_build_pk_from_json(
    keys: Seq<FieldView>,
    data: Seq<u8>,
    readings: Seq<FloatReading>,
) -> Option<KeyView> {
    match parsed_json(data) {
        Some(Json::Object(members)) => if leading_bound(keys, members.dom()) < keys.len() {
            None
        } else {
            spec_build_pk(keys, record_values(keys, members), readings)
        },
        _ => None,
    }
}

/// Whether some key field is declared as a float.
pub open spec fn has_float_key(keys: Seq<FieldView>) -> bool {
    exists|i: int|
        0 <= i < keys.len() && ((#[trigger] keys[i]).data_type == DataType::Float32
            || keys[i].data_type == DataType::Float64)
}

impl SchemaHelper {
    /// Whether a key of this table can depend on float readings.
    pub fn needs_readings(&self) -> (needed: bool)
        ensures
            needed == has_float_key(self@.primary_keys),
    {
        let mut i: usize = 0;
        while i < self.table_settings.primary_keys.len()
            invariant
                i <= self.table_settings.primary_keys.len(),
                forall|j: int|
                    0 <= j < i ==> (#[trigger] self@.primary_keys[j]).data_type
                        != DataType::Float32 && self@.primary_keys[j].data_type
                        != DataType::Float64,
            decreases self.table_settings.primary_keys.len() - i,
        {
            assert(self@.primary_keys[i as int] == self.table_settings.primary_keys@[i as int]@);
            match self.table_settings.primary_keys[i].data_type {
                DataType::Float32 | DataType::Float64 => {
                    return true;
                },
                _ => {},
            }
            i = i + 1;
        }
        false
    }

    /// The values that `params` binds to the leading key fields, in order,
    /// up to the first key field that it leaves unbound.
    pub fn key_values_from_params(&self, params: &Params) -> (values: Vec<FieldValue>)
        ensures
            values_view(values@) == param_values(self@.primary_keys, params@),
    {
        let ghost keys = self@.primary_keys;
        let ghost names = params@.dom();
        let mut values: Vec<FieldValue> = Vec::new();
        let mut i: usize = 0;
        let mut bound = true;
        while bound && i < self.table_settings.primary_keys.len()
            invariant
                i <= self.table_settings.primary_keys.len(),
                keys == self@.primary_keys,
                names == params@.dom(),
                values@.len() == i,
                bound_from(keys, names, 0) == bound_from(keys, names, i as int),
                !bound ==> i < keys.len() && !names.contains(keys[i as int].name),
                forall|j: int|
                    0 <= j < i ==> (#[trigger] values@[j])@ == ValueView::Text(
                        params@[keys[j].name],
                    ),
            decreases self.table_settings.primary_keys.len() - i + (if bound {
                1int
            } else {
                0int
            }),
        {
            let field = &self.table_settings.primary_keys[i];
            assert(keys[i as int].name == field.name@);
            match params.get(field.name.as_str()) {
                Some(text) => {
                    values.push(FieldValue::Text(text.to_owned()));
                    i = i + 1;
                },
                None => {
                    bound = false;
                },
            }
        }
        assert(values_view(values@) =~= param_values(keys, params@));
        values
    }

    /// The values that the record `data` gives to the leading key fields, in
    /// order, up to the first key field that it lacks.
    ///
    /// Fails with `InvalidStates` where the bytes are not JSON, and with
    /// `InvalidArguments` where they are JSON but no object.
    pub fn key_values_from_json(&self, data: &[u8]) -> (values: Result<
        Vec<FieldValue>,
        ConstDBError,
    >)
        ensures
            match parsed_json(data@) {
                None => values matches Err(e) && e@ is InvalidStates,
                Some(Json::Object(members)) => values matches Ok(v) && values_view(v@)
                    == record_values(self@.primary_keys, members),
                Some(_) => values matches Err(e) && e@ is InvalidArguments,
            },
    {
        let record = match get_json_object(data) {
            Ok(record) => record,
            Err(error) => {
                return Err(error);
            },
        };
        let ghost keys = self@.primary_keys;
        let ghost members = object_model(record);
        let ghost names = members.dom();
        let mut values: Vec<FieldValue> = Vec::new();
        let mut i: usize = 0;
        let mut bound = true;
        while bound && i < self.table_settings.primary_keys.len()
            invariant
                i <= self.table_settings.primary_keys.len(),
                keys == self@.primary_keys,
                members == object_model(record),
                names == members.dom(),
                values@.len() == i,
                bound_from(keys, names, 0) == bound_from(keys, names, i as int),
                !bound ==> i < keys.len() && !names.contains(keys[i as int].name),
                forall|j: int|
                    0 <= j < i ==> (#[trigger] values@[j])@ == field_value_of(
                        members[keys[j].name],
                    ),
            decreases self.table_settings.primary_keys.len() - i + (if bound {
                1int
            } else {
                0int
            }),
        {
            let field = &self.table_settings.primary_keys[i];
            assert(keys[i as int].name == field.name@);
            match object_get(&record, field.name.as_str()) {
                Some(value) => {
                    values.push(read_value(value));
                    i = i + 1;
                },
                None => {
                    bound = false;
                },
            }
        }
        assert(values_view(values@) =~= record_values(keys, members));
        Ok(values)
    }

    /// Builds the key that `values` make, one value for each leading key
    /// field: each value is encoded against its field's type and followed by
    /// a zero byte. `readings[i]` tells how `values[i]` reads as a float.
    ///
    /// The key is complete where every key field has a value, a prefix
    /// otherwise. Fails with `InvalidArguments` exactly where a value does
    /// not have the shape of its field's type.
    pub fn build_pk(&self, values: &Vec<FieldValue>, readings: &Vec<FloatReading>) -> (key: Result<
        PrimaryKey,
        ConstDBError,
    >)
        ensures
            match spec_build_pk(self@.primary_keys, values_view(values@), readings@) {
                Some(built) => key matches Ok(k) && k@ == built,
                None => key matches Err(e) && e@ is InvalidArguments,
            },
    {
        let ghost keys = self@.primary_keys;
        let ghost views = values_view(values@);
        let count = if values.len() < self.table_settings.primary_keys.len() {
            values.len()
        } else {
            self.table_settings.primary_keys.len()
        };
        let mut bytes: Vec<u8> = Vec::new();
        let mut i: usize = 0;
        while i < count
            invariant
                i <= count,
                count <= values.len(),
                count <= self.table_settings.primary_keys.len(),
                count == values.len() || count == self.table_settings.primary_keys.len(),
                keys == self@.primary_keys,
                keys.len() == self.table_settings.primary_keys.len(),
                views == values_view(values@),
                spec_key_bytes(keys, views, readings@, i as int) == Some(bytes@),
            decreases count - i,
        {
            let field = &self.table_settings.primary_keys[i];
            let reading = if i < readings.len() {
                readings[i]
            } else {
                FloatReading::none()
            };
            assert(keys[i as int].data_type == field.data_type);
            assert(views[i as int] == values@[i as int]@);
            assert(reading == reading_at(readings@, i as int));
            match cast_field_data_type(&values[i], field, reading) {
                Ok(mut encoded) => {
                    bytes.append(&mut encoded);
                    bytes.push(0);
                },
                Err(error) => {
                    proof {
                        assert(spec_encode_field(
                            keys[i as int].data_type,
                            views[i as int],
                            reading_at(readings@, i as int),
                        ) is None);
                        assert(spec_key_bytes(keys, views, readings@, i as int + 1) is None);
                        lemma_key_bytes_fail(keys, views, readings@, i as int + 1, count as int);
                    }
                    return Err(error);
                },
            }
            i = i + 1;
        }
        if count < self.table_settings.primary_keys.len() {
            Ok(PrimaryKey::Prefix(bytes))
        } else {
            Ok(PrimaryKey::Complete(bytes))
        }
    }

    /// Builds a key from string-valued parameters.
    ///
    /// The key fields are read in their declared order, up to the first one
    /// that `params` leaves unbound; what is bound after it is not read. The
    /// key is complete where every key field is bound, a prefix otherwise.
    /// Fails with `InvalidArguments` exactly where a bound value does not
    /// have the shape of its field's type.
    pub fn build_pk_from_params(&self, params: &Params, readings: &Vec<FloatReading>) -> (key:
        Result<PrimaryKey, ConstDBError>)
        ensures
            match spec_build_pk_from_params(self@.primary_keys, params@, readings@) {
                Some(built) => key matches Ok(k) && k@ == built,
                None => key matches Err(e) && e@ is InvalidArguments,
            },
    {
        let values = self.key_values_from_params(params);
        self.build_pk(&values, readings)
    }

    /// Builds the complete key of the record `data`.
    ///
    /// Fails with `InvalidStates` where the bytes are not JSON, and with
    /// `InvalidArguments` where they are JSON but no object, where the
    /// record lacks a key field, and where a value does not have the shape
    /// of its field's type.
    pub fn build_pk_from_json(&self, data: &[u8], readings: &Vec<FloatReading>) -> (key: Result<
        PrimaryKey,
        ConstDBError,
    >)
        ensures
            match spec_build_pk_from_json(self@.primary_keys, data@, readings@) {
                Some(built) => key matches Ok(k) && k@ == built && built is Complete,
                None => key matches Err(e) && (if parsed_json(data@) is None {
                    e@ is InvalidStates
                } else {
                    e@ is InvalidArguments
                }),
            },
    {
        let values = match self.key_values_from_json(data) {
            Ok(values) => values,
            Err(error) => {
                return Err(error);
            },
        };
        proof {
            let members = parsed_json(data@)->0->Object_0;
            lemma_bound_from_range(self@.primary_keys, members.dom(), 0);
        }
        if values.len() < self.table_settings.primary_keys.len() {
            let missing = &self.table_settings.primary_keys[values.len()];
            return Err(
                ConstDBError::invalid_argument("missing primary key field: ", missing.name.as_str()),
            );
        }
        self.build_pk(&values, readings)
    }
}

/// Once a value cannot be encoded, no longer run of values can.
pub proof fn lemma_key_bytes_fail(
    keys: Seq<FieldView>,
    values: Seq<ValueView>,
    readings: Seq<FloatReading>,
    failed: int,
    count: int,
)
    requires
        0 <= failed <= count,
        spec_key_bytes(keys, values, readings, failed) is None,
    ensures
        spec_key_bytes(keys, values, readings, count) is None,
    decreases count - failed,
{
    if failed < count {
        lemma_key_bytes_fail(keys, values, readings, failed, count - 1);
    }
}

/// The binding stops exactly at the first key field without a value.
pub proof fn lemma_leading_bound_is(keys: Seq<FieldView>, names: Set<Seq<char>>, count: int)
    requires
        0 <= count <= keys.len(),
        forall|j: int| 0 <= j < count ==> names.contains((#[trigger] keys[j]).name),
        count < keys.len() ==> !names.contains(keys[count].name),
    ensures
        leading_bound(keys, names) == count,
{
    lemma_bound_from_range(keys, names, 0);
    let found = leading_bound(keys, names);
    if found < count {
        assert(names.contains(keys[found].name));
    }
    if found > count {
        assert(names.contains(keys[count].name));
    }
}

/// With every key field bound, the key that the parameters make is complete.
pub proof fn law_all_bound_is_complete(
    keys: Seq<FieldView>,
    params: Map<Seq<char>, Seq<char>>,
    readings: Seq<FloatReading>,
)
    requires
        forall|j: int| 0 <= j < keys.len() ==> params.contains_key((#[trigger] keys[j]).name),
    ensures
        param_values(keys, params).len() == keys.len(),
        spec_build_pk_from_params(keys, params, readings) matches Some(key) ==> key is Complete,
{
    lemma_leading_bound_is(keys, params.dom(), keys.len() as int);
}

/// With the first `count` key fields bound and the next one not, the key is
/// a prefix made of those `count` fields, whatever is bound after the gap.
pub proof fn law_gap_gives_prefix(
    keys: Seq<FieldView>,
    params: Map<Seq<char>, Seq<char>>,
    readings: Seq<FloatReading>,
    count: int,
)
    requires
        0 <= count < keys.len(),
        forall|j: int| 0 <= j < count ==> params.contains_key((#[trigger] keys[j]).name),
        !params.contains_key(keys[count].name),
    ensures
        param_values(keys, params).len() == count,
        spec_build_pk_from_params(keys, params, readings) == match spec_key_bytes(
            keys,
            param_values(keys, params),
            readings,
            count,
        ) {
            Some(bytes) => Some(KeyView::Prefix(bytes)),
            None => None,
        },
{
    lemma_leading_bound_is(keys, params.dom(), count);
}

/// Two parameter maps that agree on the key fields before their common
/// first gap make the same key.
pub proof fn law_bindings_after_gap_are_ignored(
    keys: Seq<FieldView>,
    first: Map<Seq<char>, Seq<char>>,
    second: Map<Seq<char>, Seq<char>>,
    readings: Seq<FloatReading>,
    count: int,
)
    requires
        0 <= count < keys.len(),
        forall|j: int|
            0 <= j < count ==> first.contains_key((#[trigger] keys[j]).name)
                && second.contains_key(keys[j].name) && first[keys[j].name]
                == second[keys[j].name],
        !first.contains_key(keys[count].name),
        !second.contains_key(keys[count].name),
    ensures
        spec_build_pk_from_params(keys, first, readings) == spec_build_pk_from_params(
            keys,
            second,
            readings,
        ),
{
    lemma_leading_bound_is(keys, first.dom(), count);
    lemma_leading_bound_is(keys, second.dom(), count);
    assert(param_values(keys, first) =~= param_values(keys, second));
}

/// The encodings of a key field's value in two records, given as the field
/// values `low` and `high`, compared as keys are compared in the store.
pub open spec fn encoded_in_order(data_type: DataType, low: ValueView, high: ValueView) -> bool {
    match (
        spec_encode_field(data_type, low, no_reading()),
        spec_encode_field(data_type, high, no_reading()),
    ) {
        (Some(first), Some(second)) => lex_less(first, second),
        _ => false,
    }
}

/// Text fields are ordered as the UTF-8 bytes of their texts are.
pub proof fn law_text_fields_keep_order(a: Seq<char>, b: Seq<char>)
    requires
        lex_less(encode_utf8(a), encode_utf8(b)),
    ensures
        encoded_in_order(DataType::String, ValueView::Text(a), ValueView::Text(b)),
        encoded_in_order(DataType::DateTime, ValueView::Text(a), ValueView::Text(b)),
{
}

/// A boolean field orders `false` before `true`.
pub proof fn law_boolean_fields_keep_order()
    ensures
        encoded_in_order(DataType::Boolean, ValueView::Bool(false), ValueView::Bool(true)),
{
    let low = seq![0u8];
    let high = seq![1u8];
    assert(low.subrange(0, 0) =~= high.subrange(0, 0));
    assert(low[0] < high[0]);
    assert(differs_at(low, high, 0));
}

/// Int32 fields keep the numeric order among numbers of one sign. Across the
/// sign boundary they do not: negative numbers are ordered last.
pub proof fn law_int32_fields_keep_order(a: i32, b: i32)
    requires
        a < b,
        (a >= 0) == (b >= 0),
    ensures
        encoded_in_order(
            DataType::Int32,
            ValueView::Number { whole: Some(a as i64), double: None },
            ValueView::Number { whole: Some(b as i64), double: None },
        ),
{
    law_i32_order_within_sign(a, b);
}

/// Int64 fields keep the numeric order among numbers of one sign. Across the
/// sign boundary they do not: negative numbers are ordered last.
pub proof fn law_int64_fields_keep_order(a: i64, b: i64)
    requires
        a < b,
        (a >= 0) == (b >= 0),
    ensures
        encoded_in_order(
            DataType::Int64,
            ValueView::Number { whole: Some(a), double: None },
            ValueView::Number { whole: Some(b), double: None },
        ),
{
    law_i64_order_within_sign(a, b);
}

/// A record whose key fields hold the texts that the parameters bind to
/// them is stored under the key that the parameters address.
pub proof fn law_record_and_params_make_the_same_key(
    keys: Seq<FieldView>,
    data: Seq<u8>,
    params: Map<Seq<char>, Seq<char>>,
    readings: Seq<FloatReading>,
)
    requires
        parsed_json(data) matches Some(Json::Object(members)) && forall|i: int|
            0 <= i < keys.len() ==> members.contains_key((#[trigger] keys[i]).name)
                && params.contains_key(keys[i].name) && members[keys[i].name] == Json::Text(
                params[keys[i].name],
            ),
    ensures
        spec_build_pk_from_json(keys, data, readings) == spec_build_pk_from_params(
            keys,
            params,
            readings,
        ),
{
    let members = parsed_json(data)->0->Object_0;
    lemma_leading_bound_is(keys, members.dom(), keys.len() as int);
    lemma_leading_bound_is(keys, params.dom(), keys.len() as int);
    assert(record_values(keys, members) =~= param_values(keys, params));
}

} // verus!
