use constdb::errors::ConstDBError;
use constdb::model::DataType;
use constdb::model::Field;
use constdb::model::TableSettings;
use constdb::numbers::encode_i32;
use constdb::numbers::encode_i64;
use constdb::numbers::encode_u32;
use constdb::numbers::encode_u64;
use constdb::params::Params;
use constdb::pk::PrimaryKey;
use constdb::range::build_upper_bound;
use constdb::schema::cast_field_data_type;
use constdb::schema::get_json_object;
use constdb::schema::read_value;
use constdb::schema::FieldValue;
use constdb::schema::FloatReading;
use constdb::schema::SchemaHelper;

fn none() -> FloatReading {
    FloatReading::none()
}

fn text(value: &str) -> FieldValue {
    FieldValue::Text(value.to_string())
}

fn whole(value: i64) -> FieldValue {
    FieldValue::Number { whole: Some(value), double: Some((value as f64).to_bits()) }
}

fn encode(data_type: DataType, value: &FieldValue) -> Result<Vec<u8>, ConstDBError> {
    cast_field_data_type(value, &Field::new("k", data_type), none())
}

fn refused(data_type: DataType, value: &FieldValue) -> bool {
    matches!(encode(data_type, value), Err(ConstDBError::InvalidArguments(_)))
}

fn params(pairs: &[(&str, &str)]) -> Params {
    let mut params = Params::new();
    for (name, value) in pairs {
        params.insert(name, value);
    }
    params
}

fn three_keys() -> SchemaHelper {
    SchemaHelper::new(TableSettings::new(
        "t",
        vec![
            Field::new("a", DataType::String),
            Field::new("b", DataType::Int32),
            Field::new("c", DataType::Boolean),
        ],
    ))
}

#[test]
fn upper_bound_raises_the_last_byte_below_ff() {
    assert_eq!(build_upper_bound(&[0x01, 0xff]), Some(vec![0x02]));
    assert_eq!(build_upper_bound(&[0x01, 0x02]), Some(vec![0x01, 0x03]));
    assert_eq!(build_upper_bound(&[0x00]), Some(vec![0x01]));
    assert_eq!(build_upper_bound(&[0x61, 0xff, 0xff]), Some(vec![0x62]));
    assert_eq!(build_upper_bound(&[0xfe]), Some(vec![0xff]));
}

#[test]
fn upper_bound_of_ff_bytes_is_absent() {
    assert_eq!(build_upper_bound(&[0xff, 0xff]), None);
    assert_eq!(build_upper_bound(&[0xff]), None);
    assert_eq!(build_upper_bound(&[]), None);
}

#[test]
fn integers_are_big_endian() {
    assert_eq!(encode_u32(0x0102_0304), vec![1, 2, 3, 4]);
    assert_eq!(encode_u64(0x0102_0304_0506_0708), vec![1, 2, 3, 4, 5, 6, 7, 8]);
    assert_eq!(encode_i32(1), 1i32.to_be_bytes().to_vec());
    assert_eq!(encode_i32(-1), vec![0xff; 4]);
    assert_eq!(encode_i32(i32::MIN), i32::MIN.to_be_bytes().to_vec());
    assert_eq!(encode_i32(i32::MAX), i32::MAX.to_be_bytes().to_vec());
    assert_eq!(encode_i64(-2), (-2i64).to_be_bytes().to_vec());
    assert_eq!(encode_i64(i64::MIN), i64::MIN.to_be_bytes().to_vec());
    assert_eq!(encode_i64(i64::MAX), i64::MAX.to_be_bytes().to_vec());
    assert_eq!(encode_u64(u64::MAX), vec![0xff; 8]);
}

#[test]
fn text_is_stored_as_utf8() {
    assert_eq!(encode(DataType::String, &text("A1")), Ok(b"A1".to_vec()));
    assert_eq!(encode(DataType::String, &text("é")), Ok(vec![0xc3, 0xa9]));
    assert_eq!(encode(DataType::String, &text("")), Ok(vec![]));
    assert_eq!(encode(DataType::DateTime, &text("2024-01-02")), Ok(b"2024-01-02".to_vec()));
    assert!(refused(DataType::String, &whole(1)));
    assert!(refused(DataType::DateTime, &FieldValue::Bool(true)));
}

#[test]
fn booleans_are_one_byte() {
    assert_eq!(encode(DataType::Boolean, &FieldValue::Bool(true)), Ok(vec![1]));
    assert_eq!(encode(DataType::Boolean, &FieldValue::Bool(false)), Ok(vec![0]));
    assert_eq!(encode(DataType::Boolean, &text("true")), Ok(vec![1]));
    assert_eq!(encode(DataType::Boolean, &text("TrUe")), Ok(vec![1]));
    assert_eq!(encode(DataType::Boolean, &text("FALSE")), Ok(vec![0]));
    assert!(refused(DataType::Boolean, &text("yes")));
    assert!(refused(DataType::Boolean, &text("tru")));
    assert!(refused(DataType::Boolean, &whole(1)));
}

#[test]
fn integers_are_parsed_from_text() {
    assert_eq!(encode(DataType::Int32, &text("258")), Ok(vec![0, 0, 1, 2]));
    assert_eq!(encode(DataType::Int32, &text("+7")), Ok(vec![0, 0, 0, 7]));
    assert_eq!(encode(DataType::Int32, &text("-1")), Ok(vec![0xff; 4]));
    assert_eq!(encode(DataType::Int32, &text("-0")), Ok(vec![0; 4]));
    assert_eq!(encode(DataType::Int32, &text("2147483647")), Ok(vec![0x7f, 0xff, 0xff, 0xff]));
    assert_eq!(encode(DataType::Int64, &text("258")), Ok(vec![0, 0, 0, 0, 0, 0, 1, 2]));
    assert_eq!(
        encode(DataType::Int64, &text("-9223372036854775808")),
        Ok(vec![0x80, 0, 0, 0, 0, 0, 0, 0])
    );
    for bad in ["", "+", "-", "12a", " 1", "1 ", "1_0", "1.0", "2147483648", "-2147483649"] {
        assert!(refused(DataType::Int32, &text(bad)), "{:?}", bad);
    }
    for bad in ["", "x", "9223372036854775808", "0x10"] {
        assert!(refused(DataType::Int64, &text(bad)), "{:?}", bad);
    }
}

#[test]
fn integers_are_taken_from_numbers() {
    assert_eq!(encode(DataType::Int32, &whole(5)), Ok(vec![0, 0, 0, 5]));
    assert_eq!(encode(DataType::Int32, &whole(-2147483648)), Ok(vec![0x80, 0, 0, 0]));
    assert!(refused(DataType::Int32, &whole(2147483648)));
    assert!(refused(DataType::Int32, &whole(-2147483649)));
    assert_eq!(encode(DataType::Int64, &whole(2147483648)), Ok(vec![0, 0, 0, 0, 0x80, 0, 0, 0]));
    let fraction = FieldValue::Number { whole: None, double: Some(1.5f64.to_bits()) };
    assert!(refused(DataType::Int32, &fraction));
    assert!(refused(DataType::Int64, &fraction));
    assert!(refused(DataType::Int64, &FieldValue::Bool(true)));
}

#[test]
fn floats_are_the_bytes_of_their_readings() {
    let field = Field::new("k", DataType::Float32);
    let reading = FloatReading { single: Some(1.5f32.to_bits()), double: Some(1.5f64.to_bits()) };
    assert_eq!(cast_field_data_type(&text("1.5"), &field, reading), Ok(1.5f32.to_be_bytes().to_vec()));
    let number = FieldValue::Number { whole: None, double: Some(1.5f64.to_bits()) };
    assert_eq!(cast_field_data_type(&number, &field, reading), Ok(1.5f32.to_be_bytes().to_vec()));
    assert!(matches!(
        cast_field_data_type(&number, &field, none()),
        Err(ConstDBError::InvalidArguments(_))
    ));
    assert!(matches!(
        cast_field_data_type(&FieldValue::Bool(true), &field, reading),
        Err(ConstDBError::InvalidArguments(_))
    ));

    let field = Field::new("k", DataType::Float64);
    assert_eq!(cast_field_data_type(&text("1.5"), &field, reading), Ok(1.5f64.to_be_bytes().to_vec()));
    assert_eq!(cast_field_data_type(&number, &field, none()), Ok(1.5f64.to_be_bytes().to_vec()));
    assert_eq!(cast_field_data_type(&whole(2), &field, none()), Ok(2f64.to_be_bytes().to_vec()));
    assert!(matches!(
        cast_field_data_type(&text("x"), &field, none()),
        Err(ConstDBError::InvalidArguments(_))
    ));
}

#[test]
fn unknown_type_and_other_values_are_refused() {
    assert!(refused(DataType::Unknown, &text("a")));
    assert!(refused(DataType::Unknown, &whole(1)));
    assert!(refused(DataType::String, &FieldValue::Other));
    assert!(refused(DataType::Int64, &FieldValue::Other));
}

fn less(a: Vec<u8>, b: Vec<u8>) -> bool {
    a < b
}

#[test]
fn encoding_keeps_the_order_within_one_sign() {
    for (a, b) in [(0i64, 1i64), (1, 2), (255, 256), (65535, 65536), (1, i64::MAX)] {
        assert!(less(encode_i64(a), encode_i64(b)));
    }
    for (a, b) in [(0i32, 1i32), (255, 256), (65535, 65536), (1, i32::MAX)] {
        assert!(less(encode_i32(a), encode_i32(b)));
    }
    for (a, b) in [(-2i64, -1i64), (-256, -255), (i64::MIN, -1)] {
        assert!(less(encode_i64(a), encode_i64(b)));
    }
    assert!(less(encode_i32(-2), encode_i32(-1)));
    assert!(less(encode_i32(i32::MIN), encode_i32(-1)));
    let no = encode(DataType::Boolean, &FieldValue::Bool(false)).unwrap();
    let yes = encode(DataType::Boolean, &FieldValue::Bool(true)).unwrap();
    assert!(less(no, yes));
    let a = encode(DataType::String, &text("abc")).unwrap();
    let b = encode(DataType::String, &text("abd")).unwrap();
    assert!(less(a, b));
}

/// Accepted behaviour: the two's-complement and IEEE-754 encodings order
/// negative numbers after positive ones.
#[test]
fn encoding_reverses_the_order_across_the_sign() {
    assert!(less(encode_i64(1), encode_i64(-1)));
    assert!(less(encode_i64(i64::MAX), encode_i64(i64::MIN)));
    assert!(less(encode_i32(0), encode_i32(-5)));
    let field = Field::new("k", DataType::Float64);
    let bytes = |value: f64| {
        let reading = FloatReading { single: None, double: Some(value.to_bits()) };
        cast_field_data_type(&text("x"), &field, reading).unwrap()
    };
    assert!(less(bytes(1.0), bytes(2.0)));
    assert!(less(bytes(1.0), bytes(-1.0)));
    assert!(less(bytes(-1.0), bytes(-2.0)));
    let field = Field::new("k", DataType::Float32);
    let bytes = |value: f32| {
        let reading = FloatReading { single: Some(value.to_bits()), double: None };
        cast_field_data_type(&text("x"), &field, reading).unwrap()
    };
    assert!(less(bytes(0.5), bytes(1.5)));
    assert!(less(bytes(1.5), bytes(-0.5)));
}

#[test]
fn all_fields_bound_make_a_complete_key() {
    let key = three_keys()
        .build_pk_from_params(&params(&[("a", "x"), ("b", "1"), ("c", "true")]), &vec![])
        .unwrap();
    assert_eq!(key, PrimaryKey::Complete(vec![b'x', 0, 0, 0, 0, 1, 0, 1, 0]));
    assert_eq!(key.bytes(), &[b'x', 0, 0, 0, 0, 1, 0, 1, 0]);
    assert_eq!(key.complete().unwrap(), &[b'x', 0, 0, 0, 0, 1, 0, 1, 0]);
}

#[test]
fn leading_fields_bound_make_a_prefix() {
    let helper = three_keys();
    let key = helper.build_pk_from_params(&params(&[("a", "x"), ("b", "1")]), &vec![]).unwrap();
    assert_eq!(key, PrimaryKey::Prefix(vec![b'x', 0, 0, 0, 0, 1, 0]));
    let key = helper.build_pk_from_params(&params(&[("a", "x")]), &vec![]).unwrap();
    assert_eq!(key, PrimaryKey::Prefix(vec![b'x', 0]));
    let key = helper.build_pk_from_params(&params(&[]), &vec![]).unwrap();
    assert_eq!(key, PrimaryKey::Prefix(vec![]));
    assert_eq!(
        key.complete(),
        Err(ConstDBError::InvalidArguments("primary key not complete".to_string()))
    );
}

#[test]
fn fields_after_a_gap_are_ignored() {
    let helper = three_keys();
    let key = helper.build_pk_from_params(&params(&[("a", "x"), ("c", "true")]), &vec![]).unwrap();
    assert_eq!(key, PrimaryKey::Prefix(vec![b'x', 0]));
    let key = helper.build_pk_from_params(&params(&[("b", "1"), ("c", "true")]), &vec![]).unwrap();
    assert_eq!(key, PrimaryKey::Prefix(vec![]));
    let key = helper.build_pk_from_params(&params(&[("a", "x"), ("c", "nonsense")]), &vec![]);
    assert_eq!(key, Ok(PrimaryKey::Prefix(vec![b'x', 0])));
}

#[test]
fn a_bound_value_of_the_wrong_shape_is_refused() {
    let helper = three_keys();
    let key = helper.build_pk_from_params(&params(&[("a", "x"), ("b", "one")]), &vec![]);
    assert!(matches!(key, Err(ConstDBError::InvalidArguments(_))));
    let unknown = SchemaHelper::new(TableSettings::new("t", vec![Field::new("a", DataType::Unknown)]));
    let key = unknown.build_pk_from_params(&params(&[("a", "x")]), &vec![]);
    assert!(matches!(key, Err(ConstDBError::InvalidArguments(_))));
}

#[test]
fn a_table_without_key_fields_has_the_empty_complete_key() {
    let helper = SchemaHelper::new(TableSettings::new("t", vec![]));
    assert_eq!(
        helper.build_pk_from_params(&params(&[("a", "x")]), &vec![]),
        Ok(PrimaryKey::Complete(vec![]))
    );
}

#[test]
fn the_separator_keeps_a_shorter_value_apart() {
    let helper = SchemaHelper::new(TableSettings::new(
        "t",
        vec![Field::new("a", DataType::String), Field::new("b", DataType::String)],
    ));
    let short = helper.build_pk_from_params(&params(&[("a", "ab"), ("b", "c")]), &vec![]).unwrap();
    let long = helper.build_pk_from_params(&params(&[("a", "abc"), ("b", "")]), &vec![]).unwrap();
    assert_eq!(short.bytes(), b"ab\0c\0");
    assert_eq!(long.bytes(), b"abc\0\0");
    assert_ne!(short, long);
}

#[test]
fn a_record_makes_a_complete_key() {
    let helper = three_keys();
    let key = helper.build_pk_from_json(br#"{"c":false,"b":258,"a":"x","z":[1]}"#, &vec![]);
    assert_eq!(key, Ok(PrimaryKey::Complete(vec![b'x', 0, 0, 0, 1, 2, 0, 0, 0])));
    let key = helper.build_pk_from_json(br#"{"a":"x","b":"258","c":"TRUE"}"#, &vec![]);
    assert_eq!(key, Ok(PrimaryKey::Complete(vec![b'x', 0, 0, 0, 1, 2, 0, 1, 0])));
}

#[test]
fn a_record_that_lacks_a_key_field_is_refused() {
    let helper = three_keys();
    for record in [r#"{"a":"x","b":1}"#, r#"{"b":1,"c":true}"#, r#"{}"#, r#"{"a":"x","c":true}"#] {
        let key = helper.build_pk_from_json(record.as_bytes(), &vec![]);
        assert!(matches!(key, Err(ConstDBError::InvalidArguments(_))), "{}", record);
    }
}

#[test]
fn a_record_with_a_value_of_the_wrong_shape_is_refused() {
    let helper = three_keys();
    for record in [
        r#"{"a":1,"b":1,"c":true}"#,
        r#"{"a":"x","b":1.5,"c":true}"#,
        r#"{"a":"x","b":null,"c":true}"#,
        r#"{"a":"x","b":1,"c":[true]}"#,
        r#"{"a":"x","b":4294967296,"c":true}"#,
    ] {
        let key = helper.build_pk_from_json(record.as_bytes(), &vec![]);
        assert!(matches!(key, Err(ConstDBError::InvalidArguments(_))), "{}", record);
    }
}

#[test]
fn bytes_that_are_no_json_object_are_refused() {
    let helper = three_keys();
    assert!(matches!(helper.build_pk_from_json(b"[1]", &vec![]), Err(ConstDBError::InvalidArguments(_))));
    assert!(matches!(helper.build_pk_from_json(b"\"a\"", &vec![]), Err(ConstDBError::InvalidArguments(_))));
    assert!(matches!(helper.build_pk_from_json(b"{", &vec![]), Err(ConstDBError::InvalidStates(_))));
    assert!(matches!(helper.build_pk_from_json(b"", &vec![]), Err(ConstDBError::InvalidStates(_))));
    assert!(matches!(get_json_object(b"12"), Err(ConstDBError::InvalidArguments(_))));
    assert!(matches!(get_json_object(b"nul"), Err(ConstDBError::InvalidStates(_))));
    assert_eq!(get_json_object(br#"{"a":1}"#).unwrap().len(), 1);
}

#[test]
fn json_values_are_read_by_kind() {
    let read = |source: &str| read_value(&serde_json::from_str(source).unwrap());
    assert_eq!(read("\"a\""), text("a"));
    assert_eq!(read("true"), FieldValue::Bool(true));
    assert_eq!(read("7"), FieldValue::Number { whole: Some(7), double: Some(7f64.to_bits()) });
    assert_eq!(read("-7"), FieldValue::Number { whole: Some(-7), double: Some((-7f64).to_bits()) });
    assert_eq!(read("1.5"), FieldValue::Number { whole: None, double: Some(1.5f64.to_bits()) });
    assert_eq!(
        read("18446744073709551615"),
        FieldValue::Number { whole: None, double: Some((u64::MAX as f64).to_bits()) }
    );
    assert_eq!(read("null"), FieldValue::Other);
    assert_eq!(read("[1]"), FieldValue::Other);
    assert_eq!(read("{}"), FieldValue::Other);
}

#[test]
fn key_values_stop_at_the_first_gap() {
    let helper = three_keys();
    assert_eq!(
        helper.key_values_from_params(&params(&[("a", "x"), ("c", "true")])),
        vec![text("x")]
    );
    assert_eq!(
        helper.key_values_from_params(&params(&[("c", "1"), ("b", "2"), ("a", "3")])),
        vec![text("3"), text("2"), text("1")]
    );
    assert_eq!(
        helper.key_values_from_json(br#"{"a":"x","b":2}"#),
        Ok(vec![text("x"), whole(2)])
    );
    assert!(!helper.needs_readings());
    let floats = SchemaHelper::new(TableSettings::new("t", vec![Field::new("f", DataType::Float64)]));
    assert!(floats.needs_readings());
}

fn as_json(bytes: &[u8]) -> serde_json::Value {
    serde_json::from_slice(bytes).unwrap()
}

#[test]
fn update_merges_the_patch_into_the_record() {
    let helper = three_keys();
    let merged = helper
        .update(br#"{"a":"x","b":1,"c":true,"n":5,"keep":{"deep":1}}"#, br#"{"n":9,"new":[1,2]}"#)
        .unwrap();
    assert_eq!(
        as_json(&merged),
        as_json(br#"{"a":"x","b":1,"c":true,"n":9,"keep":{"deep":1},"new":[1,2]}"#)
    );
    let merged = helper.update(br#"{"a":"x","n":{"deep":1,"other":2}}"#, br#"{"n":{"deep":3}}"#).unwrap();
    assert_eq!(as_json(&merged), as_json(br#"{"a":"x","n":{"deep":3}}"#));
    let merged = helper.update(br#"{"a":"x"}"#, br#"{}"#).unwrap();
    assert_eq!(as_json(&merged), as_json(br#"{"a":"x"}"#));
}

#[test]
fn update_refuses_a_patch_that_names_a_key_field() {
    let helper = three_keys();
    for patch in [r#"{"a":"y"}"#, r#"{"n":1,"b":2}"#, r#"{"c":true}"#, r#"{"a":"x"}"#] {
        let merged = helper.update(br#"{"a":"x","b":1,"c":true}"#, patch.as_bytes());
        assert!(matches!(merged, Err(ConstDBError::InvalidArguments(_))), "{}", patch);
    }
}

#[test]
fn update_refuses_what_is_no_object() {
    let helper = three_keys();
    assert!(matches!(helper.update(b"[1]", b"{}"), Err(ConstDBError::InvalidArguments(_))));
    assert!(matches!(helper.update(b"{}", b"1"), Err(ConstDBError::InvalidArguments(_))));
    assert!(matches!(helper.update(b"{", b"{}"), Err(ConstDBError::InvalidStates(_))));
    assert!(matches!(helper.update(b"{}", b"}"), Err(ConstDBError::InvalidStates(_))));
}

#[test]
fn params_bind_names_to_values() {
    let mut params = Params::new();
    assert_eq!(params.get("a"), None);
    params.insert("a", "1");
    params.insert("b", "2");
    assert_eq!(params.get("a"), Some("1"));
    assert_eq!(params.get("b"), Some("2"));
    params.insert("a", "3");
    assert_eq!(params.get("a"), Some("3"));
    assert_eq!(params.get("c"), None);
}
