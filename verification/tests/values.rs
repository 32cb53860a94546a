use arrow::array::{Array, AsArray, RecordBatch};
use bigdecimal::BigDecimal;
use std::sync::Arc;
use trino_arrow::builder::ColumnBuilder;
use trino_arrow::builder_map::BuilderMap;
use trino_arrow::decimal::to_decimal_256;
use trino_arrow::json::{JsonNumber, JsonObject, JsonValue};
use trino_arrow::rows::{build_record_batch, create_arrow_builder_for_field, finish_builders};
use trino_arrow::trino::Error;
use trino_arrow::types::{DataType, Field, TimeUnit};
use trino_arrow::values::{
    append_int8_value, append_large_string_value, append_list_value, append_map_value,
    append_null_to_any_builder, append_string_value, append_struct_value,
    append_struct_value_with_fields, append_to_struct_field_builder, append_value_to_builder,
    text_list_builder, text_map_builder, Halt,
};

fn text(s: &str) -> JsonValue {
    JsonValue::Text(s.to_string())
}

fn number(n: u64) -> JsonValue {
    JsonValue::Number(JsonNumber::Unsigned(n))
}

fn object(members: Vec<(&str, JsonValue)>) -> JsonValue {
    let mut o = JsonObject::new();
    for (name, value) in members {
        o = o.insert(name.to_string(), value);
    }
    JsonValue::Object(o)
}

fn builder(data_type: DataType) -> ColumnBuilder {
    create_arrow_builder_for_field(&Field::new("c", data_type, true), 4).unwrap()
}

fn column(b: ColumnBuilder, data_type: DataType) -> RecordBatch {
    let mut builders = BuilderMap::new();
    builders.insert("c".to_string(), b);
    let schema = vec![Field::new("c", data_type, true)];
    let arrays = finish_builders(builders, &schema).unwrap();
    build_record_batch(&schema, arrays).unwrap().0
}

fn text_lists() -> DataType {
    DataType::List(Arc::new(Field::new("item", DataType::Utf8, true)))
}

fn text_maps() -> DataType {
    let entries = DataType::Struct(vec![
        Field::new("keys", DataType::Utf8, false),
        Field::new("values", DataType::Utf8, true),
    ]);
    DataType::MapOf(Arc::new(Field::new("entries", entries, false)), false)
}

#[test]
fn text_lists_take_lists() {
    let mut b = text_list_builder();
    let items = JsonValue::Array(vec![text("a"), number(1), JsonValue::Null]);
    assert!(append_list_value(&mut b, Some(&items)).is_ok());
    assert!(append_list_value(&mut b, Some(&JsonValue::Null)).is_ok());
    assert!(append_list_value(&mut b, Some(&number(3))).is_ok());
    assert!(append_list_value(&mut b, None).is_ok());
    assert!(append_list_value(&mut b, Some(&JsonValue::Array(vec![]))).is_ok());
    let batch = column(b, text_lists());
    let lists = batch.column(0).as_list::<i32>();
    assert_eq!(lists.len(), 5);
    let first = lists.value(0);
    let first = first.as_string::<i32>();
    assert_eq!((first.value(0), first.value(1), first.value(2)), ("a", "1", "null"));
    assert!(lists.is_null(1) && lists.is_null(2) && lists.is_null(3));
    assert!(lists.is_valid(4) && lists.value(4).is_empty());
}

#[test]
fn other_builders_take_no_lists_and_no_maps() {
    let mut b = builder(DataType::Int8);
    assert!(append_list_value(&mut b, Some(&JsonValue::Array(vec![number(1)]))).is_ok());
    assert!(append_map_value(&mut b, Some(&object(vec![("k", number(1))]))).is_ok());
    assert!(append_map_value(&mut b, None).is_ok());
    assert_eq!(column(b, DataType::Int8).num_rows(), 0);
}

#[test]
fn text_maps_take_objects_and_pairs() {
    let mut b = text_map_builder();
    assert!(append_map_value(&mut b, Some(&object(vec![("k", text("v")), ("a", number(2))]))).is_ok());
    let pairs = JsonValue::Array(vec![
        object(vec![("key", text("x")), ("value", JsonValue::Bool(true))]),
        object(vec![("key", text("skipped"))]),
        number(7),
        object(vec![("a", number(1)), ("b", JsonValue::Null)]),
    ]);
    assert!(append_map_value(&mut b, Some(&pairs)).is_ok());
    assert!(append_map_value(&mut b, Some(&JsonValue::Null)).is_ok());
    assert!(append_map_value(&mut b, Some(&text("t"))).is_ok());
    assert!(append_map_value(&mut b, None).is_ok());
    let batch = column(b, text_maps());
    let maps = batch.column(0).as_map();
    assert_eq!(maps.len(), 5);
    assert!(maps.is_null(2) && maps.is_null(3) && maps.is_null(4));
    let first = maps.value(0);
    let keys = first.column(0).as_string::<i32>();
    let values = first.column(1).as_string::<i32>();
    assert_eq!((keys.value(0), values.value(0)), ("a", "2"));
    assert_eq!((keys.value(1), values.value(1)), ("k", "v"));
    let second = maps.value(1);
    let keys = second.column(0).as_string::<i32>();
    let values = second.column(1).as_string::<i32>();
    assert_eq!(second.len(), 2);
    assert_eq!((keys.value(0), values.value(0)), ("x", "true"));
    assert_eq!((keys.value(1), values.value(1)), ("1", "null"));
}

#[test]
fn builders_of_other_kinds_are_told() {
    let cases = vec![
        (DataType::Boolean, "BooleanBuilder"),
        (DataType::Int8, "Int8Builder"),
        (DataType::Int16, "Int16Builder"),
        (DataType::Int32, "Int32Builder"),
        (DataType::Int64, "Int64Builder"),
        (DataType::Float32, "Float32Builder"),
        (DataType::Float64, "Float64Builder"),
        (DataType::LargeUtf8, "LargeStringBuilder"),
        (DataType::Binary, "BinaryBuilder"),
        (DataType::Date32, "Date32Builder"),
        (DataType::Time64(TimeUnit::Nanosecond), "Time64NanosecondBuilder"),
        (DataType::Timestamp(TimeUnit::Microsecond, None), "TimestampMicrosecondBuilder"),
        (DataType::Decimal128(5, 1), "Decimal128Builder"),
        (DataType::Decimal256(50, 1), "Decimal256Builder"),
        (DataType::Struct(vec![]), "StructBuilder"),
        (DataType::Null, "NullBuilder"),
    ];
    for (data_type, name) in cases {
        let mut b = builder(DataType::Utf8);
        match append_value_to_builder(&mut b, Some(&text("no date")), &data_type) {
            Err(Halt::Failed(Error::BuilderDowncastError { expected })) => assert_eq!(expected, name),
            _ => panic!("{name}"),
        }
        assert_eq!(column(b, DataType::Utf8).num_rows(), 0);
    }
    for (data_type, name) in [
        (DataType::Utf8, "StringBuilder"),
        (DataType::Time64(TimeUnit::Microsecond), "StringBuilder (fallback)"),
        (DataType::Timestamp(TimeUnit::Nanosecond, None), "StringBuilder (fallback)"),
    ] {
        let mut b = builder(DataType::Int8);
        match append_value_to_builder(&mut b, None, &data_type) {
            Err(Halt::Failed(Error::BuilderDowncastError { expected })) => assert_eq!(expected, name),
            _ => panic!("{name}"),
        }
    }
    assert!(!append_int8_value(&mut builder(DataType::Int16), None));
    assert!(!append_large_string_value(&mut builder(DataType::Utf8), None));
}

#[test]
fn types_without_builders_are_written_as_text() {
    let mut b = builder(DataType::Time64(TimeUnit::Microsecond));
    assert!(append_value_to_builder(&mut b, Some(&number(5)), &DataType::Time64(TimeUnit::Microsecond)).is_ok());
    let batch = column(b, DataType::Utf8);
    assert_eq!(batch.column(0).as_string::<i32>().value(0), "5");
    let mut b = builder(DataType::Utf8);
    assert!(append_string_value(&mut b, Some(&text("s")), "text").is_ok());
    assert_eq!(column(b, DataType::Utf8).column(0).as_string::<i32>().value(0), "s");
}

#[test]
fn any_builder_takes_a_null() {
    for data_type in [
        DataType::Boolean, DataType::Int8, DataType::Int16, DataType::Int32, DataType::Int64,
        DataType::Float32, DataType::Float64, DataType::Utf8, DataType::LargeUtf8,
        DataType::Binary, DataType::Date32, DataType::Time64(TimeUnit::Nanosecond),
        DataType::Timestamp(TimeUnit::Microsecond, None), DataType::Decimal128(5, 1),
        DataType::Decimal256(50, 1),
    ] {
        let field = Field::new("c", data_type, true);
        let mut b = create_arrow_builder_for_field(&field, 1).unwrap();
        append_null_to_any_builder(&mut b);
        let batch = column(b, field.data_type);
        assert!(batch.num_rows() == 1 && batch.column(0).is_null(0));
    }
    let mut b = builder(DataType::Null);
    append_null_to_any_builder(&mut b);
    assert_eq!(column(b, DataType::Null).num_rows(), 1);
    let mut b = text_list_builder();
    append_null_to_any_builder(&mut b);
    assert_eq!(column(b, text_lists()).num_rows(), 0);
}

#[test]
fn struct_columns_fill_one_by_one() {
    let fields = || vec![Field::new("a", DataType::Int32, true), Field::new("d", DataType::Date32, true)];
    let mut b = builder(DataType::Struct(fields()));
    assert!(append_struct_value(&mut b, Some(&object(vec![("a", number(1))])), &fields()).is_ok());
    assert!(append_struct_value_with_fields(&mut b, None, &fields()).is_ok());
    let batch = column(b, DataType::Struct(fields()));
    assert_eq!(batch.num_rows(), 2);
    assert!(batch.column(0).is_valid(0) && batch.column(0).is_null(1));

    let mut b = builder(DataType::Struct(fields()));
    let bad = object(vec![("a", number(1)), ("d", text("x"))]);
    assert!(matches!(
        append_struct_value(&mut b, Some(&bad), &fields()),
        Err(Halt::Failed(Error::InvalidDateValue { value })) if value == "x"
    ));
    assert!(matches!(
        append_to_struct_field_builder(&mut b, 0, None, &DataType::Utf8),
        Err(Halt::Failed(Error::BuilderDowncastError { expected })) if expected == "StringBuilder"
    ));
    assert!(append_to_struct_field_builder(&mut b, 1, None, &DataType::Date32).is_ok());
    let three = vec![
        Field::new("a", DataType::Int32, true),
        Field::new("d", DataType::Date32, true),
        Field::new("e", DataType::Date32, true),
    ];
    assert!(matches!(append_struct_value(&mut b, None, &three), Err(Halt::Broken)));
}

#[test]
fn wide_words_are_two_s_complement() {
    let word = |s: &str| to_decimal_256(&s.parse::<BigDecimal>().unwrap());
    assert_eq!(word("0"), [0u8; 32]);
    assert_eq!(word("-1"), [255u8; 32]);
    let mut expected = [0u8; 32];
    expected[0] = 0x34;
    expected[1] = 0x12;
    assert_eq!(word("46.60"), expected);
    let mut expected = [255u8; 32];
    expected[0] = 0x80;
    assert_eq!(word("-128"), expected);
    // Two to the power of 256, and five: the bytes above the lowest 32 are left out.
    let mut expected = [0u8; 32];
    expected[0] = 5;
    assert_eq!(
        word("115792089237316195423570985008687907853269984665640564039457584007913129639941"),
        expected
    );
}

#[test]
fn one_builder_takes_many_values() {
    let fields = || vec![Field::new("a", DataType::Int32, true), Field::new("b", DataType::Utf8, true)];
    let by_name = object(vec![("b", text("x")), ("a", number(1))]);
    let by_place = JsonValue::Array(vec![number(1), text("x")]);
    let t = DataType::Struct(fields());
    let mut b = builder(DataType::Struct(fields()));
    for value in [Some(&by_name), None, Some(&by_place), Some(&JsonValue::Null)] {
        assert!(append_value_to_builder(&mut b, value, &t).is_ok());
    }
    let batch = column(b, t);
    let structs = batch.column(0);
    assert_eq!(structs.len(), 4);
    assert_eq!(structs.slice(0, 1).as_ref(), structs.slice(2, 1).as_ref());
    assert!(structs.is_valid(0) && structs.is_null(1) && structs.is_valid(2) && structs.is_null(3));
    let mut b = builder(DataType::Int8);
    for n in 0..200u64 {
        assert!(append_value_to_builder(&mut b, Some(&number(n)), &DataType::Int8).is_ok());
    }
    let batch = column(b, DataType::Int8);
    let cells = batch.column(0);
    assert_eq!((cells.len(), cells.null_count()), (200, 72));
}
