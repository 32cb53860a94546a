use arrow::array::{Array, AsArray, RecordBatch};
use arrow::datatypes::{
    i256, DataType as ArrowType, Date32Type, Decimal128Type, Decimal256Type, Float32Type,
    Float64Type, Int16Type, Int32Type, Int64Type, Int8Type, Time64NanosecondType, TimeUnit,
    TimestampMicrosecondType,
};
use trino_arrow::builder_map::BuilderMap;
use trino_arrow::json::{FiniteFloat, JsonNumber, JsonObject, JsonValue};
use trino_arrow::rows::{
    append_row_to_builders, build_record_batch, build_schema_from_columns, convert_rows,
    create_arrow_builder_for_field, create_builders, create_empty_array, empty_array,
    finish_builders, rows_to_arrow, try_build_schema_from_columns, try_rows_to_arrow,
};
use trino_arrow::trino::Error;
use trino_arrow::types::{DataType, Field, TrinoColumn};
use trino_arrow::values::Halt;

fn column(name: &str, trino_type: &str) -> TrinoColumn {
    TrinoColumn { name: name.to_string(), trino_type: trino_type.to_string() }
}

fn text(s: &str) -> JsonValue {
    JsonValue::Text(s.to_string())
}

fn number(n: i64) -> JsonValue {
    JsonValue::Number(JsonNumber::Signed(n))
}

fn float(f: f64) -> JsonValue {
    JsonValue::Number(JsonNumber::Float(FiniteFloat::from_bits(f.to_bits()).unwrap()))
}

fn object(members: Vec<(&str, JsonValue)>) -> JsonValue {
    let mut o = JsonObject::new();
    for (name, value) in members {
        o = o.insert(name.to_string(), value);
    }
    JsonValue::Object(o)
}

fn one_column(trino_type: &str, cells: Vec<JsonValue>) -> RecordBatch {
    let rows: Vec<Vec<JsonValue>> = cells.into_iter().map(|c| vec![c]).collect();
    rows_to_arrow(&rows, &vec![column("c", trino_type)]).unwrap().0
}

fn failure(trino_type: &str, cell: JsonValue) -> Error {
    match rows_to_arrow(&[vec![cell]], &vec![column("c", trino_type)]) {
        Ok(_) => panic!("a record batch"),
        Err(e) => e,
    }
}

#[test]
fn rows_become_columns() {
    let columns = vec![column("id", "bigint"), column("name", "VARCHAR"), column("n", "integer")];
    let rows = vec![
        vec![number(1), text("a"), number(5_000_000_000)],
        vec![number(-2), JsonValue::Bool(true)],
    ];
    let batch = rows_to_arrow(&rows, &columns).unwrap().0;
    assert_eq!(batch.num_rows(), 2);
    assert_eq!(batch.schema().field(1).name(), "name");
    assert!(batch.schema().field(1).is_nullable());
    let ids = batch.column(0).as_primitive::<Int64Type>();
    assert_eq!(ids.value(0), 1);
    assert_eq!(ids.value(1), -2);
    let names = batch.column(1).as_string::<i32>();
    assert_eq!(names.value(0), "a");
    assert_eq!(names.value(1), "true");
    let ns = batch.column(2).as_primitive::<Int32Type>();
    assert!(ns.is_null(0));
    assert!(ns.is_null(1));
    assert!(try_rows_to_arrow(&rows, &columns).unwrap().is_ok());
}

#[test]
fn flags_become_booleans() {
    let batch = one_column("boolean", vec![
        JsonValue::Bool(true), JsonValue::Bool(false), JsonValue::Null, text("true"), number(1),
    ]);
    let cells = batch.column(0).as_boolean();
    assert!(cells.value(0));
    assert!(!cells.value(1) && cells.is_valid(1));
    assert!(cells.is_null(2) && cells.is_null(3) && cells.is_null(4));
}

#[test]
fn integers_out_of_range_become_nulls() {
    let batch = one_column("tinyint", vec![number(127), number(-128), number(128), number(-129)]);
    let cells = batch.column(0).as_primitive::<Int8Type>();
    assert_eq!((cells.value(0), cells.value(1)), (127, -128));
    assert!(cells.is_null(2) && cells.is_null(3));

    let batch = one_column("smallint", vec![number(32767), number(32768), float(1.0), text("1")]);
    let cells = batch.column(0).as_primitive::<Int16Type>();
    assert_eq!(cells.value(0), 32767);
    assert!(cells.is_null(1) && cells.is_null(2) && cells.is_null(3));

    let batch = one_column("integer", vec![number(i32::MIN as i64), number(i32::MAX as i64 + 1)]);
    let cells = batch.column(0).as_primitive::<Int32Type>();
    assert_eq!(cells.value(0), i32::MIN);
    assert!(cells.is_null(1));

    let batch = one_column("bigint", vec![
        JsonValue::Number(JsonNumber::Unsigned(i64::MAX as u64)),
        JsonValue::Number(JsonNumber::Unsigned(i64::MAX as u64 + 1)),
        number(i64::MIN),
    ]);
    let cells = batch.column(0).as_primitive::<Int64Type>();
    assert_eq!(cells.value(0), i64::MAX);
    assert!(cells.is_null(1));
    assert_eq!(cells.value(2), i64::MIN);
}

#[test]
fn only_fractions_become_floats() {
    let batch = one_column("double", vec![float(1.5), number(2), JsonValue::Null, float(-0.0)]);
    let cells = batch.column(0).as_primitive::<Float64Type>();
    assert_eq!(cells.value(0), 1.5);
    assert!(cells.is_null(1) && cells.is_null(2));
    assert_eq!(cells.value(3).to_bits(), (-0.0f64).to_bits());

    let batch = one_column("real", vec![float(0.1), float(1e300), number(2)]);
    let cells = batch.column(0).as_primitive::<Float32Type>();
    assert_eq!(cells.value(0), 0.1f32);
    assert_eq!(cells.value(1), f32::INFINITY);
    assert!(cells.is_null(2));

    assert!(FiniteFloat::from_bits(f64::NAN.to_bits()).is_none());
    assert!(FiniteFloat::from_bits(f64::NEG_INFINITY.to_bits()).is_none());
    assert_eq!(FiniteFloat::from_bits(f64::MAX.to_bits()).unwrap().to_bits(), f64::MAX.to_bits());
}

#[test]
fn anything_becomes_text() {
    let cells = vec![
        text("plain"),
        number(-7),
        float(2.5),
        JsonValue::Bool(false),
        JsonValue::Array(vec![number(1), JsonValue::Null, text("\"q\"")]),
        object(vec![("b", number(2)), ("a", number(1))]),
        JsonValue::Null,
    ];
    let expected = [
        Some("plain"), Some("-7"), Some("2.5"), Some("false"), Some("[1,null,\"\\\"q\\\"\"]"),
        Some("{\"a\":1,\"b\":2}"), None,
    ];
    let batch = one_column("varchar", cells);
    let texts = batch.column(0).as_string::<i32>();
    for (i, e) in expected.iter().enumerate() {
        assert_eq!(texts.is_valid(i).then(|| texts.value(i)), *e);
    }
    let batch = one_column("json", vec![
        object(vec![("k", JsonValue::Array(vec![]))]), JsonValue::Null, text("x"),
    ]);
    let texts = batch.column(0).as_string::<i64>();
    assert_eq!(texts.value(0), "{\"k\":[]}");
    assert!(texts.is_null(1));
    assert_eq!(texts.value(2), "x");
}

#[test]
fn bytes_are_decoded_where_they_can_be() {
    let batch = one_column("varbinary", vec![text("aGk="), text("hi!"), number(1), JsonValue::Null]);
    let cells = batch.column(0).as_binary::<i32>();
    assert_eq!(cells.value(0), b"hi");
    assert_eq!(cells.value(1), b"hi!");
    assert!(cells.is_null(2) && cells.is_null(3));
}

#[test]
fn dates_count_days() {
    let batch = one_column("date", vec![text("1970-01-02"), text("1969-12-31"), text("2024-02-29"), number(3)]);
    let cells = batch.column(0).as_primitive::<Date32Type>();
    assert_eq!((cells.value(0), cells.value(1), cells.value(2)), (1, -1, 19782));
    assert!(cells.is_null(3));
    assert!(matches!(failure("date", text("2023-02-29")), Error::InvalidDateValue { value } if value == "2023-02-29"));
}

#[test]
fn times_count_nanoseconds() {
    let batch = one_column("time", vec![text("00:00:01"), text("12:34:56.789"), text("23:59:60.5"), JsonValue::Null]);
    let cells = batch.column(0).as_primitive::<Time64NanosecondType>();
    assert_eq!(cells.value(0), 1_000_000_000);
    assert_eq!(cells.value(1), 45_296_789_000_000);
    assert_eq!(cells.value(2), 86_399 * 1_000_000_000 + 1_500_000_000);
    assert!(cells.is_null(3));
    assert!(matches!(failure("time", text("25:00:00")), Error::InvalidTimeValue { value } if value == "25:00:00"));
}

#[test]
fn timestamps_count_microseconds() {
    let batch = one_column("timestamp", vec![
        text("1970-01-01 00:00:01.5"), text("1970-01-01T01:00:00+01:00"), number(3),
    ]);
    let cells = batch.column(0).as_primitive::<TimestampMicrosecondType>();
    assert_eq!(cells.value(0), 1_500_000);
    assert_eq!(cells.value(1), 0);
    assert!(cells.is_null(2));
    assert!(matches!(failure("timestamp", text("noon")), Error::InvalidTimestampValue { value } if value == "noon"));
    assert!(matches!(
        failure("timestamp with time zone", text("1970-01-01T00:00:00Z")),
        Error::FailedToBuildRecordBatch { .. }
    ));
}

#[test]
fn decimals_keep_their_integer_part() {
    let batch = one_column("decimal(10,2)", vec![
        text("12.99"), text("-12.99"), text("3e2"), text("1e60"), text("0e-99999999999"), number(5),
    ]);
    let cells = batch.column(0).as_primitive::<Decimal128Type>();
    assert_eq!(batch.column(0).data_type(), &ArrowType::Decimal128(10, 2));
    assert_eq!((cells.value(0), cells.value(1), cells.value(2)), (12, -12, 300));
    assert!(cells.is_null(3));
    assert_eq!(cells.value(4), 0);
    assert!(cells.is_null(5));
    assert!(matches!(failure("decimal(10,2)", text("x")), Error::FailedToParseDecimal { value } if value == "x"));
}

#[test]
fn wide_decimals_keep_their_digits() {
    let batch = one_column("decimal(50,10)", vec![
        text("12.99"), text("-1"), text("170141183460469231731687303715884105728"), number(5),
    ]);
    let cells = batch.column(0).as_primitive::<Decimal256Type>();
    assert_eq!(batch.column(0).data_type(), &ArrowType::Decimal256(50, 10));
    assert_eq!(cells.value(0), i256::from_i128(1299));
    assert_eq!(cells.value(1), i256::from_i128(-1));
    assert_eq!(cells.value(2), i256::from_parts(1u128 << 127, 0));
    assert!(cells.is_null(3));
    assert!(matches!(failure("decimal(50,10)", text("")), Error::FailedToParseDecimal { value } if value.is_empty()));
}

#[test]
fn decimal_sizes_must_be_arrows() {
    for (trino_type, fault) in [
        ("decimal(0)", "precision cannot be 0"),
        ("decimal(5,6)", "scale 6 is greater than precision 5"),
        ("decimal(77,0)", "precision 77 is greater than max 76"),
        ("row(a integer, b decimal(5,6), c decimal(0))", "scale 6 is greater than precision 5"),
        ("array(decimal(0))", "precision cannot be 0"),
    ] {
        match failure(trino_type, text("1")) {
            Error::FailedToBuildRecordBatch { source } => {
                assert!(source.to_string().contains(fault), "{trino_type}: {source}")
            }
            _ => panic!("{trino_type}"),
        }
    }
    let columns = vec![column("a", "decimal(5,6)"), column("b", "decimal(0)")];
    match rows_to_arrow(&[vec![]], &columns) {
        Err(Error::FailedToBuildRecordBatch { source }) => {
            assert!(source.to_string().contains("scale 6 is greater than precision 5"))
        }
        _ => panic!("a record batch"),
    }
}

#[test]
fn nulls_are_counted() {
    let batch = one_column("null", vec![JsonValue::Null, number(1)]);
    assert_eq!(batch.column(0).data_type(), &ArrowType::Null);
    assert_eq!(batch.num_rows(), 2);
}

#[test]
fn structs_take_objects_and_lists() {
    let batch = one_column("row(a integer, b varchar)", vec![
        object(vec![("b", text("x")), ("a", number(1)), ("z", number(9))]),
        JsonValue::Array(vec![number(2)]),
        JsonValue::Null,
        text("no struct"),
        object(vec![]),
    ]);
    let structs = batch.column(0).as_struct();
    let a = structs.column(0).as_primitive::<Int32Type>();
    let b = structs.column(1).as_string::<i32>();
    assert_eq!(structs.len(), 5);
    assert!(structs.is_valid(0) && structs.is_valid(1) && structs.is_valid(4));
    assert!(structs.is_null(2) && structs.is_null(3));
    assert_eq!((a.value(0), b.value(0)), (1, "x"));
    assert_eq!(a.value(1), 2);
    assert!(b.is_null(1));
    assert!(a.is_null(2) && b.is_null(3) && a.is_null(4));
}

#[test]
fn struct_fields_of_any_type_fill() {
    let trino_type = "row(a boolean, b tinyint, c smallint, d bigint, e real, f double, g json, \
                      h varbinary, i date, j time, k timestamp, l decimal(5,1), m decimal(40,1), n null, o array(integer))";
    let batch = one_column(trino_type, vec![JsonValue::Array(vec![
        JsonValue::Bool(true), number(1), number(2), number(3), float(0.5), float(1.5), text("{}"),
        text("aGk="), text("1970-01-02"), text("00:00:01"), text("1970-01-01 00:00:01"), text("7.9"),
        text("7.9"), JsonValue::Null, JsonValue::Array(vec![number(1)]),
    ])]);
    let s = batch.column(0).as_struct();
    assert!(s.column(0).as_boolean().value(0));
    assert_eq!(s.column(1).as_primitive::<Int8Type>().value(0), 1);
    assert_eq!(s.column(2).as_primitive::<Int16Type>().value(0), 2);
    assert_eq!(s.column(3).as_primitive::<Int64Type>().value(0), 3);
    assert_eq!(s.column(4).as_primitive::<Float32Type>().value(0), 0.5);
    assert_eq!(s.column(5).as_primitive::<Float64Type>().value(0), 1.5);
    assert_eq!(s.column(6).as_string::<i64>().value(0), "{}");
    assert_eq!(s.column(7).as_binary::<i32>().value(0), b"hi");
    assert_eq!(s.column(8).as_primitive::<Date32Type>().value(0), 1);
    assert_eq!(s.column(9).as_primitive::<Time64NanosecondType>().value(0), 1_000_000_000);
    assert_eq!(s.column(10).as_primitive::<TimestampMicrosecondType>().value(0), 1_000_000);
    assert_eq!(s.column(11).as_primitive::<Decimal128Type>().value(0), 7);
    assert_eq!(s.column(12).as_primitive::<Decimal256Type>().value(0), i256::from_i128(79));
    assert_eq!(s.column(13).len(), 1);
    assert_eq!(s.column(14).as_string::<i32>().value(0), "[1]");
}

#[test]
fn structs_without_fields_are_marked_only() {
    let batch = one_column("row()", vec![object(vec![]), JsonValue::Null]);
    assert_eq!(batch.num_rows(), 2);
    assert!(batch.column(0).is_null(1));
}

#[test]
fn zoned_timestamps_in_structs_break() {
    let columns = vec![column("c", "row(t timestamp with time zone)")];
    assert!(matches!(convert_rows(&[vec![JsonValue::Null]], &columns), Err(Halt::Broken)));
    assert!(try_rows_to_arrow(&[vec![JsonValue::Null]], &columns).is_none());
    assert!(try_rows_to_arrow(&[], &columns).is_none());
}

#[test]
fn enormous_scales_are_read() {
    let batch = one_column("decimal(10,2)", vec![
        text("1e-3000000000"), text("-1e-9223372036854775807"), text("1e3000000000"),
        text("-1e9223372036854775807"), text("0e3000000000"), text("1e39"), text("-1e38"),
    ]);
    let cells = batch.column(0).as_primitive::<Decimal128Type>();
    assert_eq!((cells.value(0), cells.value(1)), (0, 0));
    assert!(cells.is_valid(0) && cells.is_valid(1));
    assert!(cells.is_null(2) && cells.is_null(3));
    assert!(cells.is_valid(4) && cells.value(4) == 0);
    assert!(cells.is_null(5));
    assert_eq!(cells.value(6), -(10i128.pow(38)));
}

#[test]
fn list_columns_stay_empty() {
    let batch = one_column("array(integer)", vec![JsonValue::Array(vec![number(1)]), JsonValue::Null]);
    assert_eq!(batch.num_rows(), 0);
    let two = vec![column("a", "array(integer)"), column("b", "integer")];
    match rows_to_arrow(&[vec![JsonValue::Null, number(1)]], &two) {
        Err(Error::FailedToBuildRecordBatch { source }) => {
            assert!(source.to_string().contains("same length"))
        }
        _ => panic!("a record batch"),
    }
}

#[test]
fn names_must_differ() {
    let same = vec![column("a", "integer"), column("a", "integer")];
    assert!(matches!(
        rows_to_arrow(&[vec![number(1), number(2)]], &same),
        Err(Error::FailedToFindFieldInSchema { column_name }) if column_name == "a"
    ));
    let other = vec![column("a", "integer"), column("a", "varchar")];
    assert!(matches!(
        rows_to_arrow(&[vec![number(1), number(2)]], &other),
        Err(Error::BuilderDowncastError { expected }) if expected == "Int32Builder"
    ));
    let narrow = vec![column("a", "row(x integer, y integer)"), column("a", "row(x integer)")];
    assert!(try_rows_to_arrow(&[vec![JsonValue::Null, JsonValue::Null]], &narrow).is_none());
    let wide = vec![column("a", "row(x integer)"), column("a", "row(x integer, y integer)")];
    assert!(try_rows_to_arrow(&[vec![JsonValue::Null, JsonValue::Null]], &wide).is_none());
}

#[test]
fn nothing_becomes_nothing() {
    let batch = rows_to_arrow(&[], &vec![]).unwrap().0;
    assert_eq!((batch.num_rows(), batch.num_columns()), (0, 0));
    assert!(matches!(
        rows_to_arrow(&[vec![number(1)]], &vec![]),
        Err(Error::FailedToBuildRecordBatch { .. })
    ));
}

#[test]
fn schemas_are_kept_without_rows() {
    let columns = vec![column("id", "bigint"), column("name", "varchar")];
    let batch = rows_to_arrow(&[], &columns).unwrap().0;
    assert_eq!(batch.num_rows(), 0);
    let schema = batch.schema();
    for (i, (name, arrow_type)) in [("id", ArrowType::Int64), ("name", ArrowType::Utf8)].into_iter().enumerate() {
        let field = schema.field(i);
        assert_eq!((field.name().as_str(), field.data_type()), (name, &arrow_type));
        assert!(field.is_nullable());
    }
}

#[test]
fn no_rows_become_empty_columns() {
    let columns = vec![
        column("a", "boolean"), column("b", "tinyint"), column("c", "smallint"),
        column("d", "integer"), column("e", "bigint"), column("f", "real"), column("g", "double"),
        column("h", "varchar"), column("i", "varbinary"), column("j", "json"), column("k", "date"),
        column("l", "time"), column("m", "timestamp"), column("n", "null"),
        column("o", "array(varchar)"), column("p", "row(x integer)"), column("q", "decimal(38,10)"),
        column("r", "decimal(76,10)"),
    ];
    let batch = rows_to_arrow(&[], &columns).unwrap().0;
    assert_eq!((batch.num_rows(), batch.num_columns()), (0, 18));
    assert_eq!(
        batch.schema().field(12).data_type(),
        &ArrowType::Timestamp(TimeUnit::Microsecond, None)
    );
    for other in ["decimal(10,2)", "array(integer)", "timestamp with time zone"] {
        assert!(matches!(
            rows_to_arrow(&[], &vec![column("c", other)]),
            Err(Error::FailedToBuildRecordBatch { .. })
        ));
    }
    assert!(try_rows_to_arrow(&[], &vec![column("c", "row()")]).is_none());
    assert!(try_rows_to_arrow(&[], &vec![column("c", "row(d decimal(5))")]).is_none());
}

#[test]
fn unknown_types_are_refused() {
    let columns = vec![column("a", "integer"), column("b", "HyperLogLog")];
    assert!(matches!(
        rows_to_arrow(&[], &columns),
        Err(Error::UnsupportedTrinoType { trino_type }) if trino_type == "HyperLogLog"
    ));
    assert!(matches!(
        build_schema_from_columns(&columns),
        Err(Error::UnsupportedTrinoType { trino_type }) if trino_type == "HyperLogLog"
    ));
    assert!(try_build_schema_from_columns(&vec![column("a", "array)(")]).is_none());
    assert!(try_rows_to_arrow(&[], &vec![column("a", "array)(")]).is_none());
    let fields = try_build_schema_from_columns(&vec![column("a", "integer")]).unwrap().unwrap();
    assert_eq!(fields, vec![Field::new("a", DataType::Int32, true)]);
}

#[test]
fn builders_fill_and_finish() {
    let schema = vec![Field::new("a", DataType::Int32, true), Field::new("b", DataType::Utf8, false)];
    let mut builders = create_builders(&schema, 2).unwrap();
    assert!(append_row_to_builders(&vec![number(1), text("x")], &schema, &mut builders).is_ok());
    let arrays = finish_builders(builders, &schema).unwrap();
    let batch = build_record_batch(&schema, arrays).unwrap().0;
    assert_eq!(batch.column(1).as_string::<i32>().value(0), "x");

    let mut builders = create_builders(&schema, 2).unwrap();
    assert!(append_row_to_builders(&vec![number(1)], &schema, &mut builders).is_ok());
    let arrays = finish_builders(builders, &schema).unwrap();
    assert!(matches!(
        build_record_batch(&schema, arrays),
        Err(Error::FailedToBuildRecordBatch { .. })
    ));
    assert!(matches!(
        finish_builders(BuilderMap::new(), &schema),
        Err(Error::FailedToFindFieldInSchema { column_name }) if column_name == "a"
    ));
    assert!(matches!(
        create_arrow_builder_for_field(&Field::new("d", DataType::Decimal256(0, 0), true), 1),
        Err(Error::FailedToBuildRecordBatch { .. })
    ));
}

#[test]
fn map_types_have_builders_and_columns() {
    let entry = |fields: Vec<Field>| {
        DataType::MapOf(
            std::sync::Arc::new(Field::new("entries", DataType::Struct(fields), false)),
            false,
        )
    };
    let whole = entry(vec![
        Field::new("keys", DataType::Utf8, false),
        Field::new("values", DataType::Utf8, true),
    ]);
    let field = vec![Field::new("m", whole, true)];
    let array = create_empty_array(&field[0].data_type);
    assert_eq!(build_record_batch(&field, vec![array]).unwrap().0.num_rows(), 0);
    let builders = create_builders(&field, 1).unwrap();
    let arrays = finish_builders(builders, &field).unwrap();
    let batch = build_record_batch(&field, arrays).unwrap().0;
    assert!(matches!(batch.schema().field(0).data_type(), ArrowType::Map(_, false)));

    let short = vec![Field::new("m", DataType::Utf8, true)];
    let odd = entry(vec![Field::new("keys", DataType::Utf8, false)]);
    let array = empty_array(&odd).unwrap();
    assert!(build_record_batch(&short, vec![array]).is_ok());
}

fn full_row(n: i64, t: &str) -> Vec<JsonValue> {
    let part = object(vec![("d", text("1970-01-02")), ("v", text("7.9"))]);
    vec![number(n), text(t), part]
}

fn first_rows() -> Vec<Vec<JsonValue>> {
    vec![full_row(1, "a"), vec![number(2)]]
}

fn bad_row() -> Vec<JsonValue> {
    let part = object(vec![("d", text("x"))]);
    vec![number(1), text("a"), part]
}

#[test]
fn rows_convert_apart_as_together() {
    let columns = vec![
        column("n", "bigint"),
        column("t", "varchar"),
        column("r", "row(d date, v decimal(5,1))"),
    ];
    let second = vec![full_row(3, ""), full_row(4, "b"), Vec::new()];
    let mut together = first_rows();
    together.push(full_row(3, ""));
    together.push(full_row(4, "b"));
    together.push(Vec::new());
    let whole = rows_to_arrow(&together, &columns).unwrap().0;
    let a = rows_to_arrow(&first_rows(), &columns).unwrap().0;
    let b = rows_to_arrow(&second, &columns).unwrap().0;
    assert_eq!(whole.num_rows(), 5);
    assert_eq!(whole.schema(), a.schema());
    assert_eq!(a.schema(), b.schema());
    for i in 0..3 {
        let start = whole.column(i).slice(0, 2);
        let rest = whole.column(i).slice(2, 3);
        assert_eq!(&start, a.column(i));
        assert_eq!(&rest, b.column(i));
    }
    let mut spoilt = first_rows();
    spoilt.push(bad_row());
    assert!(rows_to_arrow(&[bad_row()], &columns).is_err());
    assert!(rows_to_arrow(&spoilt, &columns).is_err());
}
