use std::sync::Arc;
use trino_arrow::schema::{
    parse_array_type, parse_decimal_type, parse_row_type, split_respecting_parentheses,
    trino_data_type_to_arrow_type, try_parse_array_type, try_parse_row_type,
    try_trino_data_type_to_arrow_type,
};
use trino_arrow::trino::Error;
use trino_arrow::types::{DataType, Field, TimeUnit};

#[test]
fn test_basic_types() {
    assert_eq!(
        trino_data_type_to_arrow_type("null").unwrap(),
        DataType::Null
    );
    assert_eq!(
        trino_data_type_to_arrow_type("boolean").unwrap(),
        DataType::Boolean
    );
    assert_eq!(
        trino_data_type_to_arrow_type("tinyint").unwrap(),
        DataType::Int8
    );
    assert_eq!(
        trino_data_type_to_arrow_type("smallint").unwrap(),
        DataType::Int16
    );
    assert_eq!(
        trino_data_type_to_arrow_type("integer").unwrap(),
        DataType::Int32
    );
    assert_eq!(
        trino_data_type_to_arrow_type("bigint").unwrap(),
        DataType::Int64
    );
    assert_eq!(
        trino_data_type_to_arrow_type("real").unwrap(),
        DataType::Float32
    );
    assert_eq!(
        trino_data_type_to_arrow_type("double").unwrap(),
        DataType::Float64
    );
}

#[test]
fn test_string_types() {
    assert_eq!(
        trino_data_type_to_arrow_type("varchar").unwrap(),
        DataType::Utf8
    );
    assert_eq!(
        trino_data_type_to_arrow_type("char").unwrap(),
        DataType::Utf8
    );
    assert_eq!(
        trino_data_type_to_arrow_type("varbinary").unwrap(),
        DataType::Binary
    );
    assert_eq!(
        trino_data_type_to_arrow_type("json").unwrap(),
        DataType::LargeUtf8
    );
}

#[test]
fn test_parametrized_string_types() {
    assert_eq!(
        trino_data_type_to_arrow_type("varchar(255)").unwrap(),
        DataType::Utf8
    );
    assert_eq!(
        trino_data_type_to_arrow_type("char(10)").unwrap(),
        DataType::Utf8
    );
    assert_eq!(
        trino_data_type_to_arrow_type("varbinary(1000)").unwrap(),
        DataType::Binary
    );
}

#[test]
fn test_temporal_types() {
    assert_eq!(
        trino_data_type_to_arrow_type("date").unwrap(),
        DataType::Date32
    );
    assert_eq!(
        trino_data_type_to_arrow_type("time").unwrap(),
        DataType::Time64(TimeUnit::Nanosecond)
    );
    assert_eq!(
        trino_data_type_to_arrow_type("timestamp").unwrap(),
        DataType::Timestamp(TimeUnit::Microsecond, None)
    );
    assert_eq!(
        trino_data_type_to_arrow_type("timestamp with time zone").unwrap(),
        DataType::Timestamp(TimeUnit::Microsecond, Some("UTC".to_string()))
    );
}

#[test]
fn test_case_insensitive() {
    assert_eq!(
        trino_data_type_to_arrow_type("BOOLEAN").unwrap(),
        DataType::Boolean
    );
    assert_eq!(
        trino_data_type_to_arrow_type("Boolean").unwrap(),
        DataType::Boolean
    );
    assert_eq!(
        trino_data_type_to_arrow_type("VARCHAR").unwrap(),
        DataType::Utf8
    );
    assert_eq!(
        trino_data_type_to_arrow_type("TIMESTAMP WITH TIME ZONE").unwrap(),
        DataType::Timestamp(TimeUnit::Microsecond, Some("UTC".to_string()))
    );
}

#[test]
fn test_decimal_types() {
    assert_eq!(
        trino_data_type_to_arrow_type("decimal").unwrap(),
        DataType::Decimal128(18, 6)
    );

    assert_eq!(
        trino_data_type_to_arrow_type("decimal(10)").unwrap(),
        DataType::Decimal128(10, 0)
    );

    assert_eq!(
        trino_data_type_to_arrow_type("decimal(10,2)").unwrap(),
        DataType::Decimal128(10, 2)
    );

    assert_eq!(
        trino_data_type_to_arrow_type("decimal(50,10)").unwrap(),
        DataType::Decimal256(50, 10)
    );

    assert_eq!(
        trino_data_type_to_arrow_type("numeric(10,2)").unwrap(),
        DataType::Decimal128(10, 2)
    );

    assert_eq!(
        trino_data_type_to_arrow_type("decimal(38,0)").unwrap(),
        DataType::Decimal128(38, 0)
    );

    assert_eq!(
        trino_data_type_to_arrow_type("decimal(39,0)").unwrap(),
        DataType::Decimal256(39, 0)
    );
}

#[test]
fn test_array_types() {
    assert_eq!(
        trino_data_type_to_arrow_type("array(integer)").unwrap(),
        DataType::List(Arc::new(Field::new("item", DataType::Int32, true)))
    );

    assert_eq!(
        trino_data_type_to_arrow_type("array(varchar)").unwrap(),
        DataType::List(Arc::new(Field::new("item", DataType::Utf8, true)))
    );

    assert_eq!(
        trino_data_type_to_arrow_type("array(decimal(10,2))").unwrap(),
        DataType::List(Arc::new(Field::new(
            "item",
            DataType::Decimal128(10, 2),
            true
        )))
    );
}

#[test]
fn test_nested_array_types() {
    // Array of array becomes array of strings
    assert_eq!(
        trino_data_type_to_arrow_type("array(array(integer))").unwrap(),
        DataType::List(Arc::new(Field::new("item", DataType::Utf8, true))),
    );

    // Array of maps becomes array of strings
    assert_eq!(
        trino_data_type_to_arrow_type("array(map(varchar, integer))").unwrap(),
        DataType::List(Arc::new(Field::new("item", DataType::Utf8, true)))
    );

    // Array of maps becomes array of strings
    assert_eq!(
        trino_data_type_to_arrow_type("array(row(name varchar, age integer))").unwrap(),
        DataType::List(Arc::new(Field::new("item", DataType::Utf8, true)))
    );
}

#[test]
fn test_map_types() {
    // Maps are represented as strings

    assert_eq!(
        trino_data_type_to_arrow_type("map(varchar, integer)").unwrap(),
        DataType::Utf8,
    );

    assert_eq!(
        trino_data_type_to_arrow_type("map(integer, double)").unwrap(),
        DataType::Utf8,
    );
}

#[test]
fn test_row_type_simple() {
    let expected = DataType::Struct(vec![
        Field::new("name", DataType::Utf8, true),
        Field::new("age", DataType::Int32, true),
    ]);
    assert_eq!(
        trino_data_type_to_arrow_type("row(name varchar, age integer)").unwrap(),
        expected
    );
}

#[test]
fn test_row_type_complex() {
    let expected_multi = DataType::Struct(vec![
        Field::new("id", DataType::Int64, true),
        Field::new("name", DataType::Utf8, true),
        Field::new("salary", DataType::Decimal128(10, 2), true),
        Field::new("active", DataType::Boolean, true),
    ]);
    assert_eq!(
        trino_data_type_to_arrow_type(
            "row(id bigint, name varchar, salary decimal(10,2), active boolean)"
        )
        .unwrap(),
        expected_multi
    );
}

#[test]
fn test_row_type_with_array() {
    let expected_row_array = DataType::Struct(vec![
        Field::new("name", DataType::Utf8, true),
        Field::new("scores", DataType::Utf8, true),
    ]);
    assert_eq!(
        trino_data_type_to_arrow_type("row(name varchar, scores array(integer))").unwrap(),
        expected_row_array
    );
}

#[test]
fn test_row_type_with_map() {
    let expected_row_array = DataType::Struct(vec![
        Field::new("name", DataType::Utf8, true),
        Field::new("scores", DataType::Utf8, true),
    ]);
    assert_eq!(
        trino_data_type_to_arrow_type("row(name varchar, scores map(varchar, integer))")
            .unwrap(),
        expected_row_array
    );
}

#[test]
fn test_row_type_with_nested_row() {
    let expected_row_array = DataType::Struct(vec![
        Field::new("name", DataType::Utf8, true),
        Field::new("scores", DataType::Utf8, true),
    ]);
    assert_eq!(
        trino_data_type_to_arrow_type("row(name varchar, scores row(value integer))").unwrap(),
        expected_row_array
    );
}

#[test]
fn test_unsupported_types() {
    let result = trino_data_type_to_arrow_type("unknown_type");
    assert!(result.is_err());
    if let Err(Error::UnsupportedTrinoType { trino_type }) = result {
        assert_eq!(trino_type, "unknown_type");
    }
}

#[test]
fn splits_outside_parentheses_only() {
    assert_eq!(
        split_respecting_parentheses("a decimal(10,2), b map(varchar, integer) ,c", ','),
        vec!["a decimal(10,2)", "b map(varchar, integer)", "c"]
    );
    assert_eq!(split_respecting_parentheses("a,,b", ','), vec!["a", "", "b"]);
    assert_eq!(split_respecting_parentheses("a,", ','), vec!["a"]);
    assert_eq!(split_respecting_parentheses("", ','), Vec::<String>::new());
    assert_eq!(split_respecting_parentheses(" ", ','), vec![""]);
    assert_eq!(split_respecting_parentheses("a),b", ','), vec!["a),b"]);
    assert_eq!(split_respecting_parentheses("\u{e9}\u{3000}, \u{df}", ','), vec!["\u{e9}", "\u{df}"]);
}

#[test]
fn decimal_parameters_fall_back() {
    assert_eq!(parse_decimal_type("decimal( 12 , -3 )").unwrap(), DataType::Decimal128(12, -3));
    assert_eq!(parse_decimal_type("decimal(x,2)").unwrap(), DataType::Decimal128(38, 2));
    assert_eq!(parse_decimal_type("decimal(300,2)").unwrap(), DataType::Decimal128(38, 2));
    assert_eq!(parse_decimal_type("decimal(10,y)").unwrap(), DataType::Decimal128(10, 0));
    assert_eq!(parse_decimal_type("decimal(+10,+4,7)").unwrap(), DataType::Decimal128(10, 4));
    assert_eq!(parse_decimal_type("decimal(10,2").unwrap(), DataType::Decimal128(18, 6));
    assert_eq!(parse_decimal_type("decimal()").unwrap(), DataType::Decimal128(38, 0));
}

#[test]
fn container_names_without_parentheses_are_unsupported() {
    assert!(matches!(
        parse_array_type("array"),
        Err(Error::UnsupportedTrinoType { trino_type }) if trino_type == "array"
    ));
    assert!(matches!(
        parse_row_type("row(a integer"),
        Err(Error::UnsupportedTrinoType { trino_type }) if trino_type == "row(a integer"
    ));
    assert!(matches!(
        trino_data_type_to_arrow_type("array(Point)"),
        Err(Error::UnsupportedTrinoType { trino_type }) if trino_type == "point"
    ));
    assert!(matches!(
        trino_data_type_to_arrow_type("Point"),
        Err(Error::UnsupportedTrinoType { trino_type }) if trino_type == "Point"
    ));
}

#[test]
fn row_fields_without_a_type_are_passed_over() {
    assert_eq!(
        trino_data_type_to_arrow_type("row(a, B Integer)").unwrap(),
        DataType::Struct(vec![Field::new("b", DataType::Int32, true)])
    );
    assert_eq!(trino_data_type_to_arrow_type("row()").unwrap(), DataType::Struct(vec![]));
}

#[test]
fn crossed_parentheses_are_no_type() {
    assert!(try_trino_data_type_to_arrow_type("decimal)10(").is_none());
    assert!(try_trino_data_type_to_arrow_type("array)(").is_none());
    assert!(try_trino_data_type_to_arrow_type("row(a array)x()").is_none());
    assert_eq!(
        try_trino_data_type_to_arrow_type("Decimal(10,2)").unwrap().unwrap(),
        DataType::Decimal128(10, 2)
    );
}

#[test]
fn case_is_folded_beyond_ascii() {
    assert_eq!(
        trino_data_type_to_arrow_type("ROW(\u{c9}T\u{c9} DATE)").unwrap(),
        DataType::Struct(vec![Field::new("\u{e9}t\u{e9}", DataType::Date32, true)])
    );
}

#[test]
fn parts_are_read_in_any_case() {
    let item = |t| DataType::List(Arc::new(Field::new("item", t, true)));
    assert_eq!(parse_array_type("Array(INTEGER)").unwrap(), item(DataType::Int32));
    assert_eq!(try_parse_array_type("array(Row(A DATE))").unwrap().unwrap(), item(DataType::Utf8));
    assert_eq!(
        parse_row_type("row(Id BIGINT, When Timestamp)").unwrap(),
        DataType::Struct(vec![
            Field::new("Id", DataType::Int64, true),
            Field::new("When", DataType::Timestamp(TimeUnit::Microsecond, None), true),
        ])
    );
    assert!(matches!(
        parse_array_type("array(Point)"),
        Err(Error::UnsupportedTrinoType { trino_type }) if trino_type == "Point"
    ));
    assert!(try_parse_array_type("array)(").is_none());
    assert!(try_parse_row_type("row)(").is_none());
    assert!(try_parse_row_type("row(a decimal)(2)").is_none());
}

#[test]
fn split_pieces_join_back() {
    let text = "a decimal(10,2),b map(varchar,integer),c";
    assert_eq!(split_respecting_parentheses(text, ',').join(","), text);
    let pieces = vec!["x", "", "f(a,b)", "y z"];
    assert_eq!(split_respecting_parentheses(&pieces.join(";"), ';'), pieces);
}
