use arrow::array::AsArray;
use arrow::datatypes::Int64Type;
use reqwest::Client;
use std::sync::Arc;
use trino_arrow::json::{JsonNumber, JsonObject, JsonValue};
use trino_arrow::schema::try_trino_data_type_to_arrow_type;
use trino_arrow::trinoconn::{
    arrow_type_to_trino_type_string, check_poll, check_submission, chunk_count, convert_chunk,
    describe_statement, handle_unsupported_type_error, http_url, projected_columns, read_table,
    Error, Next, Query, TableFault, TrinoConnection, UnsupportedTypeAction, CHUNK_SIZE,
};
use trino_arrow::types::{DataType, Field, TimeUnit};

fn text(s: &str) -> JsonValue {
    JsonValue::Text(s.to_string())
}

fn number(n: u64) -> JsonValue {
    JsonValue::Number(JsonNumber::Unsigned(n))
}

fn object(members: Vec<(&str, JsonValue)>) -> JsonValue {
    let mut o = JsonObject::new();
    for (name, value) in members {
        o = o.insert(name.to_string(), value);
    }
    JsonValue::Object(o)
}

fn page(state: &str, data: Option<JsonValue>, next: Option<&str>) -> JsonValue {
    let mut members = vec![("stats", object(vec![("state", text(state))]))];
    if let Some(data) = data {
        members.push(("data", data));
    }
    if let Some(next) = next {
        members.push(("nextUri", text(next)));
    }
    object(members)
}

fn rows(ns: &[u64]) -> JsonValue {
    JsonValue::Array(ns.iter().map(|n| JsonValue::Array(vec![number(*n)])).collect())
}

fn connection() -> TrinoConnection {
    TrinoConnection::new_with_config(Arc::new(Client::new()), "http://h:8080".to_string()).unwrap()
}

#[test]
fn connections_take_http_urls() {
    let c = connection();
    assert_eq!(c.base_url, "http://h:8080");
    assert_eq!(c.statement_url(), "http://h:8080/v1/statement");
    assert!(c.unsupported_type_action == UnsupportedTypeAction::Error);
    let c = c.with_unsupported_type_action(UnsupportedTypeAction::Warn);
    assert!(c.unsupported_type_action == UnsupportedTypeAction::Warn);
    for url in ["ftp://h", "http:/h", "", "HTTP://h"] {
        assert!(!http_url(url));
        match TrinoConnection::new_with_config(Arc::new(Client::new()), url.to_string()) {
            Err(Error::InvalidUrl { url: u }) => assert_eq!(u, url),
            _ => panic!("{url}"),
        }
    }
    assert!(http_url("https://"));
    let c = TrinoConnection::new(Arc::new(Client::new()));
    assert_eq!(c.base_url, "");
    assert_eq!(c.statement_url(), "/v1/statement");
    assert!(matches!(c.execute("DELETE FROM t"), Ok(100)));
}

#[test]
fn finished_queries_have_all_rows() {
    let mut q = Query::new();
    assert!(matches!(q.take_page(&page("QUEUED", None, Some("u1"))), Ok(Next::Poll(u)) if u == "u1"));
    assert!(matches!(q.take_page(&page("RUNNING", Some(rows(&[1, 2])), Some("u2"))), Ok(Next::Poll(u)) if u == "u2"));
    let mixed = JsonValue::Array(vec![
        JsonValue::Array(vec![number(3)]), number(9), JsonValue::Array(vec![]),
    ]);
    assert!(matches!(q.take_page(&page("FINISHED", Some(mixed), Some("u3"))), Ok(Next::Finish)));
    let all = q.into_rows();
    assert_eq!(all, vec![vec![number(1)], vec![number(2)], vec![number(3)], vec![]]);
}

#[test]
fn failed_queries_say_why() {
    let cases = vec![
        (page("FAILED", Some(rows(&[1])), Some("u")), 500, "Query failed"),
        (page("CANCELED", None, Some("u")), 499, "Query was canceled"),
        (page("RUNNING", None, None), 500, "Query stuck in state: RUNNING"),
        (object(vec![("nextUri", number(1))]), 500, "Query stuck in state: "),
        (object(vec![("stats", object(vec![("state", number(1))]))]), 500, "Query stuck in state: "),
        (text("no page"), 500, "Query stuck in state: "),
    ];
    for (p, code, words) in cases {
        match Query::new().take_page(&p) {
            Err(Error::TrinoServerError { status_code, message }) => {
                assert_eq!((status_code, message.as_str()), (code, words));
            }
            _ => panic!("{words}"),
        }
    }
    let stateless = object(vec![("nextUri", text("u"))]);
    assert!(matches!(Query::new().take_page(&stateless), Ok(Next::Poll(_))));
}

#[test]
fn statuses_are_checked() {
    assert!(check_submission(200, String::new()).is_ok());
    assert!(check_submission(299, String::new()).is_ok());
    assert!(matches!(check_submission(401, "m".to_string()), Err(Error::AuthenticationFailedError)));
    assert!(matches!(
        check_submission(300, "m".to_string()),
        Err(Error::TrinoServerError { status_code: 300, message }) if message == "m"
    ));
    assert!(check_poll(204, String::new()).is_ok());
    assert!(matches!(
        check_poll(401, "m".to_string()),
        Err(Error::TrinoServerError { status_code: 401, message }) if message == "m"
    ));
    assert!(check_poll(199, String::new()).is_err());
}

#[test]
fn descriptions_become_fields() {
    assert_eq!(describe_statement("tpch.tiny.region"), "DESCRIBE tpch.tiny.region");
    let described = vec![
        vec![text("id"), text("BIGINT"), text("false")],
        vec![text("short")],
        vec![text("name"), text("varchar(10)"), text("")],
        vec![text("flag"), text("boolean"), JsonValue::Bool(false)],
        vec![text("price"), text("decimal(40,2)")],
    ];
    let expected = vec![
        Field::new("id", DataType::Int64, false),
        Field::new("name", DataType::Utf8, true),
        Field::new("flag", DataType::Boolean, true),
        Field::new("price", DataType::Decimal256(40, 2), true),
    ];
    assert_eq!(connection().get_schema(&described).unwrap(), expected);
    assert_eq!(connection().try_get_schema(&described).unwrap().unwrap(), expected);
    assert!(connection().get_schema(&vec![]).unwrap().is_empty());
}

#[test]
fn descriptions_need_names_and_types() {
    assert!(matches!(
        connection().get_schema(&vec![vec![number(1), number(2)]]),
        Err(Error::MissingField { field }) if field == "column_name"
    ));
    assert!(matches!(
        connection().get_schema(&vec![vec![text("a"), JsonValue::Null]]),
        Err(Error::MissingField { field }) if field == "data_type"
    ));
}

#[test]
fn unsupported_columns_are_refused_or_left_out() {
    let described = || vec![
        vec![text("a"), text("integer")],
        vec![text("b"), text("Geometry")],
        vec![text("c"), text("date")],
    ];
    for action in [UnsupportedTypeAction::Error, UnsupportedTypeAction::AsText] {
        assert!(matches!(
            connection().with_unsupported_type_action(action).get_schema(&described()),
            Err(Error::UnsupportedDataTypeError { column_name, data_type })
                if column_name == "b" && data_type == "Geometry"
        ));
    }
    for action in [UnsupportedTypeAction::Warn, UnsupportedTypeAction::Ignore] {
        let fields = connection().with_unsupported_type_action(action).get_schema(&described()).unwrap();
        assert_eq!(fields.len(), 2);
        assert_eq!(fields[1].name, "c");
        assert!(handle_unsupported_type_error(action, Error::AuthenticationFailedError).is_ok());
    }
    assert!(UnsupportedTypeAction::default() == UnsupportedTypeAction::Error);
    assert!(handle_unsupported_type_error(UnsupportedTypeAction::Error, Error::AuthenticationFailedError).is_err());
}

#[test]
fn crossed_parentheses_give_no_schema() {
    let described = vec![vec![text("a"), text("decimal)(")]];
    assert!(connection().try_get_schema(&described).is_none());
    assert!(matches!(
        read_table(&described, UnsupportedTypeAction::Ignore),
        Err(TableFault::Malformed)
    ));
}

#[test]
fn type_names_read_back() {
    let types = vec![
        (DataType::Boolean, "boolean"),
        (DataType::Int8, "tinyint"),
        (DataType::Int16, "smallint"),
        (DataType::Int32, "integer"),
        (DataType::Int64, "bigint"),
        (DataType::Float32, "real"),
        (DataType::Float64, "double"),
        (DataType::Utf8, "varchar"),
        (DataType::Binary, "varbinary"),
        (DataType::Date32, "date"),
        (DataType::Time64(TimeUnit::Nanosecond), "time"),
        (DataType::Timestamp(TimeUnit::Microsecond, None), "timestamp"),
        (
            DataType::Timestamp(TimeUnit::Microsecond, Some("UTC".to_string())),
            "timestamp with time zone",
        ),
        (DataType::Decimal128(38, 10), "decimal(38,10)"),
        (DataType::Decimal256(76, -128), "decimal(76,-128)"),
        (DataType::Decimal128(0, 0), "decimal(0,0)"),
    ];
    for (data_type, name) in types {
        assert_eq!(arrow_type_to_trino_type_string(&data_type), name);
        assert_eq!(try_trino_data_type_to_arrow_type(name).unwrap().unwrap(), data_type);
    }
    for other in [
        DataType::Null,
        DataType::LargeUtf8,
        DataType::Time64(TimeUnit::Microsecond),
        DataType::Timestamp(TimeUnit::Nanosecond, None),
        DataType::Struct(vec![]),
    ] {
        assert_eq!(arrow_type_to_trino_type_string(&other), "varchar");
    }
}

#[test]
fn chunks_cover_the_rows() {
    assert_eq!((chunk_count(0), chunk_count(1), chunk_count(4_000), chunk_count(4_001)), (0, 1, 1, 2));
    let columns = projected_columns(&vec![Field::new("n", DataType::Int64, false)]);
    assert_eq!(columns[0].trino_type, "bigint");
    assert_eq!(columns[0].name, "n");
    let all: Vec<Vec<JsonValue>> = (0..4_001u64).map(|n| vec![number(n)]).collect();
    let mut next = 0i64;
    for i in 0..chunk_count(all.len()) {
        let batch = match convert_chunk(&all, &columns, i) {
            Ok(batch) => batch.0,
            Err(_) => panic!("no batch"),
        };
        assert!(batch.num_rows() <= CHUNK_SIZE);
        for n in batch.column(0).as_primitive::<Int64Type>().values() {
            assert_eq!(*n, next);
            next += 1;
        }
    }
    assert_eq!(next, 4_001);
    assert!(projected_columns(&vec![]).is_empty());
}
