use trino_arrow::json::{FiniteFloat, JsonNumber, JsonObject, JsonValue};
use trino_arrow::named_map::NamedMap;
use trino_arrow::number::{i8_of, text_of_i8, text_of_unsigned, unsigned_of};
use trino_arrow::text::{find_char, rfind_char, same_text, starts_with, trimmed, trimmed_end_of};

fn text(s: &str) -> JsonValue {
    JsonValue::Text(s.to_string())
}

#[test]
fn members_read_back() {
    let mut o = JsonObject::new();
    o = o.insert("b".to_string(), text("1"));
    o = o.insert("a".to_string(), text("2"));
    o = o.insert("ab".to_string(), text("3"));
    o = o.insert("b".to_string(), text("4"));
    assert_eq!(o.len(), 3);
    assert_eq!([o.name_at(0), o.name_at(1), o.name_at(2)], ["a", "ab", "b"]);
    assert_eq!(o.value_at(2), &text("4"));
    assert_eq!(o.get("a"), Some(&text("2")));
    assert_eq!(o.get("c"), None);
    let value = JsonValue::Object(o);
    assert_eq!(value.get("b"), Some(&text("4")));
    assert_eq!(text("x").get("b"), None);
    assert_eq!(text("x").as_text().unwrap(), "x");
    assert!(value.as_text().is_none());
}

#[test]
fn values_have_a_json_text() {
    let half = FiniteFloat::from_bits(0.5f64.to_bits()).unwrap();
    let value = JsonValue::Array(vec![
        JsonValue::Null,
        JsonValue::Bool(true),
        JsonValue::Number(JsonNumber::Unsigned(u64::MAX)),
        JsonValue::Number(JsonNumber::Signed(i64::MIN)),
        JsonValue::Number(JsonNumber::Float(half)),
        text("a\n\"b\""),
        JsonValue::Object(JsonObject::new().insert("k".to_string(), JsonValue::Array(vec![]))),
    ]);
    assert_eq!(
        value.to_json_text(),
        "[null,true,18446744073709551615,-9223372036854775808,0.5,\"a\\n\\\"b\\\"\",{\"k\":[]}]"
    );
    assert_eq!(value.duplicate(), value);
}

#[test]
fn integers_read_back() {
    assert_eq!(text_of_unsigned(0), "0");
    assert_eq!(text_of_unsigned(u64::MAX), "18446744073709551615");
    assert_eq!(text_of_i8(-128), "-128");
    assert_eq!(unsigned_of("+007", 255), Some(7));
    assert_eq!(unsigned_of("256", 255), None);
    assert_eq!(unsigned_of("18446744073709551616", u64::MAX), None);
    for bad in ["", "+", "-1", " 1", "1_0", "x"] {
        assert_eq!(unsigned_of(bad, u64::MAX), None);
    }
    assert_eq!(i8_of("-128"), Some(-128));
    assert_eq!(i8_of("+127"), Some(127));
    assert_eq!(i8_of("-129"), None);
    assert_eq!(i8_of("-"), None);
}

#[test]
fn texts_are_searched_and_cut() {
    assert_eq!(find_char("a(b(c", '('), Some(1));
    assert_eq!(rfind_char("a(b(c", '('), Some(3));
    assert_eq!(find_char("abc", '('), None);
    assert_eq!(trimmed("\u{a0} x y\t\u{3000}"), "x y");
    assert_eq!(trimmed_end_of("http://h//", '/'), "http://h");
    assert!(starts_with("https://x", "https://"));
    assert!(!starts_with("http", "http://"));
    assert!(same_text("é", "é") && !same_text("e", "é"));
}

#[test]
fn named_values_are_kept() {
    let mut m: NamedMap<u8> = NamedMap::new();
    assert!(m.get("a").is_none());
    m.insert("a".to_string(), 1);
    m.insert("b".to_string(), 2);
    m.insert("a".to_string(), 3);
    assert_eq!(m.get("a"), Some(&3));
    assert_eq!(m.remove("a"), Some(3));
    assert_eq!(m.remove("a"), None);
    assert_eq!(m.get("b"), Some(&2));
}
