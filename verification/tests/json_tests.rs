use httpdispatcher::json::{compact_json_text, decimal_text, number_to_text, JsonNumber, JsonValue};

fn s(x: &str) -> JsonValue {
    JsonValue::String(x.to_string())
}

#[test]
fn get_finds_member() {
    let v = JsonValue::Object(vec![("a".to_string(), s("x")), ("b".to_string(), JsonValue::Null)]);
    assert!(matches!(v.get("a"), Some(JsonValue::String(t)) if t == "x"));
    assert!(matches!(v.get("b"), Some(JsonValue::Null)));
    assert!(v.get("c").is_none());
}

#[test]
fn get_last_member_wins() {
    let v = JsonValue::Object(vec![("k".to_string(), s("first")), ("k".to_string(), s("second"))]);
    assert!(matches!(v.get("k"), Some(JsonValue::String(t)) if t == "second"));
}

#[test]
fn get_on_non_object_is_none() {
    assert!(s("k").get("k").is_none());
    assert!(JsonValue::Array(vec![s("k")]).get("k").is_none());
    assert!(JsonValue::Null.get("k").is_none());
}

#[test]
fn decimal_text_values() {
    assert_eq!(decimal_text(0), "0");
    assert_eq!(decimal_text(7), "7");
    assert_eq!(decimal_text(1234), "1234");
    assert_eq!(decimal_text(u64::MAX), u64::MAX.to_string());
}

#[test]
fn number_to_text_values() {
    assert_eq!(number_to_text(&JsonNumber::PosInt(42)), "42");
    assert_eq!(number_to_text(&JsonNumber::NegInt(-17)), "-17");
    assert_eq!(number_to_text(&JsonNumber::NegInt(5)), "5");
    assert_eq!(number_to_text(&JsonNumber::NegInt(i64::MIN)), i64::MIN.to_string());
    assert_eq!(number_to_text(&JsonNumber::Float("2.5".to_string())), "2.5");
}

#[test]
fn compact_json_text_writes_serde_json_form() {
    let v = JsonValue::Object(vec![
        ("a".to_string(), JsonValue::Number(JsonNumber::PosInt(1))),
        ("b".to_string(), JsonValue::Array(vec![JsonValue::Bool(true), JsonValue::Null])),
        ("c".to_string(), s("x\"y")),
    ]);
    assert_eq!(compact_json_text(&v), "{\"a\":1,\"b\":[true,null],\"c\":\"x\\\"y\"}");
    assert_eq!(compact_json_text(&JsonValue::Number(JsonNumber::NegInt(-3))), "-3");
    assert_eq!(compact_json_text(&JsonValue::Number(JsonNumber::Float("1.5".to_string()))), "1.5");
}
