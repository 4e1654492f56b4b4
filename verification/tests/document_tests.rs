use bedrock_up::document::JsonValue;

fn text(v: &str) -> JsonValue {
    JsonValue::Text(v.to_string())
}

fn object(pairs: Vec<(&str, JsonValue)>) -> JsonValue {
    JsonValue::Object(pairs.into_iter().map(|(k, v)| (k.to_string(), v)).collect())
}

#[test]
fn test_get_returns_first_member() {
    let doc = object(vec![("a", text("one")), ("b", text("two")), ("a", text("three"))]);

    assert_eq!(doc.get("a"), Some(&text("one")));
    assert_eq!(doc.get("b"), Some(&text("two")));
    assert_eq!(doc.get("c"), None);
}

#[test]
fn test_get_on_non_object_is_empty() {
    assert_eq!(JsonValue::Null.get("a"), None);
    assert_eq!(text("x").get("a"), None);
    assert_eq!(JsonValue::Array(vec![text("x")]).get("a"), None);
    assert_eq!(JsonValue::Bool(true).get("a"), None);
    assert_eq!(JsonValue::Number("3".to_string()).get("a"), None);
}

#[test]
fn test_as_array_only_on_sequences() {
    let doc = JsonValue::Array(vec![text("x"), JsonValue::Null]);
    assert_eq!(doc.as_array(), Some(&vec![text("x"), JsonValue::Null]));
    assert_eq!(text("x").as_array(), None);
    assert_eq!(object(vec![]).as_array(), None);
}

#[test]
fn test_as_text_only_on_strings() {
    assert_eq!(text("x").as_text(), Some(&"x".to_string()));
    assert_eq!(JsonValue::Number("3".to_string()).as_text(), None);
    assert_eq!(JsonValue::Null.as_text(), None);
}

#[test]
fn test_is_null_marks_absent_manifest() {
    assert!(JsonValue::Null.is_null());
    assert!(!JsonValue::Bool(false).is_null());
    assert!(!object(vec![]).is_null());
}

#[test]
fn test_serialize_parse_round_trip_preserves_values() {
    // The wire codec the surrounding program relies on: a parse followed by
    // a serialization reproduces a semantically equal document.
    let source = "{\"result\":{\"links\":[{\"downloadType\":\"serverJar\",\
                  \"downloadUrl\":\"https://example.com/s.jar\",\"size\":123}]},\
                  \"ok\":true,\"note\":null}";
    let parsed: serde_json::Value = serde_json::from_str(source).unwrap();
    let rendered = serde_json::to_string(&parsed).unwrap();
    let reparsed: serde_json::Value = serde_json::from_str(&rendered).unwrap();
    assert_eq!(parsed, reparsed);
}

#[test]
fn test_serialize_parse_round_trip_nested_document() {
    let source = "[{\"a\":[1,2.5,-3],\"b\":{\"c\":false}},\"tail\",{}]";
    let parsed: serde_json::Value = serde_json::from_str(source).unwrap();
    let rendered = serde_json::to_string(&parsed).unwrap();
    let reparsed: serde_json::Value = serde_json::from_str(&rendered).unwrap();
    assert_eq!(parsed, reparsed);
}
