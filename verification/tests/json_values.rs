use aisix::json::{to_json_text, JsonValue};

fn object(members: Vec<(&str, JsonValue)>) -> JsonValue {
    JsonValue::Object(
        members
            .into_iter()
            .map(|(name, value)| (name.to_string(), value))
            .collect(),
    )
}

#[test]
fn writes_compact_json() {
    let value = object(vec![
        (
            "a",
            JsonValue::Array(vec![
                JsonValue::Number("1".to_string()),
                JsonValue::Null,
                JsonValue::Bool(true),
            ]),
        ),
        ("b", JsonValue::Str("x\"y".to_string())),
        ("c", object(vec![])),
    ]);
    assert_eq!(to_json_text(&value), "{\"a\":[1,null,true],\"b\":\"x\\\"y\",\"c\":{}}");
}

#[test]
fn reads_members_strings_and_counts() {
    let value = object(vec![
        ("n", JsonValue::Number("42".to_string())),
        ("neg", JsonValue::Number("-1".to_string())),
        ("big", JsonValue::Number("18446744073709551616".to_string())),
        ("s", JsonValue::Str("text".to_string())),
    ]);
    assert_eq!(value.get("n").and_then(JsonValue::as_u64), Some(42));
    assert_eq!(value.get("neg").and_then(JsonValue::as_u64), None);
    assert_eq!(value.get("big").and_then(JsonValue::as_u64), None);
    assert_eq!(value.get("s").and_then(JsonValue::as_str), Some("text"));
    assert!(value.get("missing").is_none());
    let list = JsonValue::Array(vec![JsonValue::Null]);
    assert!(list.at(0).is_some());
    assert!(list.at(1).is_none());
}

#[test]
fn strings_are_escaped_as_serde_json_escapes_them() {
    let text = to_json_text(&JsonValue::Str("a\"\u{1}\n\\\u{7f}é\u{8}\u{1f}".to_string()));
    assert_eq!(text, "\"a\\\"\\u0001\\n\\\\\u{7f}é\\b\\u001f\"");
    assert_eq!(text, serde_json::to_string("a\"\u{1}\n\\\u{7f}é\u{8}\u{1f}").unwrap());
}
