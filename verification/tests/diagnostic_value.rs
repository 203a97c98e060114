use codex_plus_core::diagnostic_value::sanitize_diagnostic_value;
use codex_plus_core::json::{JsonMember, JsonValue};

fn member(key: &str, value: JsonValue) -> JsonMember {
    JsonMember { key: key.to_string(), value }
}

#[test]
fn secret_members_and_text_are_redacted() {
    let value = JsonValue::Object(vec![
        member("apiKey", JsonValue::Str("sk-live".to_string())),
        member("password", JsonValue::Bool(true)),
        member("note", JsonValue::Str("Authorization: Bearer abc".to_string())),
        member("nested", JsonValue::Array(vec![JsonValue::Object(vec![member("tokens", JsonValue::Array(vec![]))])])),
        member("count", JsonValue::Number("3".to_string(), Some(3))),
    ]);

    let clean = sanitize_diagnostic_value(&value);

    let JsonValue::Object(ms) = clean else { panic!("object expected") };
    assert!(matches!(&ms[0].value, JsonValue::Str(s) if s == "[redacted]"));
    assert!(matches!(&ms[1].value, JsonValue::Bool(true)));
    assert!(matches!(&ms[2].value, JsonValue::Str(s) if s == "Authorization: Bearer [redacted]"));
    let JsonValue::Array(items) = &ms[3].value else { panic!("array expected") };
    let JsonValue::Object(inner) = &items[0] else { panic!("object expected") };
    assert!(matches!(&inner[0].value, JsonValue::Str(s) if s == "[redacted]"));
    assert!(matches!(&ms[4].value, JsonValue::Number(t, Some(3)) if t == "3"));
}

#[test]
fn long_text_is_cut() {
    let long = "a".repeat(5000);
    let JsonValue::Str(s) = sanitize_diagnostic_value(&JsonValue::Str(long)) else { panic!("text expected") };
    assert_eq!(s.chars().count(), 4096 + "...[truncated]".len());
    assert!(s.ends_with("...[truncated]"));
}
