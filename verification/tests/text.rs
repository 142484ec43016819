use fruently::event_time::TimestampValue;
use fruently::json::encode_text;
use fruently::record::{Record, Value};

#[test]
fn text_mode_uses_named_fields() {
    let record = Record::new(
        "test".to_string(),
        TimestampValue::Integer(5),
        Value::Object(vec![
            ("msg".to_string(), "hi".to_string()),
            ("name".to_string(), "fruently".to_string()),
        ]),
    );
    let bytes = encode_text(&record);
    assert_eq!(
        String::from_utf8(bytes).unwrap(),
        "{\"tag\":\"test\",\"time\":5,\"data\":{\"msg\":\"hi\",\"name\":\"fruently\"}}"
    );
}

#[test]
fn text_mode_payload_matches_reference_renderer() {
    let record = Record::new(
        "t".to_string(),
        TimestampValue::Integer(0),
        Value::Object(vec![("msg".to_string(), "hi".to_string())]),
    );
    let bytes = encode_text(&record);
    let text = String::from_utf8(bytes).unwrap();
    let data_part = &text[text.find("\"data\":").unwrap() + 7..text.len() - 1];

    let mut map = std::collections::BTreeMap::new();
    map.insert("msg".to_string(), "hi".to_string());
    let reference = serde_json::to_string(&map).unwrap();
    assert_eq!(data_part, reference);
}

#[test]
fn text_mode_escapes_strings() {
    let record = Record::new(
        "t".to_string(),
        TimestampValue::Integer(0),
        Value::Text("a\"b\\c\nd".to_string()),
    );
    let bytes = encode_text(&record);
    let text = String::from_utf8(bytes).unwrap();
    assert!(text.ends_with("\"data\":\"a\\\"b\\\\c\\u000ad\"}"));
}

#[test]
fn text_mode_negative_and_extreme_integers() {
    let record = Record::new(
        "t".to_string(),
        TimestampValue::Integer(i64::MIN),
        Value::Integer(i64::MAX),
    );
    let bytes = encode_text(&record);
    let text = String::from_utf8(bytes).unwrap();
    assert_eq!(
        text,
        "{\"tag\":\"t\",\"time\":-9223372036854775808,\"data\":9223372036854775807}"
    );
}

#[test]
fn text_mode_structured_time_and_scalars() {
    let record = Record::new(
        "t".to_string(),
        TimestampValue::Structured { seconds: 7, nanoseconds: 999_999_999 },
        Value::Boolean(true),
    );
    let text = String::from_utf8(encode_text(&record)).unwrap();
    assert_eq!(
        text,
        "{\"tag\":\"t\",\"time\":{\"seconds\":7,\"nanoseconds\":999999999},\"data\":true}"
    );

    let record = Record::new("t".to_string(), TimestampValue::Integer(0), Value::Null);
    let text = String::from_utf8(encode_text(&record)).unwrap();
    assert_eq!(text, "{\"tag\":\"t\",\"time\":0,\"data\":null}");
}
