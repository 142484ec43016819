use std::collections::BTreeMap;

use fruently::event_time::TimestampValue;
use fruently::fluent::Fluent;
use fruently::msgpack::{encode_binary_batch, encode_binary_single};
use fruently::record::{Forward, Record, Value};

fn string_map(pairs: &[(&str, &str)]) -> Value {
    let mut v: Vec<(String, String)> = Vec::new();
    for (k, w) in pairs {
        v.push((k.to_string(), w.to_string()));
    }
    Value::Object(v)
}

/// A live collector reading this triple sees exactly the canonical bytes of
/// `["app.log", 1700000000, {"msg":"hi"}]`: our encoder and the reference
/// implementation agree byte for byte.
#[test]
fn canonical_single_encoding_matches_reference() {
    let record = Record::new(
        "app.log".to_string(),
        TimestampValue::Integer(1_700_000_000),
        string_map(&[("msg", "hi")]),
    );
    let ours = encode_binary_single(&record).unwrap();

    let mut map: BTreeMap<String, String> = BTreeMap::new();
    map.insert("msg".to_string(), "hi".to_string());
    let reference =
        rmp_serde::to_vec(&("app.log".to_string(), 1_700_000_000i64, map)).unwrap();
    assert_eq!(ours, reference);
}

/// The single-record round trip on concrete values: decoding the encoding
/// yields the original tag, time and payload.
#[test]
fn binary_single_round_trip() {
    let f = Fluent::new("127.0.0.1:24224".to_string(), "test".to_string());
    let record = f.make_record(
        TimestampValue::Integer(-42),
        string_map(&[("hey", "Rust!"), ("name", "fruently")]),
    );
    let bytes = encode_binary_single(&record).unwrap();
    let (tag, time, data): (String, i64, BTreeMap<String, String>) =
        rmp_serde::from_slice(&bytes).unwrap();
    assert_eq!(tag, "test");
    assert_eq!(time, -42);
    assert_eq!(data.get("hey").map(String::as_str), Some("Rust!"));
    assert_eq!(data.get("name").map(String::as_str), Some("fruently"));
    assert_eq!(data.len(), 2);
}

/// The batch round trip keeps the entries sequence in its exact order.
#[test]
fn binary_batch_preserves_order() {
    let entries = vec![
        (TimestampValue::Integer(1), Value::Text("first".to_string())),
        (TimestampValue::Integer(2), Value::Text("second".to_string())),
        (TimestampValue::Integer(3), Value::Text("third".to_string())),
    ];
    let forward = Forward::new("batch.tag".to_string(), entries);
    let bytes = encode_binary_batch(&forward).unwrap();
    let (tag, decoded): (String, Vec<(i64, String)>) = rmp_serde::from_slice(&bytes).unwrap();
    assert_eq!(tag, "batch.tag");
    assert_eq!(
        decoded,
        vec![
            (1, "first".to_string()),
            (2, "second".to_string()),
            (3, "third".to_string())
        ]
    );
}

/// An empty batch is legal and encodes to a zero-length entries array.
#[test]
fn empty_batch_encodes_zero_length_array() {
    let forward = Forward::new("t".to_string(), Vec::new());
    let bytes = encode_binary_batch(&forward).unwrap();
    assert_eq!(bytes, vec![0x92, 0xa1, 0x74, 0x90]);
}

/// Structured timestamps travel as the fixed 8-byte extension value of type
/// code 0, and round-trip exactly at the boundary values.
#[test]
fn structured_time_boundary_values() {
    let cases: [(u32, u32, [u8; 8]); 3] = [
        (0, 0, [0, 0, 0, 0, 0, 0, 0, 0]),
        (0, 999_999_999, [0, 0, 0, 0, 0x3b, 0x9a, 0xc9, 0xff]),
        (u32::MAX, 0, [0xff, 0xff, 0xff, 0xff, 0, 0, 0, 0]),
    ];
    for (seconds, nanoseconds, body) in cases {
        let record = Record::new(
            "t".to_string(),
            TimestampValue::Structured { seconds, nanoseconds },
            Value::Null,
        );
        let bytes = encode_binary_single(&record).unwrap();
        // [0x93, fixstr "t" (2 bytes), fixext8 header, type 0, 8 bytes, nil]
        assert_eq!(bytes[0], 0x93);
        assert_eq!(&bytes[1..3], &[0xa1, 0x74]);
        assert_eq!(bytes[3], 0xd7);
        assert_eq!(bytes[4], 0x00);
        assert_eq!(&bytes[5..13], &body);
        assert_eq!(bytes[13], 0xc0);
        assert_eq!(bytes.len(), 14);
    }
}

/// Integers take their shortest form, matching the reference implementation
/// at every format boundary.
#[test]
fn integer_encoding_boundaries() {
    let values: [i64; 18] = [
        0,
        1,
        127,
        128,
        255,
        256,
        65535,
        65536,
        4294967295,
        4294967296,
        i64::MAX,
        -1,
        -32,
        -33,
        -128,
        -129,
        -32768,
        i64::MIN,
    ];
    for v in values {
        let record = Record::new("t".to_string(), TimestampValue::Integer(v), Value::Null);
        let ours = encode_binary_single(&record).unwrap();
        let reference = rmp_serde::to_vec(&("t".to_string(), v, ())).unwrap();
        // The reference encodes the third element as nil, as we do.
        assert_eq!(ours, reference, "value {}", v);
    }
}

/// String headers widen exactly at the fixstr boundary.
#[test]
fn string_header_boundaries() {
    let tag31 = "a".repeat(31);
    let bytes = encode_binary_single(&Record::new(
        tag31,
        TimestampValue::Integer(0),
        Value::Null,
    ))
    .unwrap();
    assert_eq!(bytes[1], 0xbf);

    let tag32 = "a".repeat(32);
    let bytes = encode_binary_single(&Record::new(
        tag32,
        TimestampValue::Integer(0),
        Value::Null,
    ))
    .unwrap();
    assert_eq!(bytes[1], 0xd9);
    assert_eq!(bytes[2], 32);
}

/// Non-ASCII text is carried as its UTF-8 bytes.
#[test]
fn multibyte_text_round_trip() {
    let record = Record::new(
        "tag".to_string(),
        TimestampValue::Integer(5),
        Value::Text("héllo — 世界".to_string()),
    );
    let bytes = encode_binary_single(&record).unwrap();
    let (_, _, text): (String, i64, String) = rmp_serde::from_slice(&bytes).unwrap();
    assert_eq!(text, "héllo — 世界");
}
