use fruently::event_time::{encode_time, encode_time_now, TimeFormat, TimestampValue};

#[test]
fn integer_mode_truncates_to_seconds() {
    let t = encode_time(TimeFormat::Integer, 1_700_000_000, 123_456_789);
    assert_eq!(t, TimestampValue::Integer(1_700_000_000));
}

#[test]
fn structured_mode_keeps_both_components() {
    let t = encode_time(TimeFormat::Structured, 1_700_000_000, 123_456_789);
    assert_eq!(
        t,
        TimestampValue::Structured { seconds: 1_700_000_000, nanoseconds: 123_456_789 }
    );
}

#[test]
fn structured_mode_wraps_out_of_range_seconds() {
    let t = encode_time(TimeFormat::Structured, -1, 0);
    assert_eq!(t, TimestampValue::Structured { seconds: u32::MAX, nanoseconds: 0 });
    let t = encode_time(TimeFormat::Structured, 0x1_0000_0002, 5);
    assert_eq!(t, TimestampValue::Structured { seconds: 2, nanoseconds: 5 });
}

#[test]
fn now_follows_the_configured_format() {
    match encode_time_now(TimeFormat::Integer) {
        TimestampValue::Integer(s) => assert!(s > 0),
        TimestampValue::Structured { .. } => panic!("integer mode must yield integer time"),
    }
    match encode_time_now(TimeFormat::Structured) {
        TimestampValue::Integer(_) => panic!("structured mode must yield structured time"),
        TimestampValue::Structured { nanoseconds, .. } => assert!(nanoseconds < 1_000_000_000),
    }
}
