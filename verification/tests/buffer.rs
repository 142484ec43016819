use fruently::error::FluentError;
use fruently::event_time::TimestampValue;
use fruently::msgpack::encode_binary_single;
use fruently::record::{Record, Value};
use fruently::retry::{deliver_plan, AttemptOutcome};
use fruently::retry_conf::RetryConf;
use fruently::store_buffer::{maybe_write_records, post_plan, BufferPlan};

fn unreachable_outcomes(n: usize) -> Vec<AttemptOutcome> {
    vec![AttemptOutcome::Failed(FluentError::ConnectFailure("connection refused".to_string())); n]
}

/// With the address unreachable, two attempts allowed and a buffer path set,
/// the post succeeds overall and the buffer receives exactly the one record
/// that was to be delivered.
#[test]
fn exhausted_with_buffer_absorbs_failure() {
    let conf = RetryConf::new()
        .max(2)
        .store_file("fallback.buf".to_string());
    let record = Record::new(
        "test".to_string(),
        TimestampValue::Integer(1_700_000_000),
        Value::Text("hello".to_string()),
    );
    let encoded = encode_binary_single(&record).unwrap();

    let report = deliver_plan(&conf, &unreachable_outcomes(2));
    assert_eq!(report.invocations, 2);
    let err = report.outcome.unwrap_err();

    match maybe_write_records(&conf, encoded.clone(), err) {
        BufferPlan::Persist { path, bytes } => {
            assert_eq!(path, "fallback.buf");
            assert_eq!(bytes, encoded);
        },
        BufferPlan::Surface(_) => panic!("a configured buffer must absorb the failure"),
    }
}

/// With the address unreachable and no buffer path, the terminal connect
/// failure is surfaced unchanged and nothing is buffered.
#[test]
fn exhausted_without_buffer_surfaces_error() {
    let conf = RetryConf::new().max(2);
    let record = Record::new(
        "test".to_string(),
        TimestampValue::Integer(1_700_000_000),
        Value::Null,
    );
    let encoded = encode_binary_single(&record).unwrap();

    let report = deliver_plan(&conf, &unreachable_outcomes(2));
    let err = report.outcome.unwrap_err();
    assert_eq!(err, FluentError::ConnectFailure("connection refused".to_string()));

    match maybe_write_records(&conf, encoded, err) {
        BufferPlan::Persist { .. } => panic!("no buffer path was configured"),
        BufferPlan::Surface(e) => {
            assert_eq!(e, FluentError::ConnectFailure("connection refused".to_string()));
        },
    }
}

/// The whole pipeline with an unreachable address, two attempts and a buffer
/// path: the post reports success, and the pending append holds exactly the
/// one serialized record that could not be delivered.
#[test]
fn post_plan_reports_success_when_buffered() {
    let conf = RetryConf::new().max(2).store_file("fallback.buf".to_string());
    let record = Record::new(
        "test".to_string(),
        TimestampValue::Integer(1),
        Value::Text("hello".to_string()),
    );
    let encoded = encode_binary_single(&record).unwrap();
    let plan = post_plan(&conf, encoded.clone(), &unreachable_outcomes(2));
    assert_eq!(plan.outcome, Ok(()));
    assert_eq!(plan.persist, Some(("fallback.buf".to_string(), encoded)));
}

/// The whole pipeline with an unreachable address and no buffer path: the
/// post reports the connect failure and nothing is left to append.
#[test]
fn post_plan_surfaces_error_without_buffer() {
    let conf = RetryConf::new().max(2);
    let record = Record::new("test".to_string(), TimestampValue::Integer(1), Value::Null);
    let encoded = encode_binary_single(&record).unwrap();
    let plan = post_plan(&conf, encoded, &unreachable_outcomes(2));
    assert_eq!(
        plan.outcome,
        Err(FluentError::ConnectFailure("connection refused".to_string()))
    );
    assert!(plan.persist.is_none());
}

/// A delivery that succeeds leaves nothing to buffer.
#[test]
fn post_plan_no_persist_on_success() {
    let conf = RetryConf::new().max(2).store_file("fallback.buf".to_string());
    let record = Record::new("test".to_string(), TimestampValue::Integer(1), Value::Null);
    let encoded = encode_binary_single(&record).unwrap();
    let outcomes = vec![
        AttemptOutcome::Failed(FluentError::ConnectFailure("refused".to_string())),
        AttemptOutcome::Delivered,
    ];
    let plan = post_plan(&conf, encoded, &outcomes);
    assert_eq!(plan.outcome, Ok(()));
    assert!(plan.persist.is_none());
}

/// Every failure kind carries its cause through.
#[test]
fn error_causes_are_kept() {
    assert_eq!(
        FluentError::AddressResolutionFailure("no such host".to_string()).cause().as_str(),
        "no such host"
    );
    assert_eq!(FluentError::ConnectFailure("timed out".to_string()).cause().as_str(), "timed out");
    assert_eq!(FluentError::WriteFailure("short write".to_string()).cause().as_str(), "short write");
    assert_eq!(FluentError::EncodeFailure("too large".to_string()).cause().as_str(), "too large");
}
