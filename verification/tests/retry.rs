use fruently::error::FluentError;
use fruently::retry::{deliver_plan, AttemptOutcome, RetryState};
use fruently::retry_conf::RetryConf;

fn fail(kind: u8, msg: &str) -> AttemptOutcome {
    let s = msg.to_string();
    AttemptOutcome::Failed(match kind {
        0 => FluentError::ConnectFailure(s),
        1 => FluentError::WriteFailure(s),
        _ => FluentError::AddressResolutionFailure(s),
    })
}

/// Three attempts allowed and all failing: exactly three invocations, two
/// sleeps, and the second delay is at least the multiplier times the first.
#[test]
fn three_attempts_all_failing() {
    let conf = RetryConf::new().max(3).multiplier(2, 1).base(500);
    let outcomes = vec![fail(0, "a"), fail(0, "b"), fail(1, "c")];
    let report = deliver_plan(&conf, &outcomes);
    assert_eq!(report.invocations, 3);
    assert_eq!(report.delays, vec![500, 1000]);
    assert!(report.delays[1] * conf.multiplier_den >= report.delays[0] * conf.multiplier_num);
    // The last observed failure is the one reported, not the first.
    assert_eq!(
        report.outcome,
        Err(FluentError::WriteFailure("c".to_string()))
    );
}

/// A single-attempt ceiling means one invocation and no sleep at all.
#[test]
fn single_attempt_no_sleep() {
    let conf = RetryConf::new().max(1);
    let outcomes = vec![fail(0, "refused")];
    let report = deliver_plan(&conf, &outcomes);
    assert_eq!(report.invocations, 1);
    assert!(report.delays.is_empty());
    assert_eq!(
        report.outcome,
        Err(FluentError::ConnectFailure("refused".to_string()))
    );
}

/// A first-attempt success makes exactly one invocation, whatever the
/// ceiling.
#[test]
fn first_success_single_invocation() {
    let conf = RetryConf::new().max(13);
    let mut outcomes = vec![AttemptOutcome::Delivered];
    for _ in 0..12 {
        outcomes.push(fail(0, "never reached"));
    }
    let report = deliver_plan(&conf, &outcomes);
    assert_eq!(report.invocations, 1);
    assert!(report.delays.is_empty());
    assert_eq!(report.outcome, Ok(()));
}

/// A success in the middle stops the sequence there.
#[test]
fn mid_sequence_success() {
    let conf = RetryConf::new().max(5).base(100);
    let outcomes = vec![
        fail(0, "a"),
        fail(0, "b"),
        AttemptOutcome::Delivered,
        fail(0, "never"),
        fail(0, "never"),
    ];
    let report = deliver_plan(&conf, &outcomes);
    assert_eq!(report.invocations, 3);
    assert_eq!(report.delays, vec![100, 200]);
    assert_eq!(report.outcome, Ok(()));
}

/// A rational multiplier grows the delay exactly, rounding up.
#[test]
fn rational_multiplier_growth() {
    let conf = RetryConf::new().max(5).multiplier(3, 2).base(100);
    let outcomes = vec![fail(0, "x"); 5];
    let report = deliver_plan(&conf, &outcomes);
    assert_eq!(report.invocations, 5);
    assert_eq!(report.delays, vec![100, 150, 225, 338]);
    for i in 1..report.delays.len() {
        assert!(report.delays[i] >= report.delays[i - 1]);
        assert!(report.delays[i] * conf.multiplier_den >= report.delays[i - 1] * conf.multiplier_num);
    }
}

/// The step-by-step controller hands out the same schedule.
#[test]
fn retry_state_schedule() {
    let conf = RetryConf::new().max(3).multiplier(2, 1).base(500);
    let mut state = RetryState::start(&conf);
    assert_eq!(state.attempts_made, 1);
    assert_eq!(state.after_failure(&conf), Some(500));
    assert_eq!(state.attempts_made, 2);
    assert_eq!(state.after_failure(&conf), Some(1000));
    assert_eq!(state.attempts_made, 3);
    assert_eq!(state.after_failure(&conf), None);
    assert_eq!(state.attempts_made, 3);
}
