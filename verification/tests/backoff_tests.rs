//! Backoff state machine and persisted-file tests.

use ouinet_metrics::backoff::{
    encode_backoff_file, parse_backoff_file, Backoff, BackoffFileOp, Failure, State,
};
use ouinet_metrics::clock::Clock;

fn init() -> (Clock, Backoff) {
    let clock = Clock::new_for_test();
    let (backoff, delete) = Backoff::new_with(None);
    assert!(!delete);
    (clock, backoff)
}

#[test]
fn backoff_stop() {
    let (clock, mut backoff) = init();
    backoff.stop();
    assert!(backoff.sleep_for(clock.now()).is_forever());
    backoff.resume();
    assert_eq!(backoff.sleep_for(clock.now()).unwrap_duration(), 0);
}

#[test]
fn backoff() {
    let (mut clock, mut backoff) = init();

    assert_eq!(backoff.sleep_for(clock.now()).unwrap_duration(), 0);

    // Mark as failed
    backoff.failed(clock.now());

    // Check that we need to wait
    assert_eq!(backoff.sleep_for(clock.now()).unwrap_duration(), 1000);

    // Wait only half of the time and then check how much longer we need to wait
    let half1: u64 = 500;
    let half2: u64 = 500;

    clock.add(half1);

    assert_eq!(backoff.sleep_for(clock.now()).unwrap_duration(), half2);

    // Wait the other half of the time
    clock.add(half2);

    // Check that we no longer need to wait
    assert_eq!(backoff.sleep_for(clock.now()).unwrap_duration(), 0);

    // Fail again, this time we'll wait longer than needed by half a second
    backoff.failed(clock.now());

    let sleep_for = backoff.sleep_for(clock.now()).unwrap_duration();

    let half_sec: u64 = 500;

    clock.add(sleep_for + half_sec);

    assert_eq!(backoff.sleep_for(clock.now()).unwrap_duration(), 0);
}

#[test]
fn retry_durations_double_and_clamp() {
    let mk = |n: u32| Failure { at_ms: 0, prev_failure_count: n }.duration_to_retry();
    assert_eq!(mk(0), 1000);
    assert_eq!(mk(1), 2000);
    assert_eq!(mk(2), 4000);
    assert_eq!(mk(3), 8000);
    assert_eq!(mk(16), 65_536_000);
    assert_eq!(mk(17), 86_400_000);
    assert_eq!(mk(46), 86_400_000);
    assert_eq!(mk(47), 86_400_000);
    assert_eq!(mk(48), 86_400_000);
    assert_eq!(mk(u32::MAX), 86_400_000);
}

#[test]
fn failure_counts_advance_and_success_clears() {
    let (clock, mut backoff) = init();
    let op = backoff.failed(clock.now());
    let bytes = match op {
        BackoffFileOp::Write(b) => b,
        BackoffFileOp::Delete => panic!(),
    };
    let f = parse_backoff_file(&bytes).unwrap();
    assert_eq!(f.prev_failure_count, 0);
    assert_eq!(f.at_ms, clock.now());

    let op = backoff.failed(clock.now());
    let bytes = match op {
        BackoffFileOp::Write(b) => b,
        BackoffFileOp::Delete => panic!(),
    };
    let f = parse_backoff_file(&bytes).unwrap();
    assert_eq!(f.prev_failure_count, 1);

    let op = backoff.succeeded();
    assert!(matches!(op, BackoffFileOp::Delete));
    assert!(matches!(backoff.state, State::Success));
}

#[test]
fn backoff_file_round_trip() {
    let f = Failure { at_ms: 1_730_000_000_123, prev_failure_count: 7 };
    let bytes = encode_backoff_file(&f);
    let text = String::from_utf8(bytes.clone()).unwrap();
    assert!(text.starts_with("{\"at\":\""));
    assert!(text.contains("\",\"prev_failure_count\":7}"));
    let parsed = parse_backoff_file(&bytes).unwrap();
    assert_eq!(parsed, f);
}

#[test]
fn backoff_file_without_fraction_is_read_back() {
    let text = b"{\"at\":\"2025-06-17T10:30:00Z\",\"prev_failure_count\":3}".to_vec();
    let f = parse_backoff_file(&text).unwrap();
    assert_eq!(f.prev_failure_count, 3);
    let (backoff, delete) = Backoff::new_with(Some(&text));
    assert!(!delete);
    assert_eq!(backoff.state, State::Failure(f));
}

#[test]
fn corrupt_backoff_file_is_dropped() {
    let junk: Vec<u8> = b"{\"at\": 12, \"nope\": true}".to_vec();
    let (backoff, delete) = Backoff::new_with(Some(&junk));
    assert!(delete);
    assert!(matches!(backoff.state, State::Success));
}

#[test]
fn loaded_backoff_file_restores_state() {
    let f = Failure { at_ms: 86_400_000, prev_failure_count: 2 };
    let bytes = encode_backoff_file(&f);
    let (backoff, delete) = Backoff::new_with(Some(&bytes));
    assert!(!delete);
    assert_eq!(backoff.state, State::Failure(f));
    // Four seconds owed after two prior failures, measured from the stamp.
    assert_eq!(backoff.sleep_for(f.at_ms + 1000).unwrap_duration(), 3000);
    // A clock that moved backward counts as no time elapsed.
    assert_eq!(backoff.sleep_for(f.at_ms - 1000).unwrap_duration(), 4000);
}
