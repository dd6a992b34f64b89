//! Identity lifecycle: loading, incrementing, rotating, and the
//! persisted forms round-tripping.

use ouinet_metrics::encoding::u64_to_dec;
use ouinet_metrics::period::{PeriodError, WholeHour, WholeWeek};
use ouinet_metrics::identity::{encode_device_file, parse_device_file, RecordIdStore};
use ouinet_metrics::{DAY_MS, HOUR_MS, WEEK_MS};

fn now() -> u64 {
    // 2025-06-17 10:30 UTC.
    20_256 * DAY_MS + 10 * HOUR_MS + 30 * 60_000
}

#[test]
fn fresh_identity_starts_at_zero() {
    let (store, ops) = RecordIdStore::new(None, None, now()).unwrap();
    let id = store.current();
    assert_eq!(id.sequence_number, 0);
    // A fresh device identifier is persisted at once, with its creation moment.
    let device_bytes = ops.device_write.unwrap();
    let (value, created) = parse_device_file(&device_bytes).unwrap();
    assert_eq!(value, id.device_id);
    assert_eq!(created, now());
    // So is the sequence number.
    assert_eq!(ops.number_write.unwrap(), u64_to_dec(0));
}

#[test]
fn restart_advances_the_sequence_number() {
    let number_file = u64_to_dec(4);
    let (store, ops) = RecordIdStore::new(None, Some(&number_file), now()).unwrap();
    assert_eq!(store.current().sequence_number, 5);
    assert_eq!(ops.number_write.unwrap(), u64_to_dec(5));
    assert!(!ops.number_delete_corrupt);
}

#[test]
fn corrupt_number_file_restarts_at_zero() {
    let junk = b"not a number".to_vec();
    let (store, ops) = RecordIdStore::new(None, Some(&junk), now()).unwrap();
    assert_eq!(store.current().sequence_number, 0);
    assert!(ops.number_delete_corrupt);
}

#[test]
fn stored_device_id_is_kept_within_its_week() {
    let device_file = encode_device_file(0xabcd, now() - DAY_MS);
    let (store, ops) = RecordIdStore::new(Some(&device_file), None, now()).unwrap();
    assert_eq!(store.current().device_id, 0xabcd);
    assert!(ops.device_write.is_none());
}

#[test]
fn stored_device_id_is_rotated_after_its_week() {
    let device_file = encode_device_file(0xabcd, now() - 2 * WEEK_MS);
    let (store, ops) = RecordIdStore::new(Some(&device_file), None, now()).unwrap();
    assert_ne!(store.current().device_id, 0xabcd);
    let fresh = ops.device_write.unwrap();
    let (value, created) = parse_device_file(&fresh).unwrap();
    assert_eq!(value, store.current().device_id);
    assert_eq!(created, now());
}

#[test]
fn increment_keeps_device_and_moves_sequence() {
    let (mut store, _ops) = RecordIdStore::new(None, None, now()).unwrap();
    let before = store.current();
    let write = store.increment(now()).unwrap();
    let after = store.current();
    assert_eq!(before.device_id, after.device_id);
    assert_ne!(before.sequence_number, after.sequence_number);
    assert_eq!(after.sequence_number, 1);
    assert_eq!(write, u64_to_dec(1));
}

#[test]
fn rotate_changes_device_and_resets_sequence() {
    let (mut store, _ops) = RecordIdStore::new(None, None, now()).unwrap();
    store.increment(now()).unwrap();
    store.increment(now()).unwrap();
    let before = store.current();
    let (device_write, number_write) = store.rotate(now()).unwrap();
    let after = store.current();
    assert_ne!(before.device_id, after.device_id);
    assert_eq!(after.sequence_number, 0);
    let (value, _created) = parse_device_file(&device_write).unwrap();
    assert_eq!(value, after.device_id);
    assert_eq!(number_write, u64_to_dec(0));
}

#[test]
fn sequence_number_wraps_at_the_top() {
    let number_file = u64_to_dec(u32::MAX as u64);
    let (store, _ops) = RecordIdStore::new(None, Some(&number_file), now()).unwrap();
    assert_eq!(store.current().sequence_number, 0);
}

#[test]
fn far_future_timestamps_are_out_of_range() {
    assert_eq!(WholeWeek::of(u64::MAX).unwrap_err(), PeriodError::OutOfRange);
    assert_eq!(WholeHour::of(u64::MAX).unwrap_err(), PeriodError::OutOfRange);
    assert!(RecordIdStore::new(None, None, u64::MAX).is_err());
}

#[test]
fn rotation_deadline_tracks_the_week() {
    let (store, _ops) = RecordIdStore::new(None, None, now()).unwrap();
    let deadline = store.device_id().rotate_after(now());
    let week = store.device_id().interval();
    assert_eq!(deadline, week.end_ms - now());
    // Past the end of the week the deadline is zero: rotate at once.
    assert_eq!(store.device_id().rotate_after(week.end_ms), 0);
}

#[test]
fn increment_deadline_tracks_the_hour() {
    let (store, _ops) = RecordIdStore::new(None, None, now()).unwrap();
    let deadline = store.sequence_number().increment_after(now());
    let hour = store.sequence_number().interval();
    assert_eq!(deadline, hour.end_ms - now());
    assert_eq!(store.sequence_number().increment_after(hour.end_ms + 5), 0);
}
