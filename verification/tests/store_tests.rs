//! Record naming, record bodies, the load sifting, and candidate
//! selection.

use ouinet_metrics::encoding::format_uuid;
use ouinet_metrics::identity::RecordId;
use ouinet_metrics::store::{
    build_record_name, encode_record_body, load_stored_records, oldest_non_current_record,
    parse_record_body, parse_record_name, RecordFileInput, StoredRecord, DELETE_RECORDS_AFTER_MS,
};

fn name_of(device_id: u128, seq: u32) -> Vec<u8> {
    build_record_name(0, RecordId { device_id, sequence_number: seq })
}

#[test]
fn record_name_round_trip() {
    let device: u128 = 0x550e8400_e29b_41d4_a716_446655440000;
    let name = name_of(device, 3);
    let text = String::from_utf8(name.clone()).unwrap();
    assert_eq!(text, "v0_550e8400-e29b-41d4-a716-446655440000_3");
    assert_eq!(parse_record_name(&name), Some((0, device, 3)));
    assert_eq!(parse_record_name(b"x0_550e8400-e29b-41d4-a716-446655440000_3"), None);
    assert_eq!(parse_record_name(b"v0_nonsense_3"), None);
    assert_eq!(parse_record_name(b"v0_550e8400-e29b-41d4-a716-446655440000"), None);
    // Anything past the third underscore-separated part is ignored.
    assert_eq!(
        parse_record_name(b"v7_550e8400-e29b-41d4-a716-446655440000_3_extra"),
        Some((7, device, 3))
    );
}

#[test]
fn record_body_round_trip() {
    let body = encode_record_body(1_730_000_000_123, vec![1, 2, 3, 10, 4]);
    let (created, ct) = parse_record_body(&body).unwrap();
    assert_eq!(created, 1_730_000_000_123);
    assert_eq!(ct, vec![1, 2, 3, 10, 4]);
    assert_eq!(parse_record_body(b"123456"), None);
    assert_eq!(parse_record_body(b"\nabc"), None);
    assert_eq!(parse_record_body(b"12x\nabc"), None);
}

fn file(name: Vec<u8>, created: u64, ct: &[u8]) -> RecordFileInput {
    RecordFileInput { name, content: encode_record_body(created, ct.to_vec()) }
}

#[test]
fn load_keeps_fresh_and_deletes_the_rest() {
    let now: u64 = 10 * 86_400_000;
    let d1: u128 = 1;
    let d2: u128 = 2;
    let files = vec![
        // Fresh: kept.
        file(name_of(d1, 0), now - 1000, b"a"),
        // Exactly at the limit: deleted.
        file(name_of(d1, 1), now - DELETE_RECORDS_AFTER_MS, b"b"),
        // Just inside the limit: kept.
        file(name_of(d1, 2), now - DELETE_RECORDS_AFTER_MS + 1, b"c"),
        // Created in the future: deleted.
        file(name_of(d1, 3), now + 1, b"d"),
        // Wrong version: deleted.
        file(build_record_name(1, RecordId { device_id: d2, sequence_number: 0 }), now, b"e"),
        // Unparseable name: deleted.
        file(b"junk".to_vec(), now, b"f"),
        // Unparseable body: deleted.
        RecordFileInput { name: name_of(d2, 1), content: b"nobreak".to_vec() },
    ];
    let (records, deletions) = load_stored_records(files, now);
    assert_eq!(records.len(), 2);
    assert_eq!(records[0].id, RecordId { device_id: d1, sequence_number: 0 });
    assert_eq!(records[0].created_ms, now - 1000);
    assert_eq!(records[0].content, b"a".to_vec().iter().cloned().collect::<Vec<u8>>());
    assert_eq!(records[1].id, RecordId { device_id: d1, sequence_number: 2 });
    assert_eq!(deletions.len(), 5);
    // Every enumerated record is young enough and of the current version.
    for r in &records {
        assert!(now - r.created_ms < DELETE_RECORDS_AFTER_MS);
        let text = String::from_utf8(r.name.clone()).unwrap();
        assert!(text.starts_with("v0_"));
    }
}

fn record(device_id: u128, seq: u32, created_ms: u64) -> StoredRecord {
    StoredRecord {
        id: RecordId { device_id, sequence_number: seq },
        name: name_of(device_id, seq),
        created_ms,
        content: Vec::new(),
    }
}

#[test]
fn oldest_non_current_skips_current() {
    let current = RecordId { device_id: 9, sequence_number: 9 };
    // The current record is oldest on disk but may not be selected.
    let records = vec![record(9, 9, 10), record(1, 0, 30), record(2, 0, 20), record(3, 0, 20)];
    let picked = oldest_non_current_record(&records, current).unwrap();
    // Oldest non-current creation time is 20; of the tie, the later wins.
    assert_eq!(picked, 3);
    assert_ne!(records[picked].id, current);

    // Only the current record on disk: nothing to pick.
    let records = vec![record(9, 9, 10)];
    assert_eq!(oldest_non_current_record(&records, current), None);

    assert_eq!(oldest_non_current_record(&Vec::new(), current), None);
}

#[test]
fn uuid_name_stems_are_lowercase_hex() {
    let device: u128 = u128::MAX;
    let text = String::from_utf8(format_uuid(device)).unwrap();
    assert_eq!(text, "ffffffff-ffff-ffff-ffff-ffffffffffff");
}
