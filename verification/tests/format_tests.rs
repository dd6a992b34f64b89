//! Textual encoders cross-checked against the outside implementations.

use chrono::SecondsFormat;
use ouinet_metrics::encoding::{format_uuid, parse_u32_dec, parse_u64_dec, parse_uuid, u64_to_dec};
use ouinet_metrics::identity::{
    encode_device_file, parse_device_file, RecordId,
};
use ouinet_metrics::timestamp::{format_timestamp, parse_timestamp};

#[test]
fn decimal_round_trip() {
    let values: [u64; 6] = [0, 7, 10, 999, 1_730_000_000_123, u64::MAX];
    for v in values {
        let text = u64_to_dec(v);
        assert_eq!(String::from_utf8(text.clone()).unwrap(), format!("{v}"));
        assert_eq!(parse_u64_dec(&text), Some(v));
    }
    assert_eq!(parse_u64_dec(b""), None);
    assert_eq!(parse_u64_dec(b"12a"), None);
    assert_eq!(parse_u64_dec(b"18446744073709551616"), None);
    assert_eq!(parse_u32_dec(b"4294967295"), Some(u32::MAX));
    assert_eq!(parse_u32_dec(b"4294967296"), None);
}

#[test]
fn uuid_text_matches_uuid_crate() {
    let values: [u128; 4] = [
        0,
        0x0123_4567_89ab_cdef_0123_4567_89ab_cdef,
        u128::MAX,
        0x550e8400_e29b_41d4_a716_446655440000,
    ];
    for v in values {
        let mine = String::from_utf8(format_uuid(v)).unwrap();
        let theirs = uuid::Uuid::from_u128(v).to_string();
        assert_eq!(mine, theirs);
        assert_eq!(parse_uuid(mine.as_bytes()), Some(v));
    }
    assert_eq!(parse_uuid(b"not-a-uuid"), None);
    // Uppercase digits are accepted too.
    assert_eq!(
        parse_uuid(b"550E8400-E29B-41D4-A716-446655440000"),
        Some(0x550e8400_e29b_41d4_a716_446655440000)
    );
}

#[test]
fn timestamp_text_matches_chrono() {
    let values: [u64; 5] = [0, 1_000, 1_730_000_000_123, 4_102_444_799_999, 253_402_300_799_999];
    for ms in values {
        let mine = String::from_utf8(format_timestamp(ms)).unwrap();
        let date = chrono::DateTime::from_timestamp_millis(ms as i64).unwrap();
        assert_eq!(mine, date.to_rfc3339_opts(SecondsFormat::Millis, true));
        assert_eq!(parse_timestamp(mine.as_bytes()), Some(ms));
    }
    assert_eq!(parse_timestamp(b"2025-13-01T00:00:00.000Z"), None);
    assert_eq!(parse_timestamp(b"2025-02-30T00:00:00.000Z"), None);
    assert_eq!(parse_timestamp(b"2025-02-28T24:00:00.000Z"), None);
    assert_eq!(parse_timestamp(b"garbage"), None);
}

#[test]
fn timestamp_fraction_family_is_accepted() {
    let whole = parse_timestamp(b"2025-06-17T10:30:00Z").unwrap();
    assert_eq!(parse_timestamp(b"2025-06-17T10:30:00.000Z"), Some(whole));
    // Shorter fractions scale up; longer ones are cut at milliseconds.
    assert_eq!(parse_timestamp(b"2025-06-17T10:30:00.5Z"), Some(whole + 500));
    assert_eq!(parse_timestamp(b"2025-06-17T10:30:00.25Z"), Some(whole + 250));
    assert_eq!(parse_timestamp(b"2025-06-17T10:30:00.123456Z"), Some(whole + 123));
    assert_eq!(parse_timestamp(b"2025-06-17T10:30:00.123456789Z"), Some(whole + 123));
    // An empty or over-long fraction, or an explicit offset, is refused.
    assert_eq!(parse_timestamp(b"2025-06-17T10:30:00.Z"), None);
    assert_eq!(parse_timestamp(b"2025-06-17T10:30:00.0123456789Z"), None);
    assert_eq!(parse_timestamp(b"2025-06-17T10:30:00+00:00"), None);
}

#[test]
fn chrono_auto_precision_forms_parse() {
    for (ms, extra_ns) in [(1_730_000_000_000u64, 0u32), (1_730_000_000_123, 456_789)] {
        let date = chrono::DateTime::from_timestamp_millis(ms as i64).unwrap()
            + chrono::TimeDelta::nanoseconds(extra_ns as i64);
        let text = date.to_rfc3339_opts(SecondsFormat::AutoSi, true);
        assert_eq!(parse_timestamp(text.as_bytes()), Some(ms));
    }
}

#[test]
fn device_file_round_trip() {
    let value: u128 = 0xfeed_f00d_dead_beef_0102_0304_0506_0708;
    let created: u64 = 1_730_000_000_123;
    let bytes = encode_device_file(value, created);
    let text = String::from_utf8(bytes.clone()).unwrap();
    assert!(text.starts_with("[\""));
    assert!(text.ends_with("\"]"));
    assert_eq!(parse_device_file(&bytes), Some((value, created)));
    assert_eq!(parse_device_file(b"[\"oops\"]"), None);
}

#[test]
fn device_file_without_fraction_is_read_back() {
    let value: u128 = 0x0102_0304_0506_0708_090a_0b0c_0d0e_0f10;
    let uuid = String::from_utf8(ouinet_metrics::encoding::format_uuid(value)).unwrap();
    let text = format!("[\"{uuid}\",\"2025-06-17T10:30:00Z\"]");
    let expected = parse_timestamp(b"2025-06-17T10:30:00Z").unwrap();
    assert_eq!(parse_device_file(text.as_bytes()), Some((value, expected)));
}

#[test]
fn record_id_text_form() {
    let id = RecordId { device_id: 0x550e8400_e29b_41d4_a716_446655440000, sequence_number: 17 };
    let text = String::from_utf8(id.text()).unwrap();
    assert_eq!(text, "550e8400-e29b-41d4-a716-446655440000_17");
}
