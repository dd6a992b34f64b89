//! The aggregator: families, change flags, lifecycle hooks, and the
//! payload checked through a real JSON parser.

use ouinet_metrics::bootstrap::{ExponentialHistogram, IpVersion};
use ouinet_metrics::collector::Collector;
use ouinet_metrics::period::{WholeHour, WholeWeek};
use ouinet_metrics::request::{RemoveReason, RequestType};
use ouinet_metrics::{DAY_MS, HOUR_MS};

fn intervals() -> (WholeWeek, WholeHour) {
    // 2025-06-17 10:30 UTC.
    let ts: u64 = 20_256 * DAY_MS + 10 * HOUR_MS + 30 * 60_000;
    (WholeWeek::of(ts).unwrap(), WholeHour::of(ts).unwrap())
}

#[test]
fn histogram_buckets_double() {
    let values: Vec<u64> = vec![0, 199, 200, 399, 400, 799, 800, 51_200 * 2 - 1, 51_200 * 2];
    let h = ExponentialHistogram::new(200, 10, &values);
    assert_eq!(h.scale, 200);
    assert_eq!(h.buckets.len(), 10);
    // [0,200): two values; [200,400): two; [400,800): two; [800,1600): one.
    assert_eq!(h.buckets[0], 2);
    assert_eq!(h.buckets[1], 2);
    assert_eq!(h.buckets[2], 2);
    assert_eq!(h.buckets[3], 1);
    // The top bucket is [51200, 102400): holds 102399; 102400 overflows.
    assert_eq!(h.buckets[9], 1);
    assert_eq!(h.more, 1);
}

#[test]
fn collect_yields_nothing_when_clean() {
    let (week, hour) = intervals();
    let mut c = Collector::new("test-os".to_string());
    assert!(!c.has_new_data());
    assert!(c.collect(&week, &hour).is_none());
}

#[test]
fn consecutive_collects_yield_one_payload() {
    let (week, hour) = intervals();
    let mut c = Collector::new("test-os".to_string());
    c.modify();
    assert!(c.collect(&week, &hour).is_some());
    // No mutation in between: nothing new to persist.
    assert!(c.collect(&week, &hour).is_none());
}

#[test]
fn collect_after_device_change_is_none() {
    let (week, hour) = intervals();
    let mut c = Collector::new("test-os".to_string());
    c.bridge_transfer_i2c(10);
    c.set_aux_key_value("k".to_string(), "v".to_string());
    assert!(c.has_new_data());
    c.on_device_id_changed();
    assert!(!c.has_new_data());
    assert!(c.collect(&week, &hour).is_none());
}

#[test]
fn aux_set_reports_changes_only() {
    let mut c = Collector::new("test-os".to_string());
    assert!(c.set_aux_key_value("k".to_string(), "v1".to_string()));
    assert!(!c.set_aux_key_value("k".to_string(), "v1".to_string()));
    assert!(c.set_aux_key_value("k".to_string(), "v2".to_string()));
    assert!(c.set_aux_key_value("k2".to_string(), "x".to_string()));
}

#[test]
fn payload_structure_parses_as_json() {
    let (week, hour) = intervals();
    let mut c = Collector::new("linux".to_string());

    let b1 = c.bootstrap_start(IpVersion::V4, 1_000);
    c.bootstrap_finish(b1, true, 1_250);
    let _b2 = c.bootstrap_start(IpVersion::V4, 2_000);
    let b3 = c.bootstrap_start(IpVersion::V6, 3_000);
    c.bootstrap_finish(b3, false, 3_700);

    let r1 = c.requests.add_request(RequestType::Origin);
    c.requests.remove_request(r1, RemoveReason::Success);
    let r2 = c.requests.add_request(RequestType::CacheOut);
    c.requests.remove_request(r2, RemoveReason::Failure);
    c.requests.increment_transfer_size(RequestType::Origin, 123);

    c.bridge_transfer_i2c(1000);
    c.bridge_transfer_c2i(50);
    c.set_aux_key_value("note".to_string(), "va\"lue".to_string());

    let payload = c.collect(&week, &hour).unwrap();
    let text = String::from_utf8(payload).unwrap();
    let value: serde_json::Value = serde_json::from_str(&text).unwrap();

    assert_eq!(value["os"], "linux");
    // 2025-06-17 is a Tuesday of ISO week 25, at hour 10.
    assert_eq!(value["interval"], "2025:25:02:10");
    assert_eq!(value["bridge_i2c"], 1000);
    assert_eq!(value["bridge_c2i"], 50);

    let v4 = &value["bootstraps"]["v4"];
    assert_eq!(v4["unfinished"], 1);
    assert_eq!(v4["min"], 250);
    assert_eq!(v4["max"], 250);
    assert_eq!(v4["histogram"]["scale"], 200);
    assert_eq!(v4["histogram"]["buckets"]["1"], 1);
    assert_eq!(v4["histogram"]["more"], 0);

    let v6 = &value["bootstraps"]["v6"];
    assert_eq!(v6["unfinished"], 0);
    assert!(v6["min"].is_null());
    assert!(v6["max"].is_null());

    let origin = &value["requests"]["origin"];
    assert_eq!(origin["success_count"], 1);
    assert_eq!(origin["failure_count"], 0);
    assert_eq!(origin["transferred"], 123);
    let cache_out = &value["requests"]["cache_out"];
    assert_eq!(cache_out["failure_count"], 1);
    assert!(value["requests"].get("injector_private").is_none());

    assert_eq!(value["aux"]["note"], "va\"lue");
}

#[test]
fn sequence_change_keeps_running_work() {
    let (week, hour) = intervals();
    let mut c = Collector::new("linux".to_string());
    let _running = c.bootstrap_start(IpVersion::V4, 1_000);
    let done = c.bootstrap_start(IpVersion::V4, 1_100);
    c.bootstrap_finish(done, true, 1_400);
    let keep = c.requests.add_request(RequestType::Origin);
    c.on_record_sequence_number_changed();
    assert!(!c.has_new_data());

    // The running attempt can still be finished and counted later.
    c.modify();
    let payload = c.collect(&week, &hour).unwrap();
    let value: serde_json::Value = serde_json::from_str(
        &String::from_utf8(payload).unwrap(),
    ).unwrap();
    assert_eq!(value["bootstraps"]["v4"]["unfinished"], 1);
    assert!(value["bootstraps"]["v4"]["min"].is_null());
    assert!(value["requests"].get("origin").is_none());

    // Finishing the kept request counts it after the change.
    c.requests.remove_request(keep, RemoveReason::Success);
    assert!(c.has_new_data());
}

#[test]
fn finishing_a_cleared_bootstrap_is_ignored() {
    let (week, hour) = intervals();
    let mut c = Collector::new("linux".to_string());
    let id = c.bootstrap_start(IpVersion::V4, 1_000);
    c.on_device_id_changed();
    c.bootstrap_finish(id, true, 2_000);
    c.modify();
    let payload = c.collect(&week, &hour).unwrap();
    let value: serde_json::Value = serde_json::from_str(
        &String::from_utf8(payload).unwrap(),
    ).unwrap();
    assert_eq!(value["bootstraps"]["v4"]["unfinished"], 0);
    assert!(value["bootstraps"]["v4"]["min"].is_null());
}
