use netflow_query_api::models::{BucketUsage, ExceededEntry, Usage, GIB, MIB};

/// The total is traffic with the outside, however large the school counters are.
#[test]
fn internet_total_excludes_school_traffic() {
    let usage = Usage::new(100, 20, 999_999, 888_888);
    assert_eq!(usage.internet_total_bytes, 120);
}

#[test]
fn zero_is_all_zero() {
    let usage = Usage::zero();
    let fields: [i64; 5] = [
        usage.internet_download_bytes,
        usage.internet_upload_bytes,
        usage.internet_total_bytes,
        usage.school_download_bytes,
        usage.school_upload_bytes,
    ];
    for field in fields {
        assert_eq!(field, 0);
    }
}

#[test]
fn usage_keeps_each_counter() {
    let usage = Usage::new(100, 20, 7, 3);
    assert_eq!(usage.internet_download_bytes, 100);
    assert_eq!(usage.internet_upload_bytes, 20);
    assert_eq!(usage.internet_total_bytes, 120);
    assert_eq!(usage.school_download_bytes, 7);
    assert_eq!(usage.school_upload_bytes, 3);
}

#[test]
fn total_stops_at_the_largest_number() {
    let usage = Usage::new(i64::MAX, 1, 0, 0);
    assert_eq!(usage.internet_total_bytes, i64::MAX);
    let usage = Usage::new(i64::MIN, -1, 0, 0);
    assert_eq!(usage.internet_total_bytes, i64::MIN);
}

/// A threshold of 1024 MiB and a usage of 4823910233 bytes.
#[test]
fn exceeded_entry_computes_overage() {
    let entry = ExceededEntry::new(
        "10.1.2.3".to_string(),
        Usage::new(4_705_537_592, 118_372_641, 0, 0),
        1_073_741_824,
    );

    assert_eq!(entry.usage.internet_total_bytes, 4_823_910_233);
    assert_eq!(entry.over_threshold_bytes, 3_750_168_409);
    assert_eq!(entry.over_threshold_mib, 3_576);
    assert_eq!(entry.over_threshold_gib, 3);
}

/// Just over the threshold, the whole MiB and GiB are zero.
#[test]
fn exceeded_entry_floors_partial_units_to_zero() {
    let threshold = 1_073_741_824;
    let entry = ExceededEntry::new(
        "10.1.2.4".to_string(),
        Usage::new(threshold + 524_288, 0, 0, 0),
        threshold,
    );

    assert_eq!(entry.over_threshold_bytes, 524_288);
    assert_eq!(entry.over_threshold_mib, 0);
    assert_eq!(entry.over_threshold_gib, 0);
}

#[test]
fn exceeded_entry_never_reports_negative_overage() {
    let entry = ExceededEntry::new("10.1.2.5".to_string(), Usage::new(10, 0, 0, 0), 1_000);

    assert_eq!(entry.over_threshold_bytes, 0);
    assert_eq!(entry.over_threshold_mib, 0);
    assert_eq!(entry.over_threshold_gib, 0);
}

#[test]
fn exceeded_entry_keeps_address_and_usage() {
    let entry = ExceededEntry::new("10.1.2.3".to_string(), Usage::new(100, 20, 7, 3), 50);

    assert_eq!(entry.ip, "10.1.2.3");
    assert_eq!(entry.usage, Usage::new(100, 20, 7, 3));
    assert_eq!(entry.over_threshold_bytes, 70);
    assert_eq!(entry.over_threshold_mib, 0);
    assert_eq!(entry.over_threshold_gib, 0);
}

#[test]
fn units_are_powers_of_1024() {
    assert_eq!(MIB, 1024 * 1024);
    assert_eq!(GIB, 1024 * MIB);
}

#[test]
fn bucket_usage_has_its_own_time() {
    let bucket = BucketUsage {
        ts: "2026-09-18T00:05:00+08:00".to_string(),
        usage: Usage::zero(),
    };
    assert_eq!(bucket.ts, "2026-09-18T00:05:00+08:00");
    assert_eq!(bucket.usage.internet_total_bytes, 0);
}
