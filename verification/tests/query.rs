use netflow_query_api::address::IpAddr;
use netflow_query_api::models::Usage;
use netflow_query_api::query::{
    daily_distribution, daily_window, exceeded, today_usage, top_usage, week_first_day, week_usage,
    AddressRow, BucketRow, Counters, DayRow,
};
use netflow_query_api::timeutil::{day_bounds_utc, Date, UtcTime};

fn date(text: &str) -> Date {
    Date::parse(text).unwrap()
}

fn ip(text: &str) -> IpAddr {
    IpAddr::parse(text).unwrap()
}

fn counters(ext_rx_bytes: i64, ext_tx_bytes: i64, intra_rx_bytes: i64, intra_tx_bytes: i64) -> Counters {
    Counters { ext_rx_bytes, ext_tx_bytes, intra_rx_bytes, intra_tx_bytes }
}

fn row(addr: &str, counters: Counters) -> AddressRow {
    AddressRow { addr: addr.to_string(), counters }
}

/// The example of the documentation: the second address has no data.
#[test]
fn every_address_asked_for_has_a_result() {
    let rows = vec![row("10.1.2.3", counters(4_705_537_592, 118_372_641, 82_134_901, 9_927_430))];
    let out = today_usage(date("2026-09-18"), &vec![ip("10.1.2.3"), ip("10.1.2.4")], &rows);
    assert_eq!(out.date, "2026-09-18");
    assert_eq!(out.results.len(), 2);
    assert_eq!(out.results[0].ip, "10.1.2.3");
    assert_eq!(out.results[0].usage.internet_download_bytes, 4_705_537_592);
    assert_eq!(out.results[0].usage.internet_upload_bytes, 118_372_641);
    assert_eq!(out.results[0].usage.internet_total_bytes, 4_823_910_233);
    assert_eq!(out.results[0].usage.school_download_bytes, 82_134_901);
    assert_eq!(out.results[0].usage.school_upload_bytes, 9_927_430);
    assert_eq!(out.results[1].ip, "10.1.2.4");
    assert_eq!(out.results[1].usage, Usage::zero());
}

#[test]
fn results_come_in_the_order_asked_for() {
    let rows = vec![row("10.0.0.1", counters(1, 0, 0, 0)), row("10.0.0.2", counters(2, 0, 0, 0))];
    let out = today_usage(date("2026-09-18"), &vec![ip("10.0.0.2"), ip("10.0.0.1")], &rows);
    assert_eq!(out.results[0].usage, Usage::new(2, 0, 0, 0));
    assert_eq!(out.results[1].usage, Usage::new(1, 0, 0, 0));
}

/// The database may write an address in another form than this service does.
#[test]
fn addresses_match_by_value_not_by_text() {
    let rows = vec![
        row("2001:DB8:0:0:0:0:0:1", counters(7, 0, 0, 0)),
        row("not an address", counters(9, 9, 9, 9)),
    ];
    let out = today_usage(date("2026-09-18"), &vec![ip("2001:db8::1")], &rows);
    assert_eq!(out.results[0].ip, "2001:db8::1");
    assert_eq!(out.results[0].usage, Usage::new(7, 0, 0, 0));
}

#[test]
fn last_row_of_an_address_counts() {
    let rows = vec![row("10.0.0.1", counters(1, 0, 0, 0)), row("10.0.0.1", counters(2, 0, 0, 0))];
    let out = today_usage(date("2026-09-18"), &vec![ip("10.0.0.1")], &rows);
    assert_eq!(out.results[0].usage, Usage::new(2, 0, 0, 0));
}

#[test]
fn week_has_seven_days_oldest_first() {
    let today = date("2026-09-18");
    assert_eq!(week_first_day(today), date("2026-09-12"));
    let rows = vec![
        DayRow { day: date("2026-09-12"), counters: counters(3_102_773_301, 99_110_811, 41_028_833, 5_583_920) },
        DayRow { day: date("2026-09-18"), counters: counters(1, 2, 3, 4) },
    ];
    let out = week_usage(today, ip("10.1.2.3"), &rows);
    assert_eq!(out.ip, "10.1.2.3");
    let days: Vec<&str> = out.days.iter().map(|d| d.day.as_str()).collect();
    assert_eq!(
        days,
        vec!["2026-09-12", "2026-09-13", "2026-09-14", "2026-09-15", "2026-09-16", "2026-09-17", "2026-09-18"]
    );
    assert_eq!(out.days[0].usage.internet_total_bytes, 3_201_884_112);
    assert_eq!(out.days[1].usage, Usage::zero());
    assert_eq!(out.days[5].usage, Usage::zero());
    assert_eq!(out.days[6].usage, Usage::new(1, 2, 3, 4));
}

#[test]
fn week_crosses_the_end_of_a_month() {
    let out = week_usage(date("2024-03-02"), ip("10.1.2.3"), &Vec::new());
    let days: Vec<&str> = out.days.iter().map(|d| d.day.as_str()).collect();
    assert_eq!(
        days,
        vec!["2024-02-25", "2024-02-26", "2024-02-27", "2024-02-28", "2024-02-29", "2024-03-01", "2024-03-02"]
    );
}

#[test]
fn past_day_has_all_buckets() {
    let day = date("2026-09-17");
    let (start, end) = daily_window(day).unwrap();
    let rows = vec![
        BucketRow { bucket: start, counters: counters(11_204, 839, 0, 512) },
        BucketRow { bucket: UtcTime { secs: end.secs - 300, nanos: 0 }, counters: counters(5, 6, 7, 8) },
        BucketRow { bucket: UtcTime { secs: start.secs + 301, nanos: 0 }, counters: counters(1, 1, 1, 1) },
        BucketRow { bucket: UtcTime { secs: start.secs + 600, nanos: 1 }, counters: counters(1, 1, 1, 1) },
    ];
    let out = daily_distribution(day, ip("10.1.2.3"), end, &rows).unwrap();
    assert_eq!(out.ip, "10.1.2.3");
    assert_eq!(out.date, "2026-09-17");
    assert_eq!(out.bucket_seconds, 300);
    assert_eq!(out.points.len(), 288);
    assert_eq!(out.points[0].ts, "2026-09-17T00:00:00+08:00");
    assert_eq!(out.points[0].usage, Usage::new(11_204, 839, 0, 512));
    assert_eq!(out.points[0].usage.internet_total_bytes, 12_043);
    assert_eq!(out.points[1].ts, "2026-09-17T00:05:00+08:00");
    assert_eq!(out.points[1].usage, Usage::zero());
    assert_eq!(out.points[2].usage, Usage::zero());
    assert_eq!(out.points[287].ts, "2026-09-17T23:55:00+08:00");
    assert_eq!(out.points[287].usage, Usage::new(5, 6, 7, 8));
}

#[test]
fn current_day_stops_at_the_current_bucket() {
    let day = date("2026-09-18");
    let (start, _) = daily_window(day).unwrap();
    let points = |secs: i64, nanos: u32| {
        daily_distribution(day, ip("10.1.2.3"), UtcTime { secs: start.secs + secs, nanos }, &Vec::new())
            .unwrap()
            .points
            .len()
    };
    assert_eq!(points(-1, 999_999_999), 0);
    assert_eq!(points(0, 0), 1);
    assert_eq!(points(299, 999_999_999), 1);
    assert_eq!(points(300, 0), 2);
    assert_eq!(points(86_399, 0), 288);
    assert_eq!(points(86_400, 0), 288);
}

#[test]
fn day_without_a_midnight_is_refused() {
    let day = date("1979-07-01");
    assert_eq!(day_bounds_utc(day), None);
    let response = match daily_distribution(day, ip("10.1.2.3"), UtcTime { secs: 0, nanos: 0 }, &Vec::new()) {
        Ok(_) => panic!("the date was accepted"),
        Err(err) => err.into_response(),
    };
    assert_eq!(response.status, 422);
    assert_eq!(response.message, "1979-07-01 is not a valid date");
    assert!(daily_window(day).is_err());
}

/// The example of the documentation.
#[test]
fn exceeded_reports_the_overage_of_each() {
    let rows = vec![
        row("10.1.2.3", counters(4_705_537_592, 118_372_641, 82_134_901, 9_927_430)),
        row("?", counters(4_000_000_000, 0, 0, 0)),
        row("10.1.9.8", counters(201_338_880, 973_066_240, 0, 0)),
    ];
    let bits = (1024.0f64).to_bits();
    let out = exceeded(date("2026-09-15"), bits, 1_073_741_824, &rows);
    assert_eq!(out.date, "2026-09-15");
    assert_eq!(f64::from_bits(out.threshold_mib_bits), 1024.0);
    assert_eq!(out.threshold_bytes, 1_073_741_824);
    assert_eq!(out.count, 2);
    assert_eq!(out.results.len(), 2);
    assert_eq!(out.results[0].ip, "10.1.2.3");
    assert_eq!(out.results[0].over_threshold_bytes, 3_750_168_409);
    assert_eq!(out.results[0].over_threshold_mib, 3_576);
    assert_eq!(out.results[0].over_threshold_gib, 3);
    assert_eq!(out.results[1].ip, "10.1.9.8");
    assert_eq!(out.results[1].usage.internet_total_bytes, 1_174_405_120);
    assert_eq!(out.results[1].over_threshold_bytes, 100_663_296);
    assert_eq!(out.results[1].over_threshold_mib, 96);
    assert_eq!(out.results[1].over_threshold_gib, 0);
}

#[test]
fn ranking_keeps_the_order_of_the_rows() {
    let rows = vec![row("10.0.0.9", counters(30, 0, 0, 0)), row("10.0.0.1", counters(10, 5, 0, 0))];
    let out = top_usage(date("2026-09-18"), 20, &rows);
    assert_eq!(out.date, "2026-09-18");
    assert_eq!(out.limit, 20);
    assert_eq!(out.count, 2);
    assert_eq!(out.results[0].ip, "10.0.0.9");
    assert_eq!(out.results[1].ip, "10.0.0.1");
    assert!(out.results[0].usage.internet_total_bytes >= out.results[1].usage.internet_total_bytes);
}

#[test]
fn reported_addresses_can_be_asked_for() {
    let rows = vec![row("2001:DB8::A", counters(30, 0, 0, 0)), row("10.0.0.1", counters(10, 5, 0, 0))];
    for result in top_usage(date("2026-09-18"), 20, &rows).results {
        let asked = netflow_query_api::routes::parse_ips(&vec![result.ip.clone()], 1).unwrap();
        let out = today_usage(date("2026-09-18"), &asked, &rows);
        assert_eq!(out.results[0].ip, result.ip);
        assert_eq!(out.results[0].usage, result.usage);
    }
}

#[test]
fn counters_come_to_a_usage() {
    assert_eq!(counters(1, 2, 3, 4).usage(), Usage::new(1, 2, 3, 4));
}
