use chrono::{DateTime, Datelike, NaiveDate, Utc};
use netflow_query_api::timeutil::{
    current_time, date_in_taipei, day_bounds_utc, to_taipei_rfc3339, today_taipei, Date, UtcTime,
    BUCKETS_PER_DAY, BUCKET_SECONDS, DAY_MAX, DAY_MIN, DAY_SECONDS, EPOCH_DAY, SECOND_MAX,
    SECOND_MIN, TAIPEI_SETTLED_DAY, TAIPEI_SETTLED_SECOND,
};

fn date(text: &str) -> Date {
    Date::parse(text).unwrap()
}

fn at(secs: i64) -> UtcTime {
    UtcTime { secs, nanos: 0 }
}

#[test]
fn dates_are_numbered_by_day() {
    assert_eq!(date("0001-01-01").day, 1);
    assert_eq!(date("1970-01-01").day, EPOCH_DAY);
    assert_eq!(date("2026-09-18").day, 739_877);
    assert_eq!(date("2024-03-01").day - date("2024-02-28").day, 2);
    assert_eq!(date("2023-03-01").day - date("2023-02-28").day, 1);
}

#[test]
fn dates_are_written_as_they_are_read() {
    for text in ["0000-01-01", "1999-12-31", "2024-02-29", "2026-09-18", "9999-12-31"] {
        assert_eq!(date(text).to_text(), text);
    }
    assert_eq!(date("2026-9-1").to_text(), "2026-09-01");
}

#[test]
fn calendar_has_these_ends() {
    assert_eq!(NaiveDate::MIN.num_days_from_ce(), DAY_MIN);
    assert_eq!(NaiveDate::MAX.num_days_from_ce(), DAY_MAX);
    assert_eq!(DateTime::<Utc>::MIN_UTC.timestamp(), SECOND_MIN);
    assert_eq!(DateTime::<Utc>::MAX_UTC.timestamp(), SECOND_MAX);
    assert_eq!(Date { day: DAY_MIN }.to_text(), "-262143-01-01");
    assert_eq!(Date { day: DAY_MAX }.to_text(), "+262142-12-31");
}

#[test]
fn day_in_taipei_begins_at_sixteen_hours_utc() {
    let (start, end) = day_bounds_utc(date("2026-09-18")).unwrap();
    assert_eq!(start, at((739_877 - 719_163) * 86_400 - 28_800));
    assert_eq!(end.secs - start.secs, DAY_SECONDS);
    assert_eq!(to_taipei_rfc3339(start), "2026-09-18T00:00:00+08:00");
    assert_eq!(to_taipei_rfc3339(end), "2026-09-19T00:00:00+08:00");
}

#[test]
fn one_day_ends_where_the_next_begins() {
    let mut day = TAIPEI_SETTLED_DAY;
    while day < TAIPEI_SETTLED_DAY + 800 {
        let (start, end) = day_bounds_utc(Date { day }).unwrap();
        let (next, _) = day_bounds_utc(Date { day: day + 1 }).unwrap();
        assert_eq!(end, next);
        assert_eq!(end.secs - start.secs, BUCKETS_PER_DAY as i64 * BUCKET_SECONDS);
        day += 1;
    }
}

/// The clocks went forward at midnight on 1 July 1979: that midnight never was.
#[test]
fn day_without_a_midnight_has_no_bounds() {
    assert_eq!(day_bounds_utc(date("1979-07-01")), None);
    assert!(day_bounds_utc(date("1979-07-02")).is_some());
    assert_eq!(date("1979-10-01").day, TAIPEI_SETTLED_DAY);
    assert!(day_bounds_utc(Date { day: DAY_MAX }).is_some());
    assert_eq!(day_bounds_utc(Date { day: DAY_MIN }), None);
}

#[test]
fn offset_was_between_eight_and_nine_hours() {
    for text in ["1890-01-01", "1900-01-01", "1940-01-01", "1950-07-01", "1975-06-01"] {
        let day = date(text);
        let (start, _) = day_bounds_utc(day).unwrap();
        let midnight = (day.day - EPOCH_DAY) as i64 * DAY_SECONDS;
        assert!(midnight - 32_400 <= start.secs && start.secs <= midnight - 28_800);
        assert_eq!(date_in_taipei(start), Some(day));
    }
}

#[test]
fn instant_has_the_date_of_taipei() {
    let (start, end) = day_bounds_utc(date("2026-09-18")).unwrap();
    assert_eq!(date_in_taipei(start), Some(date("2026-09-18")));
    assert_eq!(date_in_taipei(UtcTime { secs: end.secs - 1, nanos: 999_999_999 }), Some(date("2026-09-18")));
    assert_eq!(date_in_taipei(end), Some(date("2026-09-19")));
    assert_eq!(date_in_taipei(at(TAIPEI_SETTLED_SECOND)), Some(date("1979-09-30")));
    assert_eq!(date_in_taipei(at(SECOND_MAX - 28_800)), Some(Date { day: DAY_MAX }));
    assert_eq!(date_in_taipei(at(SECOND_MAX - 28_799)), None);
}

#[test]
fn fractions_of_a_second_are_written() {
    let (start, _) = day_bounds_utc(date("2026-09-18")).unwrap();
    let ts = UtcTime { secs: start.secs + 45_296, nanos: 500_000_000 };
    assert_eq!(to_taipei_rfc3339(ts), "2026-09-18T12:34:56.500+08:00");
}

#[test]
fn later_is_by_seconds_then_nanoseconds() {
    assert!(at(2).is_later_than(at(1)));
    assert!(!at(1).is_later_than(at(1)));
    assert!(UtcTime { secs: 1, nanos: 5 }.is_later_than(UtcTime { secs: 1, nanos: 4 }));
    assert!(!UtcTime { secs: 1, nanos: 5 }.is_later_than(UtcTime { secs: 2, nanos: 0 }));
}

#[test]
fn clock_is_read() {
    let before = Utc::now().timestamp();
    let now = current_time();
    let after = Utc::now().timestamp();
    assert!(before <= now.secs && now.secs <= after);
    let today = today_taipei().unwrap();
    assert!(today.day >= EPOCH_DAY);
    assert!(today.day == date_in_taipei(now).unwrap().day || today.day == date_in_taipei(now).unwrap().day + 1);
}
