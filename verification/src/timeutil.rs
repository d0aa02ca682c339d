//! Dates, instants and the borders of a day in Taipei.
//!
//! A date is the number of its day in the proleptic Gregorian calendar, in which
//! 1 January of the year 1 has the number 1; an instant is the time since the Unix epoch. Reading
//! and writing them as text is done by `chrono`, the time zone is that of `chrono-tz`.
//!
//! The current day is always computed here and handed to the database as a parameter:
//! the time zone of a database session is not under the control of this service.

use vstd::prelude::*;

use crate::text::digit;

verus! {

/// The length of a bucket of the five-minute statistics, in seconds.
pub const BUCKET_SECONDS: i64 = 300;

/// The number of buckets of a day. Taipei has no daylight saving time, so it is always
/// the same.
pub const BUCKETS_PER_DAY: usize = 288;

/// Seconds in a day.
pub const DAY_SECONDS: i64 = 86_400;

/// The number of 1 January 1970.
pub const EPOCH_DAY: i32 = 719_163;

/// The first day of the calendar, 1 January of the year -262143.
pub const DAY_MIN: i32 = -95_746_129;

/// The last day of the calendar, 31 December of the year 262142.
pub const DAY_MAX: i32 = 95_745_399;

/// The first second of the calendar.
pub const SECOND_MIN: i64 = -8_334_601_228_800;

/// The last second of the calendar.
pub const SECOND_MAX: i64 = 8_210_266_876_799;

/// The offset of Taipei from UTC, in seconds, since the last change of its clocks.
pub const TAIPEI_OFFSET: i64 = 28_800;

/// The last change of the clocks in Taipei.
pub const TAIPEI_SETTLED_SECOND: i64 = 307_551_600;

/// The first day in Taipei after the last change of its clocks, 1 October 1979.
pub const TAIPEI_SETTLED_DAY: i32 = 722_723;

/// A date.
#[derive(Clone, Copy, Debug, PartialEq, Eq, Structural)]
pub struct Date {
    /// The number of the day.
    pub day: i32,
}

impl Date {
    /// The day is one of the calendar.
    pub open spec fn wf(self) -> bool {
        DAY_MIN <= self.day <= DAY_MAX
    }
}

/// An instant.
#[derive(Clone, Copy, Debug, PartialEq, Eq, Structural)]
pub struct UtcTime {
    /// Whole seconds since the Unix epoch, rounded down.
    pub secs: i64,
    /// Nanoseconds since then.
    pub nanos: u32,
}

impl UtcTime {
    /// The instant is one of the calendar.
    pub open spec fn wf(self) -> bool {
        SECOND_MIN <= self.secs <= SECOND_MAX && self.nanos < 1_000_000_000
    }

    /// `self` is later than `other`.
    pub open spec fn later_than(self, other: UtcTime) -> bool {
        self.secs > other.secs || (self.secs == other.secs && self.nanos > other.nanos)
    }

    /// The start of the second `secs`.
    pub open spec fn at(secs: int) -> UtcTime {
        UtcTime { secs: secs as i64, nanos: 0 }
    }
}

/// `y` is a leap year.
pub open spec fn is_leap(y: int) -> bool {
    y % 4 == 0 && (y % 100 != 0 || y % 400 == 0)
}

/// The number of days of month `m` of the year `y`.
pub open spec fn days_in_month(y: int, m: int) -> int {
    if m == 2 {
        if is_leap(y) {
            29
        } else {
            28
        }
    } else if m == 4 || m == 6 || m == 9 || m == 11 {
        30
    } else {
        31
    }
}

/// The number of days of the year `y` before month `m`.
pub open spec fn days_before_month(y: int, m: int) -> int
    decreases m,
{
    if m <= 1 {
        0
    } else {
        days_before_month(y, m - 1) + days_in_month(y, m - 1)
    }
}

/// `y`, `m` and `d` are year, month and day of a date, in a year of at most four digits.
pub open spec fn is_civil(y: int, m: int, d: int) -> bool {
    0 <= y <= 9999 && 1 <= m <= 12 && 1 <= d <= days_in_month(y, m)
}

/// The number of the day `d` of month `m` of the year `y`.
pub open spec fn day_number(y: int, m: int, d: int) -> int {
    365 * (y - 1) + (y - 1) / 4 - (y - 1) / 100 + (y - 1) / 400 + days_before_month(y, m) + d
}

/// The two last digits of `n`.
pub open spec fn two_digits(n: int) -> Seq<char> {
    seq![digit((n / 10 % 10) as nat), digit((n % 10) as nat)]
}

/// Year, month and day as `YYYY-MM-DD`.
pub open spec fn civil_text(y: int, m: int, d: int) -> Seq<char> {
    two_digits(y / 100) + two_digits(y % 100) + seq!['-'] + two_digits(m) + seq!['-'] + two_digits(
        d,
    )
}

/// A second of the day as `hh:mm:ss`.
pub open spec fn clock_text(second: int) -> Seq<char> {
    two_digits(second / 3600) + seq![':'] + two_digits(second / 60 % 60) + seq![':'] + two_digits(
        second % 60,
    )
}

/// The first second of the day `day` on a clock, counted as if the clock showed UTC.
pub open spec fn clock_midnight(day: int) -> int {
    (day - EPOCH_DAY) * DAY_SECONDS
}

/// The day of the second `secs` on a clock, counted as if the clock showed UTC.
pub open spec fn clock_day(secs: int) -> int {
    secs / DAY_SECONDS as int + EPOCH_DAY
}

/// The text of the date with the number `day`.
pub uninterp spec fn date_text(day: int) -> Seq<char>;

/// The number of the date that `chrono` reads from `text` by `format`.
pub uninterp spec fn date_of_text(text: Seq<char>, format: Seq<char>) -> Option<i32>;

/// The second at which the day `day` begins in Taipei; nothing where its clocks showed
/// midnight never or twice, or where that second is before the calendar.
pub uninterp spec fn taipei_midnight(day: int) -> Option<i64>;

/// The day in Taipei at the second `secs`.
pub uninterp spec fn taipei_day(secs: int) -> int;

/// An instant in RFC 3339 with the offset of Taipei.
pub uninterp spec fn taipei_rfc3339(secs: int, nanos: int) -> Seq<char>;

/// `text` is the text of the date with the number `day`: for the years of at most four digits,
/// `YYYY-MM-DD`.
pub open spec fn spells_date(text: Seq<char>, day: int) -> bool {
    &&& text == date_text(day)
    &&& forall|y: int, m: int, d: int|
        is_civil(y, m, d) && day_number(y, m, d) == day ==> text == #[trigger] civil_text(y, m, d)
}

/// `text` is an instant in RFC 3339 with the offset of Taipei. Since the last change of its
/// clocks and for the years of at most four digits, a whole second is date, `T`, time of day and
/// `+08:00`.
pub open spec fn spells_instant(text: Seq<char>, secs: int, nanos: int) -> bool {
    &&& text == taipei_rfc3339(secs, nanos)
    &&& secs >= TAIPEI_SETTLED_SECOND && nanos == 0 ==> forall|y: int, m: int, d: int|
        is_civil(y, m, d) && day_number(y, m, d) == clock_day(secs + TAIPEI_OFFSET) ==> text
            == #[trigger] civil_text(y, m, d) + seq!['T'] + clock_text(
            (secs + TAIPEI_OFFSET) % DAY_SECONDS as int,
        ) + seq!['+', '0', '8', ':', '0', '0']
}

/// The `Display` of `chrono::NaiveDate`: for the years of at most four digits, year,
/// month and day with hyphens between them, padded with zeros.
#[verifier::external_body]
fn date_to_text(day: i32) -> (out: String)
    requires
        DAY_MIN <= day <= DAY_MAX,
    ensures
        out@ == date_text(day as int),
        forall|y: int, m: int, d: int|
            is_civil(y, m, d) && day_number(y, m, d) == day ==> out@ == #[trigger] civil_text(y, m, d),
{
    chrono::NaiveDate::from_num_days_from_ce_opt(day).unwrap().to_string()
}

/// `chrono::NaiveDate::parse_from_str`: a date of the calendar, or nothing where the
/// text does not match the format. Year, month and day with hyphens between them,
/// padded with zeros, match the format `%Y-%m-%d`.
#[verifier::external_body]
fn parse_date_text(text: &str, format: &str) -> (day: Option<i32>)
    ensures
        day == date_of_text(text@, format@),
        day matches Some(n) ==> DAY_MIN <= n <= DAY_MAX,
        format@ == DATE_FORMAT@ ==> forall|y: int, m: int, d: int|
            is_civil(y, m, d) && text@ == #[trigger] civil_text(y, m, d) ==> day == Some(
                day_number(y, m, d) as i32,
            ),
{
    match chrono::NaiveDate::parse_from_str(text, format) {
        Ok(date) => Some(chrono::Datelike::num_days_from_ce(&date)),
        Err(_) => None,
    }
}

/// `chrono::TimeZone::from_local_datetime` of `chrono_tz::Asia::Taipei` at midnight, and
/// `single` of its result. Taipei has always been between eight and nine hours ahead of
/// UTC, and eight hours ahead since the last change of its clocks.
#[verifier::external_body]
fn find_taipei_midnight(day: i32) -> (start: Option<i64>)
    requires
        DAY_MIN <= day <= DAY_MAX,
    ensures
        start == taipei_midnight(day as int),
        start matches Some(s) ==> clock_midnight(day as int) - 32_400 <= s <= clock_midnight(
            day as int,
        ) - 28_800,
        day >= TAIPEI_SETTLED_DAY ==> start == Some((clock_midnight(day as int) - TAIPEI_OFFSET) as i64),
        start matches Some(s) ==> SECOND_MIN <= s,
{
    let date = chrono::NaiveDate::from_num_days_from_ce_opt(day).unwrap();
    let midnight = date.and_time(chrono::NaiveTime::MIN);
    match chrono::TimeZone::from_local_datetime(&chrono_tz::Asia::Taipei, &midnight).single() {
        Some(start) => Some(start.timestamp()),
        None => None,
    }
}

/// `chrono::DateTime::with_timezone` with `chrono_tz::Asia::Taipei`, and `date_naive` of
/// its result. Taipei has always been between eight and nine hours ahead of UTC, and
/// eight hours ahead since the last change of its clocks.
#[verifier::external_body]
fn find_taipei_day(secs: i64) -> (day: i32)
    requires
        SECOND_MIN <= secs <= SECOND_MAX - TAIPEI_OFFSET,
    ensures
        day == taipei_day(secs as int),
        clock_day(secs + 28_800) <= day <= clock_day(secs + 32_400),
        secs >= TAIPEI_SETTLED_SECOND ==> day == clock_day(secs + TAIPEI_OFFSET),
{
    let time = chrono::DateTime::from_timestamp(secs, 0).unwrap();
    chrono::Datelike::num_days_from_ce(&time.with_timezone(&chrono_tz::Asia::Taipei).date_naive())
}

/// `chrono::DateTime::with_timezone` with `chrono_tz::Asia::Taipei`, and `to_rfc3339` of
/// its result. Since the last change of the clocks in Taipei and for the years of at
/// most four digits, a whole second is written as date, `T`, time of day and `+08:00`.
#[verifier::external_body]
fn taipei_to_rfc3339(secs: i64, nanos: u32) -> (out: String)
    requires
        SECOND_MIN <= secs <= SECOND_MAX,
        nanos < 1_000_000_000,
    ensures
        out@ == taipei_rfc3339(secs as int, nanos as int),
        secs >= TAIPEI_SETTLED_SECOND && nanos == 0 ==> forall|y: int, m: int, d: int|
            is_civil(y, m, d) && day_number(y, m, d) == clock_day(secs + TAIPEI_OFFSET) ==> out@
                == #[trigger] civil_text(y, m, d) + seq!['T'] + clock_text(
                (secs + TAIPEI_OFFSET) % DAY_SECONDS as int,
            ) + seq!['+', '0', '8', ':', '0', '0'],
{
    let time = chrono::DateTime::from_timestamp(secs, nanos).unwrap();
    time.with_timezone(&chrono_tz::Asia::Taipei).to_rfc3339()
}

/// `chrono::Utc::now`: an instant of the calendar, not before the Unix epoch. Which one is
/// for the clock of the machine to say.
#[verifier::external_body]
fn utc_now() -> (now: UtcTime)
    ensures
        now.wf(),
        now.secs >= 0,
{
    let now = chrono::Utc::now();
    UtcTime { secs: now.timestamp(), nanos: now.timestamp_subsec_nanos() }
}

/// The format of a date: year, month and day with hyphens between them.
pub const DATE_FORMAT: &'static str = "%Y-%m-%d";

impl Date {
    /// The date that `text` spells by [`DATE_FORMAT`].
    pub fn parse(text: &str) -> (date: Option<Date>)
        ensures
            date == (match date_of_text(text@, DATE_FORMAT@) {
                Some(day) => Some(Date { day }),
                None => None,
            }),
            date matches Some(d) ==> d.wf(),
            forall|y: int, m: int, d: int|
                is_civil(y, m, d) && text@ == #[trigger] civil_text(y, m, d) ==> date == Some(
                    Date { day: day_number(y, m, d) as i32 },
                ),
    {
        match parse_date_text(text, DATE_FORMAT) {
            Some(day) => Some(Date { day }),
            None => None,
        }
    }

    /// The text of the date.
    pub fn to_text(self) -> (out: String)
        requires
            self.wf(),
        ensures
            spells_date(out@, self.day as int),
            out@ == date_text(self.day as int),
            forall|y: int, m: int, d: int|
                is_civil(y, m, d) && day_number(y, m, d) == self.day ==> out@
                    == #[trigger] civil_text(y, m, d),
    {
        date_to_text(self.day)
    }
}

impl UtcTime {
    /// Whether `self` is later than `other`.
    pub fn is_later_than(self, other: UtcTime) -> (later: bool)
        ensures
            later == self.later_than(other),
            later <==> self.secs > other.secs || self.secs == other.secs && self.nanos
                > other.nanos,
    {
        self.secs > other.secs || (self.secs == other.secs && self.nanos > other.nanos)
    }
}

/// The date in Taipei at `now`; nothing where it is beyond the calendar.
pub open spec fn date_at(now: UtcTime) -> Option<Date> {
    if now.secs <= SECOND_MAX - TAIPEI_OFFSET {
        Some(Date { day: taipei_day(now.secs as int) as i32 })
    } else {
        None
    }
}

/// The date in Taipei at `now`; nothing where it is beyond the calendar.
pub fn date_in_taipei(now: UtcTime) -> (today: Option<Date>)
    requires
        now.wf(),
    ensures
        today == date_at(now),
        today is Some <==> now.secs <= SECOND_MAX - TAIPEI_OFFSET,
        today matches Some(d) ==> d.wf() && d.day == taipei_day(now.secs as int),
        today matches Some(d) ==> (now.secs >= TAIPEI_SETTLED_SECOND ==> d.day == clock_day(
            now.secs + TAIPEI_OFFSET,
        )),
        today matches Some(d) ==> clock_day(now.secs + 28_800) <= d.day <= clock_day(
            now.secs + 32_400,
        ),
{
    if now.secs <= SECOND_MAX - TAIPEI_OFFSET {
        let day = find_taipei_day(now.secs);
        Some(Date { day })
    } else {
        None
    }
}

/// Today's date in Taipei: the date at the instant that the clock of the machine gives;
/// nothing where it is beyond the calendar, in its last eight hours.
pub fn today_taipei() -> (today: Option<Date>)
    ensures
        exists|now: UtcTime| now.wf() && now.secs >= 0 && today == #[trigger] date_at(now),
        today matches Some(d) ==> d.wf() && d.day >= EPOCH_DAY,
{
    date_in_taipei(utc_now())
}

/// The current instant.
pub fn current_time() -> (now: UtcTime)
    ensures
        now.wf(),
        now.secs >= 0,
{
    utc_now()
}

/// The instants at which the date begins and ends in Taipei, the end excluded.
pub open spec fn day_bounds(date: Date) -> Option<(UtcTime, UtcTime)> {
    match taipei_midnight(date.day as int) {
        Some(start) => Some((UtcTime::at(start as int), UtcTime::at(start + DAY_SECONDS))),
        None => None,
    }
}

/// The second at which a date begins in Taipei since the last change of its clocks.
pub open spec fn settled_midnight(day: int) -> int {
    clock_midnight(day) - TAIPEI_OFFSET
}

/// The instants at which the date begins and ends in Taipei, the end excluded; nothing
/// where its clocks showed midnight never or twice, or where it begins before the calendar.
pub fn day_bounds_utc(date: Date) -> (bounds: Option<(UtcTime, UtcTime)>)
    requires
        date.wf(),
    ensures
        bounds == day_bounds(date),
        bounds is None <==> taipei_midnight(date.day as int) is None,
        bounds matches Some((start, end)) ==> taipei_midnight(date.day as int) == Some(start.secs)
            && start.nanos == 0 && end.secs == start.secs + 86_400 && end.nanos == 0,
        bounds matches Some((start, end)) ==> start.wf() && end.wf(),
        bounds matches Some((start, end)) ==> clock_midnight(date.day as int) - 32_400
            <= start.secs <= clock_midnight(date.day as int) - 28_800,
        date.day >= TAIPEI_SETTLED_DAY ==> bounds == Some(
            (
                UtcTime::at(settled_midnight(date.day as int)),
                UtcTime::at(settled_midnight(date.day + 1)),
            ),
        ),
{
    match find_taipei_midnight(date.day) {
        Some(start) => {
            let end: i64 = start + DAY_SECONDS;
            Some((UtcTime { secs: start, nanos: 0 }, UtcTime { secs: end, nanos: 0 }))
        },
        None => None,
    }
}

/// The instant in RFC 3339 with the offset of Taipei.
pub fn to_taipei_rfc3339(ts: UtcTime) -> (out: String)
    requires
        ts.wf(),
    ensures
        spells_instant(out@, ts.secs as int, ts.nanos as int),
        out@ == taipei_rfc3339(ts.secs as int, ts.nanos as int),
{
    taipei_to_rfc3339(ts.secs, ts.nanos)
}

/// The buckets of a day fill it exactly, and one day ends where the next begins.
pub proof fn law_days_tile(day: int)
    ensures
        settled_midnight(day + 1) - settled_midnight(day) == BUCKETS_PER_DAY * BUCKET_SECONDS,
        BUCKETS_PER_DAY * BUCKET_SECONDS == 24 * 60 * 60,
        BUCKET_SECONDS == 5 * 60,
        DAY_SECONDS == 24 * 60 * 60,
{
}

/// Midnight in Taipei is at 16:00 UTC of the day before, for every day since the last change of
/// its clocks: eight hours before the midnight of the same date in UTC.
pub proof fn law_taipei_is_eight_hours_ahead(day: int)
    ensures
        settled_midnight(day) == (day - 719_163) * 86_400 - 8 * 3600,
        settled_midnight(day) == clock_midnight(day - 1) + 16 * 3600,
{
}

/// The bounds of a date are the instant at which it begins and the one a day later, both at the
/// start of a second. There are none exactly where the date has no beginning.
pub proof fn law_bounds_are_one_day(date: Date)
    ensures
        day_bounds(date) is None <==> taipei_midnight(date.day as int) is None,
        (taipei_midnight(date.day as int) matches Some(s) && s <= i64::MAX - 86_400) ==> (day_bounds(
            date,
        ) matches Some((start, end)) && start.secs == taipei_midnight(date.day as int)->0
            && start.nanos == 0 && end.secs - start.secs == 86_400 && end.nanos == 0),
{
}

/// The date in Taipei at an instant is that of its second, for every instant but those of the
/// last eight hours of the calendar.
pub proof fn law_date_is_that_of_the_second(now: UtcTime)
    requires
        now.wf(),
        DAY_MIN <= taipei_day(now.secs as int) <= DAY_MAX,
    ensures
        date_at(now) is None <==> now.secs > SECOND_MAX - 8 * 3600,
        date_at(now) matches Some(date) ==> date.day == taipei_day(now.secs as int),
{
}

/// Instants are ordered as their distances from the epoch in nanoseconds.
pub proof fn law_later_is_further_from_the_epoch(a: UtcTime, b: UtcTime)
    requires
        a.wf(),
        b.wf(),
    ensures
        a.later_than(b) <==> a.secs * 1_000_000_000 + a.nanos > b.secs * 1_000_000_000 + b.nanos,
{
}

/// The start of a second is that second and no fraction of it.
pub proof fn law_start_of_a_second(secs: i64)
    ensures
        UtcTime::at(secs as int).secs == secs,
        UtcTime::at(secs as int).nanos == 0,
{
}

/// A date has one text, and an instant has one text.
pub proof fn law_texts_of_time_are_unique(
    s: Seq<char>,
    t: Seq<char>,
    day: int,
    secs: int,
    nanos: int,
)
    ensures
        spells_date(s, day) && spells_date(t, day) ==> s == t,
        spells_date(s, day) ==> s == date_text(day),
        spells_instant(s, secs, nanos) && spells_instant(t, secs, nanos) ==> s == t,
        spells_instant(s, secs, nanos) ==> s == taipei_rfc3339(secs, nanos),
{
}

/// The numbers of the days run on without a gap: from a day to the next of its month, from the
/// last of a month to the first of the next, and from the last of a year to the first of the
/// next. The first day of the year 1 has the number 1.
pub proof fn law_days_are_numbered_in_order(y: int, m: int, d: int)
    requires
        is_civil(y, m, d),
    ensures
        d < days_in_month(y, m) ==> day_number(y, m, d + 1) == day_number(y, m, d) + 1,
        d == days_in_month(y, m) && m < 12 ==> day_number(y, m + 1, 1) == day_number(y, m, d) + 1,
        m == 12 && d == 31 ==> day_number(y + 1, 1, 1) == day_number(y, m, d) + 1,
        day_number(1, 1, 1) == 1,
{
    reveal_with_fuel(days_before_month, 13);
}

/// An instant lies within the date that it has in Taipei: not before the date begins,
/// and before it ends.
pub proof fn law_instant_lies_in_its_day(secs: int)
    ensures
        settled_midnight(clock_day(secs + TAIPEI_OFFSET)) <= secs < settled_midnight(
            clock_day(secs + TAIPEI_OFFSET) + 1,
        ),
{
}

} // verus!
