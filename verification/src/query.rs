//! What the rows of the statistics come to in a response.
//!
//! Gaps are filled with zeros here and not in the database: an address without a single
//! row would be missing from any gap filling over the rows.

use vstd::prelude::*;
use vstd::string::*;

use crate::address::{ip_of_text, spells_address, IpAddr};
use crate::error::{ApiError, ApiErrorView};
use crate::models::{
    overage, BucketUsage, DailyDistribution, DayUsage, ExceededEntry, ExceededReport, IpUsage,
    TodayUsage, TopUsage, Usage, WeekUsage, GIB, MIB,
};
use crate::timeutil::{
    date_text, day_bounds, day_bounds_utc, settled_midnight, spells_date, spells_instant,
    to_taipei_rfc3339, Date, UtcTime, BUCKETS_PER_DAY, BUCKET_SECONDS, DAY_MIN, TAIPEI_SETTLED_DAY,
};

verus! {

/// The counters of a row: outside received and sent, inside received and sent.
#[derive(Clone, Copy, Debug, PartialEq, Eq, Structural)]
pub struct Counters {
    pub ext_rx_bytes: i64,
    pub ext_tx_bytes: i64,
    pub intra_rx_bytes: i64,
    pub intra_tx_bytes: i64,
}

impl Counters {
    /// The usage that the counters come to.
    pub open spec fn to_usage(self) -> Usage {
        Usage::of(self.ext_rx_bytes, self.ext_tx_bytes, self.intra_rx_bytes, self.intra_tx_bytes)
    }

    /// The usage that the counters come to.
    pub fn usage(self) -> (usage: Usage)
        ensures
            usage == self.to_usage(),
            usage.internet_download_bytes == self.ext_rx_bytes,
            usage.internet_upload_bytes == self.ext_tx_bytes,
            usage.school_download_bytes == self.intra_rx_bytes,
            usage.school_upload_bytes == self.intra_tx_bytes,
    {
        Usage::new(self.ext_rx_bytes, self.ext_tx_bytes, self.intra_rx_bytes, self.intra_tx_bytes)
    }
}

/// A row of one day's statistics of an address, which the database gives as text.
#[derive(Debug)]
pub struct AddressRow {
    pub addr: String,
    pub counters: Counters,
}

/// A row of an address's statistics of a day.
#[derive(Clone, Copy, Debug)]
pub struct DayRow {
    pub day: Date,
    pub counters: Counters,
}

/// A row of an address's statistics of a bucket.
#[derive(Clone, Copy, Debug)]
pub struct BucketRow {
    pub bucket: UtcTime,
    pub counters: Counters,
}

/// The usage that the last row under `key` comes to; all zeros where there is none.
pub open spec fn usage_under<K>(rows: Seq<(K, Counters)>, key: K) -> Usage
    decreases rows.len(),
{
    if rows.len() == 0 {
        Usage::of(0, 0, 0, 0)
    } else if rows.last().0 == key {
        rows.last().1.to_usage()
    } else {
        usage_under(rows.drop_last(), key)
    }
}

/// The rows with their addresses read. A row whose address cannot be read is left out.
pub open spec fn readable(rows: Seq<AddressRow>) -> Seq<(IpAddr, Counters)>
    decreases rows.len(),
{
    if rows.len() == 0 {
        Seq::<(IpAddr, Counters)>::empty()
    } else {
        let before = readable(rows.drop_last());
        match ip_of_text(rows.last().addr@) {
            Some(ip) => before.push((ip, rows.last().counters)),
            None => before,
        }
    }
}

/// The rows of days as pairs.
pub open spec fn by_day(rows: Seq<DayRow>) -> Seq<(Date, Counters)> {
    rows.map_values(|row: DayRow| (row.day, row.counters))
}

/// The rows of buckets as pairs.
pub open spec fn by_bucket(rows: Seq<BucketRow>) -> Seq<(UtcTime, Counters)> {
    rows.map_values(|row: BucketRow| (row.bucket, row.counters))
}

/// The rows with their addresses read.
fn read_rows(rows: &Vec<AddressRow>) -> (found: Vec<(IpAddr, Counters)>)
    ensures
        found@ == readable(rows@),
        found@.len() <= rows@.len(),
{
    let mut found: Vec<(IpAddr, Counters)> = Vec::new();
    let mut i: usize = 0;
    while i < rows.len()
        invariant
            i <= rows.len(),
            found@.len() <= i,
            found@ == readable(rows@.take(i as int)),
        decreases rows.len() - i,
    {
        assert(rows@.take(i + 1).drop_last() =~= rows@.take(i as int));
        assert(rows@.take(i + 1).last() == rows@[i as int]);
        match IpAddr::parse(rows[i].addr.as_str()) {
            Some(ip) => {
                found.push((ip, rows[i].counters));
            },
            None => {},
        }
        i = i + 1;
    }
    assert(rows@.take(i as int) =~= rows@);
    found
}

/// The usage of `ip`.
fn usage_of_address(found: &Vec<(IpAddr, Counters)>, ip: IpAddr) -> (usage: Usage)
    ensures
        usage == usage_under(found@, ip),
{
    let mut end: usize = found.len();
    assert(found@.take(end as int) =~= found@);
    while end > 0
        invariant
            end <= found.len(),
            usage_under(found@, ip) == usage_under(found@.take(end as int), ip),
        decreases end,
    {
        assert(found@.take(end as int).last() == found@[end - 1]);
        assert(found@.take(end as int).drop_last() =~= found@.take(end - 1));
        if found[end - 1].0 == ip {
            return found[end - 1].1.usage();
        }
        end = end - 1;
    }
    Usage::zero()
}

/// The usage of `day`.
fn usage_of_day(rows: &Vec<DayRow>, day: Date) -> (usage: Usage)
    ensures
        usage == usage_under(by_day(rows@), day),
{
    let mut end: usize = rows.len();
    let ghost pairs = by_day(rows@);
    assert(pairs.take(end as int) =~= pairs);
    while end > 0
        invariant
            end <= rows.len(),
            pairs == by_day(rows@),
            usage_under(pairs, day) == usage_under(pairs.take(end as int), day),
        decreases end,
    {
        assert(pairs.take(end as int).last() == pairs[end - 1]);
        assert(pairs.take(end as int).drop_last() =~= pairs.take(end - 1));
        if rows[end - 1].day == day {
            return rows[end - 1].counters.usage();
        }
        end = end - 1;
    }
    Usage::zero()
}

/// The usage of `bucket`.
fn usage_of_bucket(rows: &Vec<BucketRow>, bucket: UtcTime) -> (usage: Usage)
    ensures
        usage == usage_under(by_bucket(rows@), bucket),
{
    let mut end: usize = rows.len();
    let ghost pairs = by_bucket(rows@);
    assert(pairs.take(end as int) =~= pairs);
    while end > 0
        invariant
            end <= rows.len(),
            pairs == by_bucket(rows@),
            usage_under(pairs, bucket) == usage_under(pairs.take(end as int), bucket),
        decreases end,
    {
        assert(pairs.take(end as int).last() == pairs[end - 1]);
        assert(pairs.take(end as int).drop_last() =~= pairs.take(end - 1));
        if rows[end - 1].bucket == bucket {
            return rows[end - 1].counters.usage();
        }
        end = end - 1;
    }
    Usage::zero()
}

/// The usage of each of `ips` on `day`, in their order: one result for every address asked
/// for, zeros where it has no row.
pub fn today_usage(day: Date, ips: &Vec<IpAddr>, rows: &Vec<AddressRow>) -> (out: TodayUsage)
    requires
        day.wf(),
    ensures
        spells_date(out.date@, day.day as int),
        out.results@.len() == ips@.len(),
        forall|i: int|
            0 <= i < ips@.len() ==> spells_address((#[trigger] out.results@[i]).ip@, ips@[i])
                && out.results@[i].usage == usage_under(readable(rows@), ips@[i]),
{
    let found = read_rows(rows);
    let mut results: Vec<IpUsage> = Vec::new();
    let mut i: usize = 0;
    while i < ips.len()
        invariant
            i <= ips.len(),
            found@ == readable(rows@),
            results@.len() == i,
            forall|j: int|
                0 <= j < i ==> spells_address((#[trigger] results@[j]).ip@, ips@[j])
                    && results@[j].usage == usage_under(readable(rows@), ips@[j]),
        decreases ips.len() - i,
    {
        let ip = ips[i];
        let usage = usage_of_address(&found, ip);
        results.push(IpUsage { ip: ip.to_text(), usage });
        i = i + 1;
    }
    TodayUsage { date: day.to_text(), results }
}

/// The number of days of a week.
pub const WEEK_DAYS: usize = 7;

/// The first day of the week that ends with `today`.
pub fn week_first_day(today: Date) -> (first: Date)
    requires
        today.wf(),
        today.day - 6 >= DAY_MIN,
    ensures
        first.wf(),
        first.day == today.day - 6,
{
    Date { day: today.day - 6 }
}

/// The usage of `ip` on today and the six days before, oldest first, zeros for a day
/// without a row.
pub fn week_usage(today: Date, ip: IpAddr, rows: &Vec<DayRow>) -> (out: WeekUsage)
    requires
        today.wf(),
        today.day - 6 >= DAY_MIN,
    ensures
        spells_address(out.ip@, ip),
        out.days@.len() == WEEK_DAYS,
        out.days@.len() == 7,
        forall|i: int|
            0 <= i < WEEK_DAYS ==> spells_date((#[trigger] out.days@[i]).day@, today.day - 6 + i)
                && out.days@[i].usage == usage_under(
                by_day(rows@),
                Date { day: (today.day - 6 + i) as i32 },
            ),
{
    let first = week_first_day(today);
    let mut days: Vec<DayUsage> = Vec::new();
    let mut offset: usize = 0;
    while offset < WEEK_DAYS
        invariant
            offset <= WEEK_DAYS,
            first.day == today.day - 6,
            first.wf(),
            today.wf(),
            days@.len() == offset,
            forall|j: int|
                0 <= j < offset ==> spells_date((#[trigger] days@[j]).day@, today.day - 6 + j)
                    && days@[j].usage == usage_under(
                    by_day(rows@),
                    Date { day: (today.day - 6 + j) as i32 },
                ),
        decreases WEEK_DAYS - offset,
    {
        let day = Date { day: first.day + offset as i32 };
        let usage = usage_of_day(rows, day);
        days.push(DayUsage { day: day.to_text(), usage });
        offset = offset + 1;
    }
    WeekUsage { ip: ip.to_text(), days }
}

/// The number of buckets of a day, counted from its start, that have begun at the second
/// `now`.
pub open spec fn begun_buckets(start: int, now: int) -> int {
    if now < start {
        0
    } else if (now - start) / BUCKET_SECONDS as int + 1 > BUCKETS_PER_DAY {
        BUCKETS_PER_DAY as int
    } else {
        (now - start) / BUCKET_SECONDS as int + 1
    }
}

/// The answer for a date whose start is not a single instant.
pub open spec fn no_such_day(date: Date) -> ApiErrorView {
    ApiErrorView::Validation(date_text(date.day as int) + " is not a valid date"@)
}

/// The instants between which the buckets of a date lie, the end excluded.
pub fn daily_window(date: Date) -> (res: Result<(UtcTime, UtcTime), ApiError>)
    requires
        date.wf(),
    ensures
        match res {
            Ok(bounds) => day_bounds(date) == Some(bounds) && bounds.0.wf() && bounds.1.wf(),
            Err(err) => day_bounds(date) is None && err@ == no_such_day(date),
        },
        date.day >= TAIPEI_SETTLED_DAY ==> res == Ok::<(UtcTime, UtcTime), ApiError>(
            (
                UtcTime::at(settled_midnight(date.day as int)),
                UtcTime::at(settled_midnight(date.day + 1)),
            ),
        ),
{
    match day_bounds_utc(date) {
        Some(bounds) => Ok(bounds),
        None => {
            let mut message = date.to_text();
            message.append(" is not a valid date");
            Err(ApiError::validation(message))
        },
    }
}

/// The usage of `ip` in the buckets of a date, zeros for a bucket without a row. The
/// buckets that have not begun at `now` are left out: they would look like silence.
pub fn daily_distribution(date: Date, ip: IpAddr, now: UtcTime, rows: &Vec<BucketRow>) -> (res:
    Result<DailyDistribution, ApiError>)
    requires
        date.wf(),
    ensures
        match res {
            Ok(out) => day_bounds(date) is Some && ({
                let bounds = day_bounds(date)->0;
                let start = bounds.0;
                &&& spells_address(out.ip@, ip)
                &&& spells_date(out.date@, date.day as int)
                &&& out.bucket_seconds == BUCKET_SECONDS
                &&& out.points@.len() == begun_buckets(start.secs as int, now.secs as int)
                &&& forall|i: int|
                    0 <= i < out.points@.len() ==> spells_instant(
                        (#[trigger] out.points@[i]).ts@,
                        start.secs + i * BUCKET_SECONDS,
                        0,
                    ) && out.points@[i].usage == usage_under(
                        by_bucket(rows@),
                        UtcTime::at(start.secs + i * BUCKET_SECONDS),
                    )
            }),
            Err(err) => day_bounds(date) is None && err@ == no_such_day(date),
        },
        date.day >= TAIPEI_SETTLED_DAY ==> res is Ok && day_bounds(date) == Some(
            (
                UtcTime::at(settled_midnight(date.day as int)),
                UtcTime::at(settled_midnight(date.day + 1)),
            ),
        ),
{
    let (start, end) = match daily_window(date) {
        Ok(bounds) => bounds,
        Err(err) => {
            return Err(err);
        },
    };
    let mut points: Vec<BucketUsage> = Vec::new();
    let mut index: usize = 0;
    let ghost s = start.secs as int;
    while index < BUCKETS_PER_DAY
        invariant
            index <= BUCKETS_PER_DAY,
            s == start.secs,
            start.wf(),
            end.wf(),
            start.nanos == 0,
            end.secs == start.secs + 86_400,
            points@.len() == index,
            index <= begun_buckets(s, now.secs as int),
            forall|j: int|
                0 <= j < index ==> spells_instant(
                    (#[trigger] points@[j]).ts@,
                    s + j * BUCKET_SECONDS,
                    0,
                ) && points@[j].usage == usage_under(
                    by_bucket(rows@),
                    UtcTime::at(s + j * BUCKET_SECONDS),
                ),
        ensures
            points@.len() == index,
            index == begun_buckets(s, now.secs as int),
            forall|j: int|
                0 <= j < index ==> spells_instant(
                    (#[trigger] points@[j]).ts@,
                    s + j * BUCKET_SECONDS,
                    0,
                ) && points@[j].usage == usage_under(
                    by_bucket(rows@),
                    UtcTime::at(s + j * BUCKET_SECONDS),
                ),
        decreases BUCKETS_PER_DAY - index,
    {
        let ts = UtcTime { secs: start.secs + index as i64 * BUCKET_SECONDS, nanos: 0 };
        if ts.is_later_than(now) {
            break;
        }
        let usage = usage_of_bucket(rows, ts);
        points.push(BucketUsage { ts: to_taipei_rfc3339(ts), usage });
        index = index + 1;
    }
    Ok(
        DailyDistribution {
            ip: ip.to_text(),
            date: date.to_text(),
            bucket_seconds: BUCKET_SECONDS,
            points,
        },
    )
}

/// A day that is over at `now` has all its buckets, and none begins before the day does or
/// after `now`. Of a day that is not over the last bucket given is the one that holds `now`.
pub proof fn law_begun_buckets(start: int, now: int)
    ensures
        0 <= begun_buckets(start, now) <= BUCKETS_PER_DAY,
        now >= start + BUCKETS_PER_DAY * BUCKET_SECONDS ==> begun_buckets(start, now)
            == BUCKETS_PER_DAY,
        start <= now < start + BUCKETS_PER_DAY * BUCKET_SECONDS ==> ({
            let last = start + (begun_buckets(start, now) - 1) * BUCKET_SECONDS;
            last <= now < last + BUCKET_SECONDS
        }),
        forall|i: int|
            0 <= i < BUCKETS_PER_DAY ==> (i < begun_buckets(start, now) <==> #[trigger] (start + i
                * BUCKET_SECONDS) <= now),
{
}

/// The addresses over the threshold on `day`, in the order of the rows, which the database
/// gives by descending total. Each says by how much it is over.
pub fn exceeded(
    day: Date,
    threshold_mib_bits: u64,
    threshold_bytes: i64,
    rows: &Vec<AddressRow>,
) -> (out: ExceededReport)
    requires
        day.wf(),
    ensures
        spells_date(out.date@, day.day as int),
        out.threshold_mib_bits == threshold_mib_bits,
        out.threshold_bytes == threshold_bytes,
        out.count == out.results@.len(),
        out.results@.len() == readable(rows@).len(),
        forall|i: int|
            0 <= i < out.results@.len() ==> ({
                let row = readable(rows@)[i];
                let over = overage(row.1.to_usage().internet_total_bytes, threshold_bytes);
                &&& spells_address((#[trigger] out.results@[i]).ip@, row.0)
                &&& out.results@[i].usage == row.1.to_usage()
                &&& out.results@[i].over_threshold_bytes == over
                &&& out.results@[i].over_threshold_mib == over as int / MIB as int
                &&& out.results@[i].over_threshold_gib == over as int / GIB as int
            }),
{
    let found = read_rows(rows);
    let mut results: Vec<ExceededEntry> = Vec::new();
    let mut i: usize = 0;
    while i < found.len()
        invariant
            i <= found.len(),
            found@ == readable(rows@),
            results@.len() == i,
            forall|j: int|
                0 <= j < i ==> ({
                    let row = found@[j];
                    let over = overage(row.1.to_usage().internet_total_bytes, threshold_bytes);
                    &&& spells_address((#[trigger] results@[j]).ip@, row.0)
                    &&& results@[j].usage == row.1.to_usage()
                    &&& results@[j].over_threshold_bytes == over
                    &&& results@[j].over_threshold_mib == over as int / MIB as int
                    &&& results@[j].over_threshold_gib == over as int / GIB as int
                }),
        decreases found.len() - i,
    {
        let (ip, counters) = found[i];
        results.push(ExceededEntry::new(ip.to_text(), counters.usage(), threshold_bytes));
        i = i + 1;
    }
    ExceededReport {
        date: day.to_text(),
        threshold_mib_bits,
        threshold_bytes,
        count: results.len(),
        results,
    }
}

/// The addresses with the most traffic on `day`, in the order of the rows, which the database
/// gives by descending total and no more than the limit.
pub fn top_usage(day: Date, limit: usize, rows: &Vec<AddressRow>) -> (out: TopUsage)
    requires
        day.wf(),
    ensures
        spells_date(out.date@, day.day as int),
        out.limit == limit,
        out.count == out.results@.len(),
        out.results@.len() == readable(rows@).len(),
        rows@.len() <= limit ==> out.count <= out.limit,
        forall|i: int|
            0 <= i < out.results@.len() ==> ({
                let row = readable(rows@)[i];
                &&& spells_address((#[trigger] out.results@[i]).ip@, row.0)
                &&& out.results@[i].usage == row.1.to_usage()
            }),
{
    let found = read_rows(rows);
    let mut results: Vec<IpUsage> = Vec::new();
    let mut i: usize = 0;
    while i < found.len()
        invariant
            i <= found.len(),
            found@ == readable(rows@),
            results@.len() == i,
            forall|j: int|
                0 <= j < i ==> ({
                    let row = found@[j];
                    &&& spells_address((#[trigger] results@[j]).ip@, row.0)
                    &&& results@[j].usage == row.1.to_usage()
                }),
        decreases found.len() - i,
    {
        let (ip, counters) = found[i];
        results.push(IpUsage { ip: ip.to_text(), usage: counters.usage() });
        i = i + 1;
    }
    TopUsage { date: day.to_text(), limit, count: results.len(), results }
}

/// The total of a row.
pub open spec fn total_of(counters: Counters) -> i64 {
    counters.to_usage().internet_total_bytes
}

/// The rows come by descending total.
pub open spec fn descending(rows: Seq<AddressRow>) -> bool {
    forall|i: int, j: int|
        0 <= i <= j < rows.len() ==> total_of((#[trigger] rows[i]).counters) >= total_of(
            (#[trigger] rows[j]).counters,
        )
}

/// Every readable row is one of the rows, and no later than its own place among them.
proof fn lemma_readable_comes_from_rows(rows: Seq<AddressRow>)
    ensures
        readable(rows).len() <= rows.len(),
        forall|k: int|
            0 <= k < readable(rows).len() ==> exists|i: int|
                k <= i < rows.len() && (#[trigger] rows[i]).counters == (#[trigger] readable(
                    rows,
                )[k]).1 && ip_of_text(rows[i].addr@) == Some(readable(rows)[k].0),
    decreases rows.len(),
{
    if rows.len() > 0 {
        let rest = rows.drop_last();
        lemma_readable_comes_from_rows(rest);
        assert forall|k: int| 0 <= k < readable(rows).len() implies exists|i: int|
            k <= i < rows.len() && (#[trigger] rows[i]).counters == (#[trigger] readable(
                rows,
            )[k]).1 && ip_of_text(rows[i].addr@) == Some(readable(rows)[k].0) by {
            if k < readable(rest).len() {
                assert(readable(rows)[k] == readable(rest)[k]);
                let i = choose|i: int|
                    k <= i < rest.len() && (#[trigger] rest[i]).counters == readable(rest)[k].1
                        && ip_of_text(rest[i].addr@) == Some(readable(rest)[k].0);
                assert(rows[i] == rest[i]);
            } else {
                assert(rows[rows.len() - 1] == rows.last());
            }
        }
    }
}

/// The results of a ranking and of a threshold check keep the order of the rows: where the
/// rows come by descending total, so do the results.
pub proof fn law_results_keep_the_order(rows: Seq<AddressRow>)
    requires
        descending(rows),
    ensures
        forall|i: int, j: int|
            0 <= i <= j < readable(rows).len() ==> total_of((#[trigger] readable(rows)[i]).1)
                >= total_of((#[trigger] readable(rows)[j]).1),
    decreases rows.len(),
{
    if rows.len() > 0 {
        let rest = rows.drop_last();
        assert(descending(rest)) by {
            assert forall|i: int, j: int| 0 <= i <= j < rest.len() implies total_of(
                (#[trigger] rest[i]).counters,
            ) >= total_of((#[trigger] rest[j]).counters) by {
                assert(rest[i] == rows[i] && rest[j] == rows[j]);
            }
        }
        law_results_keep_the_order(rest);
        lemma_readable_comes_from_rows(rest);
        assert forall|i: int, j: int| 0 <= i <= j < readable(rows).len() implies total_of(
            (#[trigger] readable(rows)[i]).1,
        ) >= total_of((#[trigger] readable(rows)[j]).1) by {
            let n = readable(rest).len();
            if j < n {
                assert(readable(rows)[i] == readable(rest)[i]);
                assert(readable(rows)[j] == readable(rest)[j]);
            } else if i < n {
                assert(readable(rows)[i] == readable(rest)[i]);
                let k = choose|k: int|
                    i <= k < rest.len() && (#[trigger] rest[k]).counters == readable(rest)[i].1
                        && ip_of_text(rest[k].addr@) == Some(readable(rest)[i].0);
                assert(rest[k] == rows[k]);
                assert(readable(rows)[j].1 == rows.last().counters);
                assert(rows[rows.len() - 1] == rows.last());
            }
        }
    }
}

/// Where the rows are those over the threshold, every result is over it by at least one byte.
pub proof fn law_results_are_over_the_threshold(rows: Seq<AddressRow>, threshold: i64)
    requires
        forall|i: int| 0 <= i < rows.len() ==> total_of((#[trigger] rows[i]).counters) > threshold,
    ensures
        forall|k: int|
            0 <= k < readable(rows).len() ==> overage(
                total_of((#[trigger] readable(rows)[k]).1),
                threshold,
            ) > 0,
{
    lemma_readable_comes_from_rows(rows);
}

/// A key without a row has no usage.
pub proof fn law_gaps_are_zero<K>(rows: Seq<(K, Counters)>, key: K)
    requires
        forall|i: int| 0 <= i < rows.len() ==> (#[trigger] rows[i]).0 != key,
    ensures
        usage_under(rows, key) == Usage::of(0, 0, 0, 0),
    decreases rows.len(),
{
    if rows.len() > 0 {
        let rest = rows.drop_last();
        assert forall|i: int| 0 <= i < rest.len() implies (#[trigger] rest[i]).0 != key by {
            assert(rest[i] == rows[i]);
        }
        assert(rows[rows.len() - 1] == rows.last());
        law_gaps_are_zero(rest, key);
    }
}

/// The usage of a row is that of its counters, each in its own field.
pub proof fn law_row_shows_its_counters(counters: Counters)
    ensures
        counters.to_usage().internet_download_bytes == counters.ext_rx_bytes,
        counters.to_usage().internet_upload_bytes == counters.ext_tx_bytes,
        counters.to_usage().school_download_bytes == counters.intra_rx_bytes,
        counters.to_usage().school_upload_bytes == counters.intra_tx_bytes,
        i64::MIN <= counters.ext_rx_bytes + counters.ext_tx_bytes <= i64::MAX ==> total_of(counters)
            == counters.ext_rx_bytes + counters.ext_tx_bytes,
        total_of(counters) == counters.to_usage().internet_total_bytes,
{
}

/// A key has the usage of its last row, whatever other rows there are; and no usage at all where
/// it has no row.
pub proof fn law_last_row_is_reported<K>(rows: Seq<(K, Counters)>, key: K, at: int)
    requires
        0 <= at < rows.len(),
        rows[at].0 == key,
        forall|i: int| at < i < rows.len() ==> (#[trigger] rows[i]).0 != key,
    ensures
        usage_under(rows, key) == rows[at].1.to_usage(),
    decreases rows.len(),
{
    if at < rows.len() - 1 {
        let rest = rows.drop_last();
        assert forall|i: int| at < i < rest.len() implies (#[trigger] rest[i]).0 != key by {
            assert(rest[i] == rows[i]);
        }
        assert(rows[rows.len() - 1] == rows.last());
        law_last_row_is_reported(rest, key, at);
    }
}

/// A row is read where its address can be, with that address and its own counters, and left out
/// where it cannot; the rows before and behind it are read as they would be without it.
pub proof fn law_rows_are_read_one_by_one(
    before: Seq<AddressRow>,
    row: AddressRow,
    behind: Seq<AddressRow>,
)
    ensures
        readable(before + seq![row] + behind) == readable(before) + (match ip_of_text(row.addr@) {
            Some(ip) => seq![(ip, row.counters)],
            None => Seq::<(IpAddr, Counters)>::empty(),
        }) + readable(behind),
        readable(Seq::<AddressRow>::empty()).len() == 0,
    decreases behind.len(),
{
    let all = before + seq![row] + behind;
    let read = match ip_of_text(row.addr@) {
        Some(ip) => seq![(ip, row.counters)],
        None => Seq::<(IpAddr, Counters)>::empty(),
    };
    assert(readable(Seq::<AddressRow>::empty()).len() == 0);
    if behind.len() == 0 {
        assert(all.drop_last() =~= before);
        assert(all.last() == row);
        assert(readable(all) =~= readable(before) + read + readable(behind));
    } else {
        law_rows_are_read_one_by_one(before, row, behind.drop_last());
        assert(all.drop_last() =~= before + seq![row] + behind.drop_last());
        assert(all.last() == behind.last());
        assert(readable(all) =~= readable(before) + read + readable(behind));
    }
}

/// The rows of days and of buckets keep their keys, their counters and their order.
pub proof fn law_rows_keep_their_keys(days: Seq<DayRow>, buckets: Seq<BucketRow>)
    ensures
        by_day(days).len() == days.len(),
        forall|i: int|
            0 <= i < days.len() ==> (#[trigger] by_day(days)[i]).0 == days[i].day && by_day(
                days,
            )[i].1 == days[i].counters,
        by_bucket(buckets).len() == buckets.len(),
        forall|i: int|
            0 <= i < buckets.len() ==> (#[trigger] by_bucket(buckets)[i]).0 == buckets[i].bucket
                && by_bucket(buckets)[i].1 == buckets[i].counters,
{
}

/// A date that has no beginning is answered as no date, with 422 and its own text.
pub proof fn law_date_without_a_beginning_is_named(date: Date)
    ensures
        no_such_day(date) == ApiErrorView::Validation(
            date_text(date.day as int) + " is not a valid date"@,
        ),
        no_such_day(date).status() == 422,
{
}

/// A key with exactly one row has the usage of that row.
pub proof fn law_single_row_is_reported<K>(rows: Seq<(K, Counters)>, key: K, at: int)
    requires
        0 <= at < rows.len(),
        rows[at].0 == key,
        forall|i: int| 0 <= i < rows.len() && i != at ==> (#[trigger] rows[i]).0 != key,
    ensures
        usage_under(rows, key) == rows[at].1.to_usage(),
    decreases rows.len(),
{
    if at < rows.len() - 1 {
        let rest = rows.drop_last();
        assert forall|i: int| 0 <= i < rest.len() && i != at implies (#[trigger] rest[i]).0
            != key by {
            assert(rest[i] == rows[i]);
        }
        assert(rows[rows.len() - 1] == rows.last());
        law_single_row_is_reported(rest, key, at);
    }
}

} // verus!
