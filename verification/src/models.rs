//! The shapes of the responses.

use vstd::prelude::*;

verus! {

/// The number of `i64` that is nearest to `n`.
pub open spec fn saturated(n: int) -> i64 {
    if n > i64::MAX {
        i64::MAX
    } else if n < i64::MIN {
        i64::MIN
    } else {
        n as i64
    }
}

/// The number of `i64` that is nearest to `n`.
fn saturate(n: i128) -> (out: i64)
    ensures
        out == saturated(n as int),
{
    if n > i64::MAX as i128 {
        i64::MAX
    } else if n < i64::MIN as i128 {
        i64::MIN
    } else {
        n as i64
    }
}

/// One set of traffic counters, seen from the monitored host.
///
/// Download is what the host received and upload what it sent. `internet_*` is traffic
/// with the outside, `school_*` traffic inside the campus. The school counters cover
/// only what passed the core switch, and a flow between two monitored hosts counts on
/// both, so they do not add up over hosts.
#[derive(Clone, Copy, Debug, PartialEq, Eq, Structural)]
pub struct Usage {
    pub internet_download_bytes: i64,
    pub internet_upload_bytes: i64,
    /// Download plus upload with the outside, without the school counters.
    pub internet_total_bytes: i64,
    pub school_download_bytes: i64,
    pub school_upload_bytes: i64,
}

impl Usage {
    /// The usage with the given counters: outside received and sent, inside received and
    /// sent. The total stops at the ends of `i64`.
    pub open spec fn of(ext_rx: i64, ext_tx: i64, intra_rx: i64, intra_tx: i64) -> Usage {
        Usage {
            internet_download_bytes: ext_rx,
            internet_upload_bytes: ext_tx,
            internet_total_bytes: saturated(ext_rx + ext_tx),
            school_download_bytes: intra_rx,
            school_upload_bytes: intra_tx,
        }
    }

    /// The usage with the given counters.
    pub fn new(ext_rx: i64, ext_tx: i64, intra_rx: i64, intra_tx: i64) -> (usage: Self)
        ensures
            usage == Usage::of(ext_rx, ext_tx, intra_rx, intra_tx),
            usage.internet_download_bytes == ext_rx,
            usage.internet_upload_bytes == ext_tx,
            usage.school_download_bytes == intra_rx,
            usage.school_upload_bytes == intra_tx,
            i64::MIN <= ext_rx + ext_tx <= i64::MAX ==> usage.internet_total_bytes == ext_rx
                + ext_tx,
            ext_rx + ext_tx > i64::MAX ==> usage.internet_total_bytes == i64::MAX,
            ext_rx + ext_tx < i64::MIN ==> usage.internet_total_bytes == i64::MIN,
    {
        Self {
            internet_download_bytes: ext_rx,
            internet_upload_bytes: ext_tx,
            internet_total_bytes: saturate(ext_rx as i128 + ext_tx as i128),
            school_download_bytes: intra_rx,
            school_upload_bytes: intra_tx,
        }
    }

    /// The usage of a host or a time without data.
    pub fn zero() -> (usage: Self)
        ensures
            usage == Usage::of(0, 0, 0, 0),
            usage.internet_download_bytes == 0,
            usage.internet_upload_bytes == 0,
            usage.internet_total_bytes == 0,
            usage.school_download_bytes == 0,
            usage.school_upload_bytes == 0,
    {
        Self {
            internet_download_bytes: 0,
            internet_upload_bytes: 0,
            internet_total_bytes: 0,
            school_download_bytes: 0,
            school_upload_bytes: 0,
        }
    }
}

/// The school counters have no part in the total.
pub proof fn law_total_excludes_school(
    ext_rx: i64,
    ext_tx: i64,
    intra_rx: i64,
    intra_tx: i64,
    other_rx: i64,
    other_tx: i64,
)
    ensures
        Usage::of(ext_rx, ext_tx, intra_rx, intra_tx).internet_total_bytes == Usage::of(
            ext_rx,
            ext_tx,
            other_rx,
            other_tx,
        ).internet_total_bytes,
        i64::MIN <= ext_rx + ext_tx <= i64::MAX ==> Usage::of(
            ext_rx,
            ext_tx,
            intra_rx,
            intra_tx,
        ).internet_total_bytes == ext_rx + ext_tx,
{
}

/// Every counter shows in its own field and in no other: what was received as download, what
/// was sent as upload, the outside apart from the campus. The total is the sum of the outside
/// ones, or the end of `i64` that the sum is beyond.
pub proof fn law_counters_keep_their_direction(
    ext_rx: i64,
    ext_tx: i64,
    intra_rx: i64,
    intra_tx: i64,
)
    ensures
        ({
            let usage = Usage::of(ext_rx, ext_tx, intra_rx, intra_tx);
            &&& usage.internet_download_bytes == ext_rx
            &&& usage.internet_upload_bytes == ext_tx
            &&& usage.school_download_bytes == intra_rx
            &&& usage.school_upload_bytes == intra_tx
            &&& i64::MIN <= ext_rx + ext_tx <= i64::MAX ==> usage.internet_total_bytes == ext_rx
                + ext_tx
            &&& ext_rx + ext_tx > i64::MAX ==> usage.internet_total_bytes == i64::MAX
            &&& ext_rx + ext_tx < i64::MIN ==> usage.internet_total_bytes == i64::MIN
        }),
{
}

/// Two sets of counters that differ are shown differently: nothing of a row is lost.
pub proof fn law_usage_loses_nothing(a: (i64, i64, i64, i64), b: (i64, i64, i64, i64))
    requires
        Usage::of(a.0, a.1, a.2, a.3) == Usage::of(b.0, b.1, b.2, b.3),
    ensures
        a == b,
{
}

/// The usage of one address.
#[derive(Debug)]
pub struct IpUsage {
    pub ip: String,
    pub usage: Usage,
}

/// The usage of some addresses on one day.
#[derive(Debug)]
pub struct TodayUsage {
    pub date: String,
    pub results: Vec<IpUsage>,
}

/// The usage of one address over a week, oldest day first.
#[derive(Debug)]
pub struct WeekUsage {
    pub ip: String,
    pub days: Vec<DayUsage>,
}

/// The usage of one day.
#[derive(Debug)]
pub struct DayUsage {
    pub day: String,
    pub usage: Usage,
}

/// The usage of one address over the buckets of one day.
#[derive(Debug)]
pub struct DailyDistribution {
    pub ip: String,
    pub date: String,
    pub bucket_seconds: i64,
    pub points: Vec<BucketUsage>,
}

/// The usage of one bucket.
#[derive(Debug)]
pub struct BucketUsage {
    /// The start of the bucket, in RFC 3339 with the offset of Taipei.
    pub ts: String,
    pub usage: Usage,
}

/// The addresses with the most traffic of one day.
#[derive(Debug)]
pub struct TopUsage {
    pub date: String,
    /// The limit that was applied.
    pub limit: usize,
    /// The number of results; less than the limit where fewer hosts had traffic.
    pub count: usize,
    pub results: Vec<IpUsage>,
}

/// Bytes in a MiB.
pub const MIB: i64 = 1_048_576;

/// Bytes in a GiB.
pub const GIB: i64 = 1_073_741_824;

/// An address over the threshold, and by how much.
#[derive(Debug)]
pub struct ExceededEntry {
    pub ip: String,
    pub usage: Usage,
    /// The total less the threshold.
    pub over_threshold_bytes: i64,
    /// The same in whole MiB; zero is less than one MiB.
    pub over_threshold_mib: i64,
    /// The same in whole GiB; zero is less than one GiB.
    pub over_threshold_gib: i64,
}

/// By how many bytes `total` is over `threshold`; zero where it is not.
pub open spec fn overage(total: i64, threshold: i64) -> i64 {
    if total <= threshold {
        0
    } else {
        saturated(total - threshold)
    }
}

impl ExceededEntry {
    /// The entry of `ip` for its usage and the threshold.
    pub fn new(ip: String, usage: Usage, threshold_bytes: i64) -> (entry: Self)
        ensures
            entry.ip == ip,
            entry.usage == usage,
            entry.over_threshold_bytes == overage(usage.internet_total_bytes, threshold_bytes),
            entry.over_threshold_mib == entry.over_threshold_bytes as int / MIB as int,
            entry.over_threshold_gib == entry.over_threshold_bytes as int / GIB as int,
            usage.internet_total_bytes <= threshold_bytes ==> entry.over_threshold_bytes == 0,
            0 < usage.internet_total_bytes - threshold_bytes <= i64::MAX
                ==> entry.over_threshold_bytes == usage.internet_total_bytes - threshold_bytes,
            usage.internet_total_bytes - threshold_bytes > i64::MAX ==> entry.over_threshold_bytes
                == i64::MAX,
            entry.over_threshold_mib * 1_048_576 <= entry.over_threshold_bytes < (
            entry.over_threshold_mib + 1) * 1_048_576,
            entry.over_threshold_gib * 1_073_741_824 <= entry.over_threshold_bytes < (
            entry.over_threshold_gib + 1) * 1_073_741_824,
    {
        let difference = saturate(usage.internet_total_bytes as i128 - threshold_bytes as i128);
        let over: i64 = if difference > 0 {
            difference
        } else {
            0
        };
        Self {
            ip,
            usage,
            over_threshold_bytes: over,
            over_threshold_mib: over / MIB,
            over_threshold_gib: over / GIB,
        }
    }
}

/// The overage is never negative; it is positive exactly where the total is over the
/// threshold, and then total less threshold wherever that fits. A threshold is not
/// negative, so there it always fits.
pub proof fn law_overage(total: i64, threshold: i64)
    ensures
        overage(total, threshold) >= 0,
        overage(total, threshold) > 0 <==> total > threshold,
        threshold >= 0 && total > threshold ==> overage(total, threshold) == total - threshold,
        0 < total - threshold <= i64::MAX ==> overage(total, threshold) == total - threshold,
        total - threshold > i64::MAX ==> overage(total, threshold) == i64::MAX,
{
}

/// The whole MiB and GiB of an overage round down, and a GiB is 1024 MiB.
pub proof fn law_overage_units(over: int)
    requires
        over >= 0,
    ensures
        (over / MIB as int) * MIB <= over < (over / MIB as int + 1) * MIB,
        (over / GIB as int) * GIB <= over < (over / GIB as int + 1) * GIB,
        over / GIB as int == (over / MIB as int) / 1024,
        over < MIB ==> over / MIB as int == 0 && over / GIB as int == 0,
        MIB == 1024 * 1024,
        GIB == 1024 * MIB,
{
}

/// The addresses over a threshold on one day.
#[derive(Debug)]
pub struct ExceededReport {
    pub date: String,
    /// The threshold in MiB as it was given: the bits of a double.
    pub threshold_mib_bits: u64,
    pub threshold_bytes: i64,
    pub count: usize,
    pub results: Vec<ExceededEntry>,
}

} // verus!
