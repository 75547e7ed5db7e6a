//! The summary report of a run.

use vstd::prelude::*;

use crate::sample::Sample;
use crate::stats::{
    histogram_total, is_ascending, is_histogram_of, is_rounded_centis, latencies, latency_values,
    max_of, max_value, min_of, min_value, percentile, percentile_position, ratio_centis,
    sort_ascending, status_histogram, success_latency_values, successes, sum_of, total_of,
    count_successful, lemma_ascending_unique, lemma_min_max_bound,
};

verus! {

/// Largest latency a sample can hold, in milliseconds.
pub const MAX_LATENCY_MS: u64 = 0xFFFF_FFFF_FFFF_FFFF;

/// Summary statistics of a sample set. Latency fields are in milliseconds and
/// are zero where no sample defines them (an empty set, or no 2xx sample for
/// the `success_` fields).
pub struct Report {
    /// Number of samples.
    pub total: usize,
    /// Number of samples with a 2xx status.
    pub successful: usize,
    /// `total - successful`.
    pub failed: usize,
    /// Sum of all latencies.
    pub total_latency_ms: u128,
    pub min_latency_ms: u64,
    pub max_latency_ms: u64,
    pub p50_ms: u64,
    pub p75_ms: u64,
    pub p95_ms: u64,
    pub p99_ms: u64,
    /// All latencies in ascending order; the percentiles are read from it.
    pub sorted_latencies: Vec<u64>,
    /// `(status, count)` per distinct status, in order of first occurrence.
    pub status_counts: Vec<(u16, usize)>,
    pub success_min_ms: u64,
    pub success_max_ms: u64,
    /// Sum of the latencies of the 2xx samples.
    pub success_total_latency_ms: u128,
}

impl Report {
    /// The latency sums are within what their counts of `u64` values allow.
    pub open spec fn wf(&self) -> bool {
        &&& self.total_latency_ms <= self.total * MAX_LATENCY_MS
        &&& self.success_total_latency_ms <= self.successful * MAX_LATENCY_MS
    }

    /// Every field is the statistic of `samples` that it names.
    pub open spec fn is_report_of(&self, samples: Seq<Sample>) -> bool {
        let n = samples.len();
        let sorted = self.sorted_latencies@;
        let ok = latencies(successes(samples));
        &&& self.total == n
        &&& self.successful == successes(samples).len()
        &&& self.failed == n - successes(samples).len()
        &&& self.total_latency_ms == sum_of(latencies(samples))
        &&& self.min_latency_ms == min_of(latencies(samples))
        &&& self.max_latency_ms == max_of(latencies(samples))
        &&& is_ascending(sorted)
        &&& sorted.to_multiset() == latencies(samples).to_multiset()
        &&& self.p50_ms == percentile_at(sorted, 50)
        &&& self.p75_ms == percentile_at(sorted, 75)
        &&& self.p95_ms == percentile_at(sorted, 95)
        &&& self.p99_ms == percentile_at(sorted, 99)
        &&& is_histogram_of(self.status_counts@, samples)
        &&& histogram_total(self.status_counts@) == n
        &&& self.success_min_ms == min_of(ok)
        &&& self.success_max_ms == max_of(ok)
        &&& self.success_total_latency_ms == sum_of(ok)
    }

    /// Average latency in hundredths of a millisecond, rounded to nearest;
    /// zero when there is no sample.
    pub fn average_latency_centis(&self) -> (r: u128)
        requires
            self.wf(),
        ensures
            self.total == 0 ==> r == 0,
            self.total > 0 ==> is_rounded_centis(
                r as int,
                self.total_latency_ms as int,
                self.total as int,
            ),
    {
        mean_centis(self.total_latency_ms, self.total)
    }

    /// Average latency of the 2xx samples in hundredths of a millisecond,
    /// rounded to nearest; zero when there is none.
    pub fn success_average_centis(&self) -> (r: u128)
        requires
            self.wf(),
        ensures
            self.successful == 0 ==> r == 0,
            self.successful > 0 ==> is_rounded_centis(
                r as int,
                self.success_total_latency_ms as int,
                self.successful as int,
            ),
    {
        mean_centis(self.success_total_latency_ms, self.successful)
    }

    /// The summed latency in hundredths of a second, rounded to nearest.
    pub fn summed_seconds_centis(&self) -> (r: u128)
        ensures
            is_rounded_centis(r as int, self.total_latency_ms as int, 1000),
    {
        ratio_centis(self.total_latency_ms, 1000)
    }

    /// Throughput in hundredths of a request per second, rounded to nearest:
    /// `total` over the sum of the latencies taken in seconds (not the
    /// wall-clock span of the run). `None` when that sum is zero.
    pub fn throughput_centis(&self) -> (r: Option<u128>)
        ensures
            self.total_latency_ms == 0 <==> r is None,
            r matches Some(t) ==> is_rounded_centis(
                t as int,
                1000 * self.total as int,
                self.total_latency_ms as int,
            ),
    {
        if self.total_latency_ms == 0 {
            None
        } else if self.total_latency_ms > 0x0100_0000_0000_0000_0000_0000_0000_0000 {
            // Fewer than 1 / 200 requests per second: rounds to zero.
            assert(200000 * self.total < 0x0100_0000_0000_0000_0000_0000_0000_0000);
            Some(0)
        } else {
            let num: u128 = 1000 * self.total as u128;
            Some(ratio_centis(num, self.total_latency_ms))
        }
    }
}

/// The value at the `k`-th percentile position of ascending values; zero when
/// there is none.
pub open spec fn percentile_at(sorted: Seq<u64>, k: int) -> u64 {
    if sorted.len() == 0 {
        0
    } else {
        sorted[percentile_position(k, sorted.len() as int)]
    }
}

/// Mean of `count` values summing to `sum`, in hundredths, rounded to
/// nearest; zero when `count` is zero.
pub fn mean_centis(sum: u128, count: usize) -> (r: u128)
    requires
        sum <= count * MAX_LATENCY_MS,
    ensures
        count == 0 ==> r == 0,
        count > 0 ==> is_rounded_centis(r as int, sum as int, count as int),
{
    if count == 0 {
        0
    } else {
        assert(sum <= count * 0x0100_0000_0000_0000_0000_0000_0000_0000) by (nonlinear_arith)
            requires
                sum <= count * MAX_LATENCY_MS,
                MAX_LATENCY_MS < 0x0100_0000_0000_0000_0000_0000_0000_0000,
        ;
        ratio_centis(sum, count as u128)
    }
}

/// Share of `count` in `total` as a percentage in hundredths
/// (`100 * count / total`, rounded to nearest); zero when `total` is zero.
pub fn percent_centis(count: usize, total: usize) -> (r: u128)
    ensures
        total == 0 ==> r == 0,
        total > 0 ==> is_rounded_centis(r as int, 100 * count as int, total as int),
{
    if total == 0 {
        0
    } else {
        let num: u128 = 100 * count as u128;
        assert(num <= total * 0x0100_0000_0000_0000_0000_0000_0000_0000) by (nonlinear_arith)
            requires
                num == 100 * count,
                count < 0x1_0000_0000_0000_0000,
                total >= 1,
        ;
        ratio_centis(num, total as u128)
    }
}

/// The summary report of a sample set. Defined for every input: an empty set
/// gives zero counts and zero latency statistics.
pub fn aggregate(samples: &Vec<Sample>) -> (r: Report)
    ensures
        r.is_report_of(samples@),
        r.wf(),
        r.successful + r.failed == r.total,
{
    let lat = latency_values(samples);
    let total = samples.len();
    let successful = count_successful(samples);
    let total_latency_ms = total_of(&lat);
    let min_latency_ms = min_value(&lat);
    let max_latency_ms = max_value(&lat);
    let sorted = sort_ascending(latency_values(samples));
    let p50_ms = percentile(&sorted, 50);
    let p75_ms = percentile(&sorted, 75);
    let p95_ms = percentile(&sorted, 95);
    let p99_ms = percentile(&sorted, 99);
    let status_counts = status_histogram(samples);
    let ok = success_latency_values(samples);
    let success_min_ms = min_value(&ok);
    let success_max_ms = max_value(&ok);
    let success_total_latency_ms = total_of(&ok);
    Report {
        total,
        successful,
        failed: total - successful,
        total_latency_ms,
        min_latency_ms,
        max_latency_ms,
        p50_ms,
        p75_ms,
        p95_ms,
        p99_ms,
        sorted_latencies: sorted,
        status_counts,
        success_min_ms,
        success_max_ms,
        success_total_latency_ms,
    }
}

/// Every sample's latency lies between the report's minimum and maximum.
pub proof fn lemma_latencies_within_min_max(samples: Seq<Sample>, r: Report)
    requires
        r.is_report_of(samples),
    ensures
        forall|i: int|
            0 <= i < samples.len() ==> r.min_latency_ms <= #[trigger] samples[i].latency_ms
                <= r.max_latency_ms,
{
    lemma_min_max_bound(latencies(samples));
    assert forall|i: int| 0 <= i < samples.len() implies r.min_latency_ms
        <= #[trigger] samples[i].latency_ms <= r.max_latency_ms by {
        assert(latencies(samples)[i] == samples[i].latency_ms);
    }
}

/// The average times the number of samples gives back the total latency:
/// an average `avg` in hundredths, rounded as `average_latency_centis`
/// rounds, is off from `100 * total / n` by at most half a hundredth.
pub proof fn lemma_average_times_count(avg: int, total: int, n: int)
    requires
        n > 0,
        is_rounded_centis(avg, total, n),
    ensures
        -n < 2 * (avg * n - 100 * total) <= n,
{
    assert(-n < 2 * (avg * n - 100 * total) <= n) by (nonlinear_arith)
        requires
            n > 0,
            2 * n * avg <= 200 * total + n < 2 * n * (avg + 1),
    ;
}

/// Successful and failed samples together make the total.
pub proof fn lemma_successful_plus_failed(samples: Seq<Sample>, r: Report)
    requires
        r.is_report_of(samples),
    ensures
        r.successful + r.failed == r.total,
        r.total == samples.len(),
{
    samples.lemma_filter_len(|s: Sample| crate::sample::is_success_status(s.status));
}

/// The status histogram's counts add up to the total number of samples.
pub proof fn lemma_histogram_sums_to_total(samples: Seq<Sample>, r: Report)
    requires
        r.is_report_of(samples),
    ensures
        histogram_total(r.status_counts@) == r.total,
{
}

/// Each percentile of the report is the value found by sorting the
/// latencies ascending and reading position `floor(k * n / 100)`, clamped
/// to the last one, in any ascending arrangement of them.
pub proof fn lemma_percentiles_of_sorted(samples: Seq<Sample>, r: Report, sorted: Seq<u64>)
    requires
        r.is_report_of(samples),
        is_ascending(sorted),
        sorted.to_multiset() == latencies(samples).to_multiset(),
    ensures
        r.p50_ms == percentile_at(sorted, 50),
        r.p75_ms == percentile_at(sorted, 75),
        r.p95_ms == percentile_at(sorted, 95),
        r.p99_ms == percentile_at(sorted, 99),
{
    lemma_ascending_unique(sorted, r.sorted_latencies@);
}

/// The report of no samples has zero counts, zero latency statistics and an
/// empty histogram.
pub proof fn lemma_empty_report(r: Report)
    requires
        r.is_report_of(Seq::empty()),
    ensures
        r.total == 0,
        r.successful == 0,
        r.failed == 0,
        r.total_latency_ms == 0,
        r.min_latency_ms == 0,
        r.max_latency_ms == 0,
        r.p50_ms == 0,
        r.p75_ms == 0,
        r.p95_ms == 0,
        r.p99_ms == 0,
        r.sorted_latencies@.len() == 0,
        r.status_counts@.len() == 0,
        r.success_min_ms == 0,
        r.success_max_ms == 0,
        r.success_total_latency_ms == 0,
{
    broadcast use vstd::seq_lib::group_to_multiset_ensures;

    let e = Seq::<Sample>::empty();
    assert(latencies(e) =~= Seq::<u64>::empty());
    assert(successes(e) =~= Seq::<Sample>::empty());
    assert(latencies(successes(e)) =~= Seq::<u64>::empty());
    assert(r.sorted_latencies@.to_multiset().len() == 0);
    if r.status_counts@.len() > 0 {
        assert(r.status_counts@[0].1 > 0);
    }
}

} // verus!
