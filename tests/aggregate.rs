use loadster::report::{aggregate, mean_centis, percent_centis, Report};
use loadster::sample::{collect_samples, Sample, WorkerOutcome};
use loadster::stats::{percentile, percentile_index, ratio_centis, status_histogram};

fn samples(list: &[(u16, u64)]) -> Vec<Sample> {
    list.iter()
        .enumerate()
        .map(|(i, &(status, latency))| Sample::new(status, latency, 1_700_000_000 + i as u64))
        .collect()
}

fn count_of(report: &Report, code: u16) -> Option<usize> {
    report.status_counts.iter().find(|e| e.0 == code).map(|e| e.1)
}

#[test]
fn five_fast_successes() {
    let outcomes: Vec<WorkerOutcome> =
        (0..5).map(|i| WorkerOutcome::Completed(Sample::new(200, 10, 100 + i))).collect();
    let data = collect_samples(&outcomes);
    let r = aggregate(&data);
    assert_eq!(r.total, 5);
    assert_eq!(r.successful, 5);
    assert_eq!(r.failed, 0);
    assert_eq!(r.min_latency_ms, 10);
    assert_eq!(r.max_latency_ms, 10);
    assert_eq!(r.average_latency_centis(), 1000);
    assert_eq!(r.p50_ms, 10);
    assert_eq!(r.p95_ms, 10);
    assert_eq!(r.p99_ms, 10);
    assert_eq!(r.total_latency_ms, 50);
    assert_eq!(r.throughput_centis(), Some(10000));
    assert_eq!(r.status_counts, vec![(200, 5)]);
}

#[test]
fn two_ok_two_server_errors() {
    let data = samples(&[(200, 12), (500, 30), (200, 8), (500, 25)]);
    let r = aggregate(&data);
    assert_eq!(r.successful, 2);
    assert_eq!(r.failed, 2);
    assert_eq!(r.status_counts, vec![(200, 2), (500, 2)]);
    assert_eq!(percent_centis(2, r.total), 5000);
    assert_eq!(r.success_min_ms, 8);
    assert_eq!(r.success_max_ms, 12);
    assert_eq!(r.success_total_latency_ms, 20);
    assert_eq!(r.success_average_centis(), 1000);
    assert_eq!(r.min_latency_ms, 8);
    assert_eq!(r.max_latency_ms, 30);
}

#[test]
fn failed_call_leaves_no_sample() {
    let outcomes = vec![
        WorkerOutcome::Completed(Sample::new(200, 15, 1)),
        WorkerOutcome::Failed,
        WorkerOutcome::Completed(Sample::new(200, 20, 2)),
        WorkerOutcome::Completed(Sample::new(204, 25, 3)),
    ];
    let data = collect_samples(&outcomes);
    assert_eq!(data.len(), 3);
    let r = aggregate(&data);
    assert_eq!(r.total, 3);
    assert_eq!(r.successful, 3);
    assert_eq!(r.failed, 0);
}

#[test]
fn thousand_outcomes_keep_every_sample() {
    let outcomes: Vec<WorkerOutcome> = (0..1000u64)
        .map(|i| {
            if i % 100 == 7 {
                WorkerOutcome::Failed
            } else {
                WorkerOutcome::Completed(Sample::new(200, i, i))
            }
        })
        .collect();
    let data = collect_samples(&outcomes);
    assert_eq!(data.len(), 990);
    let mut seen: Vec<u64> = data.iter().map(|s| s.timestamp).collect();
    seen.sort();
    seen.dedup();
    assert_eq!(seen.len(), 990);
    assert!(data.iter().all(|s| s.latency_ms % 100 != 7));
}

#[test]
fn empty_sample_set_gives_zero_report() {
    let r = aggregate(&Vec::new());
    assert_eq!(r.total, 0);
    assert_eq!(r.successful, 0);
    assert_eq!(r.failed, 0);
    assert_eq!(r.total_latency_ms, 0);
    assert_eq!(r.min_latency_ms, 0);
    assert_eq!(r.max_latency_ms, 0);
    assert_eq!(r.p50_ms, 0);
    assert_eq!(r.p99_ms, 0);
    assert!(r.status_counts.is_empty());
    assert_eq!(r.average_latency_centis(), 0);
    assert_eq!(r.success_average_centis(), 0);
    assert_eq!(r.throughput_centis(), None);
}

#[test]
fn percentiles_read_sorted_latencies() {
    let data = samples(&[(200, 50), (200, 10), (200, 40), (200, 20), (200, 30)]);
    let r = aggregate(&data);
    assert_eq!(r.sorted_latencies, vec![10, 20, 30, 40, 50]);
    assert_eq!(r.p50_ms, 30);
    assert_eq!(r.p75_ms, 40);
    assert_eq!(r.p95_ms, 50);
    assert_eq!(r.p99_ms, 50);
}

#[test]
fn percentile_index_clamps_at_hundred_samples() {
    assert_eq!(percentile_index(99, 100), 99);
    assert_eq!(percentile_index(99, 200), 198);
    assert_eq!(percentile_index(100, 100), 99);
    assert_eq!(percentile_index(95, 20), 19);
    assert_eq!(percentile_index(50, 5), 2);
    assert_eq!(percentile_index(50, 0), 0);
    let sorted: Vec<u64> = (1..=100).collect();
    assert_eq!(percentile(&sorted, 99), 100);
    assert_eq!(percentile(&sorted, 50), 51);
    assert_eq!(percentile(&Vec::new(), 95), 0);
}

#[test]
fn averages_round_to_hundredths() {
    assert_eq!(mean_centis(10, 3), 333);
    assert_eq!(mean_centis(20, 3), 667);
    assert_eq!(mean_centis(1, 8), 13);
    assert_eq!(mean_centis(0, 0), 0);
    assert_eq!(ratio_centis(1, 3), 33);
    assert_eq!(ratio_centis(1, 200), 1);
    assert_eq!(percent_centis(1, 3), 3333);
    assert_eq!(percent_centis(0, 0), 0);
}

#[test]
fn throughput_uses_summed_latency() {
    let data = samples(&[(200, 100), (200, 300)]);
    let r = aggregate(&data);
    // two requests over 0.4 s of summed latency
    assert_eq!(r.throughput_centis(), Some(500));
    assert_eq!(r.summed_seconds_centis(), 40);
    let zero = aggregate(&samples(&[(200, 0)]));
    assert_eq!(zero.throughput_centis(), None);
}

#[test]
fn histogram_counts_add_up() {
    let data = samples(&[(404, 1), (200, 2), (404, 3), (301, 4), (404, 5)]);
    let h = status_histogram(&data);
    assert_eq!(h, vec![(404, 3), (200, 1), (301, 1)]);
    assert_eq!(h.iter().map(|e| e.1).sum::<usize>(), data.len());
    let r = aggregate(&data);
    assert_eq!(count_of(&r, 404), Some(3));
    assert_eq!(percent_centis(3, r.total), 6000);
    assert_eq!(r.successful + r.failed, r.total);
}

#[test]
fn average_times_count_matches_total() {
    let data = samples(&[(200, 7), (500, 11), (200, 13)]);
    let r = aggregate(&data);
    assert_eq!(r.total_latency_ms, 31);
    let avg = r.average_latency_centis() as i128;
    let n = r.total as i128;
    let diff = 2 * (avg * n - 100 * r.total_latency_ms as i128);
    assert!(-n < diff && diff <= n);
    assert_eq!(avg, 1033);
    assert!(data.iter().all(|s| r.min_latency_ms <= s.latency_ms && s.latency_ms <= r.max_latency_ms));
}

#[test]
fn no_success_gives_zero_success_stats() {
    let r = aggregate(&samples(&[(500, 9), (503, 4)]));
    assert_eq!(r.successful, 0);
    assert_eq!(r.failed, 2);
    assert_eq!(r.success_min_ms, 0);
    assert_eq!(r.success_max_ms, 0);
    assert_eq!(r.success_average_centis(), 0);
}
