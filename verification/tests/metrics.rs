use httpress::metrics::{
    default_buckets, percentile, BenchmarkResults, Metrics, RequestResult,
};
use httpress::time::Duration;

fn result(ms: u64, status: Option<u16>, bytes: usize) -> RequestResult {
    RequestResult { latency: Duration::from_millis(ms), status, bytes }
}

fn results_of(rs: &[RequestResult]) -> BenchmarkResults {
    let mut m = Metrics::new();
    for r in rs {
        m.record(*r);
    }
    assert_eq!(m.recorded(), rs.len());
    m.into_results(Duration::from_secs(2))
}

#[test]
fn empty_metrics_give_zero_latencies() {
    let r = Metrics::with_capacity(16).into_results(Duration::from_secs(1));
    assert_eq!((r.total_requests, r.successful_requests, r.failed_requests), (0, 0, 0));
    for d in [r.latency_min, r.latency_max, r.latency_mean, r.latency_p50, r.latency_p99] {
        assert_eq!(d, Duration::zero());
    }
    assert!(r.status_codes.is_empty());
    assert_eq!(r.total_bytes, 0);
    assert_eq!(r.duration, Duration::from_secs(1));
}

#[test]
fn counts_statuses_and_bytes() {
    let r = results_of(&[
        result(10, Some(200), 2),
        result(20, Some(201), 3),
        result(30, Some(500), 7),
        result(40, None, 0),
        result(50, Some(200), 2),
    ]);
    assert_eq!(r.total_requests, 5);
    assert_eq!(r.successful_requests, 3);
    assert_eq!(r.failed_requests, 2);
    assert_eq!(r.total_bytes, 14);
    assert_eq!(r.status_codes.len(), 3);
    assert_eq!(r.status_codes[&200], 2);
    assert_eq!(r.status_codes[&201], 1);
    assert_eq!(r.status_codes[&500], 1);
    assert_eq!(r.sorted_status_codes(), vec![(200, 2), (201, 1), (500, 1)]);
}

#[test]
fn latency_statistics() {
    // Recorded out of order: 1..=100 ms, reversed.
    let rs: Vec<RequestResult> = (1..=100).rev().map(|ms| result(ms, Some(200), 0)).collect();
    let r = results_of(&rs);
    assert_eq!(r.latency_min, Duration::from_millis(1));
    assert_eq!(r.latency_max, Duration::from_millis(100));
    assert_eq!(r.latency_mean, Duration::from_micros(50_500));
    assert_eq!(r.latency_p50, Duration::from_millis(50));
    assert_eq!(r.latency_p90, Duration::from_millis(90));
    assert_eq!(r.latency_p95, Duration::from_millis(95));
    assert_eq!(r.latency_p99, Duration::from_millis(99));
    let sorted: Vec<u128> = r.latencies.iter().map(|d| d.as_nanos()).collect();
    let mut expected = sorted.clone();
    expected.sort();
    assert_eq!(sorted, expected);
}

#[test]
fn small_samples_use_first_value_for_low_percentiles() {
    let r = results_of(&[result(7, Some(200), 0), result(3, Some(200), 0)]);
    assert_eq!(r.latency_p50, Duration::from_millis(3));
    assert_eq!(r.latency_p90, Duration::from_millis(3));
    assert_eq!(r.latency_p99, Duration::from_millis(3));
    assert_eq!(r.latency_max, Duration::from_millis(7));
    assert_eq!(r.latency_mean, Duration::from_millis(5));
}

#[test]
fn mean_agrees_with_standard_duration_division() {
    let samples: [(u64, u32); 7] = [
        (0, 1),
        (1, 999_999_999),
        (3, 2),
        (10, 333_333_333),
        (7, 7),
        (123, 456_789),
        (2, 500_000_000),
    ];
    let mut m = Metrics::new();
    let mut total = std::time::Duration::ZERO;
    for (secs, nanos) in samples {
        m.record(RequestResult { latency: Duration::new(secs, nanos), status: None, bytes: 0 });
        total += std::time::Duration::new(secs, nanos);
    }
    let expected = total / samples.len() as u32;
    let r = m.into_results(Duration::zero());
    assert_eq!(r.latency_mean.as_nanos(), expected.as_nanos());
}

#[test]
fn percentile_positions() {
    let v: Vec<Duration> = (1..=10).map(Duration::from_secs).collect();
    assert_eq!(percentile(&v, 50), Duration::from_secs(5));
    assert_eq!(percentile(&v, 90), Duration::from_secs(9));
    assert_eq!(percentile(&v, 99), Duration::from_secs(9));
    assert_eq!(percentile(&v, 100), Duration::from_secs(10));
    assert_eq!(percentile(&v, 0), Duration::from_secs(1));
    assert_eq!(percentile(&v[..1].to_vec(), 50), Duration::from_secs(1));
}

#[test]
fn histogram_buckets_and_labels() {
    let r = results_of(&[
        result(0, Some(200), 0),
        result(1, Some(200), 0),
        result(2, Some(200), 0),
        result(5, Some(200), 0),
        result(30, Some(200), 0),
        result(1000, Some(200), 0),
        result(1001, Some(200), 0),
        result(5000, Some(200), 0),
    ]);
    let h = r.compute_histogram(&default_buckets());
    let expected: Vec<(String, u64)> = vec![
        ("0-1ms".to_string(), 2),
        ("1-5ms".to_string(), 2),
        ("5-10ms".to_string(), 0),
        ("10-25ms".to_string(), 0),
        ("25-50ms".to_string(), 1),
        ("50-100ms".to_string(), 0),
        ("100-250ms".to_string(), 0),
        ("250-500ms".to_string(), 0),
        ("500-1000ms".to_string(), 1),
        ("1000ms+".to_string(), 2),
    ];
    assert_eq!(h, expected);
    let total: u64 = h.iter().map(|(_, c)| *c).sum();
    assert_eq!(total, r.total_requests as u64);
}

#[test]
fn histogram_without_bounds_has_one_bucket() {
    let r = results_of(&[result(3, None, 0), result(9, None, 0)]);
    assert_eq!(r.compute_histogram(&Vec::new()), vec![("0ms+".to_string(), 2)]);
}

#[test]
fn sub_millisecond_latencies_fall_in_first_bucket() {
    let mut m = Metrics::new();
    m.record(RequestResult { latency: Duration::from_micros(1999), status: Some(200), bytes: 0 });
    let r = m.into_results(Duration::from_secs(1));
    let h = r.compute_histogram(&default_buckets());
    assert_eq!(h[0], ("0-1ms".to_string(), 1));
}

#[test]
fn aborted_requests_carry_no_bytes() {
    // A hook that aborts every request yields unsent results: no status, no bytes.
    let rs = vec![RequestResult { latency: Duration::zero(), status: None, bytes: 0 }; 10];
    let r = results_of(&rs);
    assert_eq!(r.successful_requests, 0);
    assert_eq!(r.total_bytes, 0);
    assert_eq!(r.failed_requests, 10);
}

#[test]
fn bytes_scale_with_request_count() {
    let rs = vec![result(1, Some(200), 1000); 10];
    let r = results_of(&rs);
    assert_eq!(r.successful_requests, 10);
    assert_eq!(r.total_bytes, 10 * 1000);
}

#[test]
fn latency_sum_check() {
    let mut m = Metrics::new();
    m.record(RequestResult { latency: Duration::from_secs(u64::MAX), status: None, bytes: 0 });
    assert!(m.latency_sum_fits());
    m.record(RequestResult { latency: Duration::from_secs(1), status: None, bytes: 0 });
    assert!(!m.latency_sum_fits());
    assert_eq!(m.bytes_received(), 0);
}

#[test]
fn status_tally_adds_up_to_successes_and_responses() {
    let rs = [
        result(1, Some(200), 1),
        result(2, Some(204), 1),
        result(3, Some(299), 1),
        result(4, Some(300), 1),
        result(5, Some(199), 1),
        result(6, None, 0),
        result(7, Some(500), 1),
        result(8, Some(200), 1),
        result(9, None, 0),
    ];
    let r = results_of(&rs);
    let two_xx: usize = r
        .status_codes
        .iter()
        .filter(|(code, _)| (200..300).contains(*code))
        .map(|(_, n)| *n)
        .sum();
    let all: usize = r.status_codes.values().sum();
    assert_eq!(two_xx, r.successful_requests);
    assert_eq!(two_xx, 4);
    assert_eq!(all, rs.iter().filter(|x| x.status.is_some()).count());
    assert_eq!(all, 7);
}

#[test]
fn recording_keeps_counters_in_step_with_the_results() {
    let rs = [
        result(3, Some(200), 10),
        result(1, Some(404), 2),
        result(2, None, 0),
        result(5, Some(201), 7),
        result(4, Some(404), 1),
    ];
    let mut m = Metrics::with_capacity(2);
    for (k, r) in rs.iter().enumerate() {
        m.record(*r);
        let seen = &rs[..=k];
        assert_eq!(m.recorded(), k + 1);
        assert_eq!(m.latencies(), &seen.iter().map(|x| x.latency).collect::<Vec<_>>());
        let two_xx: usize = m
            .status_codes()
            .iter()
            .filter(|(code, _)| (200..300).contains(*code))
            .map(|(_, n)| *n)
            .sum();
        assert_eq!(m.successful(), two_xx);
        assert!(m.successful() <= m.recorded());
        let all: usize = m.status_codes().values().sum();
        assert_eq!(all, seen.iter().filter(|x| x.status.is_some()).count());
        assert_eq!(m.bytes_received(), seen.iter().map(|x| x.bytes as u64).sum::<u64>());
    }
    assert_eq!(m.successful(), 2);
    assert_eq!(m.status_codes().get(&404), Some(&2));
}
