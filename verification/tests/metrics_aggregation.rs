use perf_testing::metrics::{latency_bucket, AggregateMetrics, Aggregator, Series, LATENCY_BUCKETS};
use perf_testing::outcome::{Completion, ErrorKind, Method, Outcome, StatusClass};

fn outcome(path: &str, method: Method, completion: Completion, latency_ms: u64) -> Outcome {
    Outcome {
        user: 0,
        payload: 0,
        path: path.to_string(),
        method,
        completion,
        latency_ms,
        timestamp_ms: 0,
    }
}

fn put(path: &str, status: u16, latency_ms: u64) -> Outcome {
    outcome(path, Method::Put, Completion::Status(status), latency_ms)
}

fn listing(metrics: &AggregateMetrics) -> Vec<Series> {
    (0..metrics.series_len()).map(|i| metrics.series(i).unwrap().clone()).collect()
}

#[test]
fn latency_buckets_grow_by_powers_of_ten() {
    let expected = [
        (0u64, 0usize),
        (1, 1),
        (9, 1),
        (10, 2),
        (99, 2),
        (100, 3),
        (999, 3),
        (1_000, 4),
        (9_999, 4),
        (10_000, 5),
        (u64::MAX, 5),
    ];
    for (latency, bucket) in expected {
        assert_eq!(latency_bucket(latency), bucket, "latency {}", latency);
    }
    assert_eq!(LATENCY_BUCKETS, 6);
}

#[test]
fn a_new_aggregator_holds_nothing() {
    let metrics = Aggregator::new().snapshot();
    assert_eq!(metrics.total(), 0);
    assert_eq!(metrics.successes(), 0);
    assert_eq!(metrics.failures(), 0);
    assert_eq!(metrics.series_len(), 0);
    assert!(metrics.series(0).is_none());
    assert_eq!(metrics.count(Method::Put, "/", StatusClass::Success), 0);
    assert!(metrics.find(Method::Put, "/", StatusClass::Success).is_none());
}

#[test]
fn record_counts_each_outcome_once() {
    let mut aggregator = Aggregator::new();
    aggregator.record(put("/insert", 200, 5));
    aggregator.record(put("/insert", 201, 7));
    aggregator.record(put("/insert", 503, 30));
    aggregator.record(outcome(
        "/insert",
        Method::Put,
        Completion::Failed(ErrorKind::Timeout),
        10_000,
    ));
    let metrics = aggregator.snapshot();
    assert_eq!(metrics.total(), 4);
    assert_eq!(metrics.successes(), 2);
    assert_eq!(metrics.failures(), 2);
    assert_eq!(metrics.count(Method::Put, "/insert", StatusClass::Success), 2);
    assert_eq!(metrics.count(Method::Put, "/insert", StatusClass::ServerError), 1);
    assert_eq!(metrics.count(Method::Put, "/insert", StatusClass::TransportError), 1);
    assert_eq!(metrics.count(Method::Put, "/insert", StatusClass::ClientError), 0);
    assert_eq!(metrics.series_len(), 3);
}

#[test]
fn a_series_holds_the_exact_statistics_of_its_outcomes() {
    let mut aggregator = Aggregator::new();
    for latency in [12u64, 3, 250, 0, 12, 40_000] {
        aggregator.record(put("/insert", 200, latency));
    }
    let metrics = aggregator.snapshot();
    let series = metrics.find(Method::Put, "/insert", StatusClass::Success).unwrap();
    assert_eq!(
        *series,
        Series {
            method: Method::Put,
            path: "/insert".to_string(),
            class: StatusClass::Success,
            count: 6,
            latency_total_ms: 12 + 3 + 250 + 12 + 40_000,
            fastest_ms: 0,
            slowest_ms: 40_000,
            histogram: [1, 1, 2, 1, 0, 1],
        }
    );
}

#[test]
fn the_first_outcome_of_a_series_sets_its_fastest_and_slowest() {
    let mut aggregator = Aggregator::new();
    aggregator.record(put("/insert", 404, 77));
    let metrics = aggregator.snapshot();
    let series = metrics.find(Method::Put, "/insert", StatusClass::ClientError).unwrap();
    assert_eq!(series.count, 1);
    assert_eq!(series.latency_total_ms, 77);
    assert_eq!(series.fastest_ms, 77);
    assert_eq!(series.slowest_ms, 77);
    assert_eq!(series.histogram, [0, 0, 1, 0, 0, 0]);
}

#[test]
fn series_are_told_apart_by_method_path_and_class() {
    let mut aggregator = Aggregator::new();
    aggregator.record(put("/a", 200, 1));
    aggregator.record(put("/b", 200, 1));
    aggregator.record(outcome("/a", Method::Post, Completion::Status(200), 1));
    aggregator.record(put("/a", 301, 1));
    aggregator.record(put("/a", 200, 1));
    let metrics = aggregator.snapshot();
    assert_eq!(metrics.series_len(), 4);
    assert_eq!(metrics.count(Method::Put, "/a", StatusClass::Success), 2);
    assert_eq!(metrics.count(Method::Put, "/b", StatusClass::Success), 1);
    assert_eq!(metrics.count(Method::Post, "/a", StatusClass::Success), 1);
    assert_eq!(metrics.count(Method::Put, "/a", StatusClass::Redirection), 1);
    assert_eq!(metrics.count(Method::Get, "/a", StatusClass::Success), 0);
    assert_eq!(metrics.count(Method::Put, "/A", StatusClass::Success), 0);
    assert_eq!(metrics.count(Method::Put, "", StatusClass::Success), 0);
}

#[test]
fn series_are_listed_in_the_order_of_their_first_outcome() {
    let mut aggregator = Aggregator::new();
    aggregator.record(put("/b", 500, 1));
    aggregator.record(put("/a", 200, 1));
    aggregator.record(put("/b", 500, 1));
    let metrics = aggregator.snapshot();
    let keys: Vec<(String, StatusClass, u64)> = listing(&metrics)
        .into_iter()
        .map(|series| (series.path, series.class, series.count))
        .collect();
    assert_eq!(
        keys,
        vec![
            ("/b".to_string(), StatusClass::ServerError, 2),
            ("/a".to_string(), StatusClass::Success, 1),
        ]
    );
    assert!(metrics.series(2).is_none());
}

#[test]
fn the_sum_of_latencies_stays_at_the_largest_value() {
    let mut aggregator = Aggregator::new();
    aggregator.record(put("/insert", 200, u64::MAX));
    aggregator.record(put("/insert", 200, 5));
    let metrics = aggregator.snapshot();
    let series = metrics.find(Method::Put, "/insert", StatusClass::Success).unwrap();
    assert_eq!(series.count, 2);
    assert_eq!(series.latency_total_ms, u64::MAX);
    assert_eq!(series.fastest_ms, 5);
    assert_eq!(series.slowest_ms, u64::MAX);
}

#[test]
fn two_snapshots_with_nothing_recorded_in_between_are_identical() {
    let mut aggregator = Aggregator::new();
    aggregator.record(put("/insert", 200, 5));
    aggregator.record(put("/insert", 500, 50));
    let first = aggregator.snapshot();
    let second = aggregator.snapshot();
    assert_eq!(first, second);
    assert_eq!(listing(&first), listing(&second));
}

#[test]
fn a_snapshot_is_not_changed_by_what_is_recorded_after_it() {
    let mut aggregator = Aggregator::new();
    aggregator.record(put("/insert", 200, 5));
    let before = aggregator.snapshot();
    aggregator.record(put("/insert", 200, 6));
    aggregator.record(put("/other", 404, 6));
    assert_eq!(before.total(), 1);
    assert_eq!(before.series_len(), 1);
    assert_eq!(before.count(Method::Put, "/insert", StatusClass::Success), 1);
    let after = aggregator.snapshot();
    assert_eq!(after.total(), 3);
    assert_eq!(after.series_len(), 2);
    assert_ne!(before, after);
}

#[test]
fn a_duplicate_equals_the_metrics_it_was_made_from() {
    let mut aggregator = Aggregator::new();
    aggregator.record(put("/insert", 200, 5));
    let metrics = aggregator.snapshot();
    assert_eq!(metrics.duplicate(), metrics);
}

#[test]
fn absorbing_shards_gives_the_metrics_of_all_outcomes_together() {
    let first_part = vec![put("/a", 200, 3), put("/b", 500, 120), put("/a", 200, 15)];
    let second_part = vec![
        put("/c", 200, 9),
        put("/a", 200, 1),
        outcome("/b", Method::Put, Completion::Failed(ErrorKind::ConnectionReset), 2_000),
        put("/b", 502, 7),
    ];

    let mut whole = Aggregator::new();
    for o in first_part.iter().chain(second_part.iter()) {
        whole.record(o.clone());
    }

    let mut first_shard = Aggregator::new();
    for o in &first_part {
        first_shard.record(o.clone());
    }
    let mut second_shard = Aggregator::new();
    for o in &second_part {
        second_shard.record(o.clone());
    }
    let mut merged = Aggregator::new();
    merged.absorb(&first_shard.snapshot());
    merged.absorb(&second_shard.snapshot());

    assert_eq!(merged.snapshot(), whole.snapshot());
    let metrics = merged.snapshot();
    assert_eq!(metrics.total(), 7);
    assert_eq!(metrics.successes(), 4);
    assert_eq!(metrics.failures(), 3);
    let a = metrics.find(Method::Put, "/a", StatusClass::Success).unwrap();
    assert_eq!(a.count, 3);
    assert_eq!(a.latency_total_ms, 19);
    assert_eq!(a.fastest_ms, 1);
    assert_eq!(a.slowest_ms, 15);
    assert_eq!(a.histogram, [0, 2, 1, 0, 0, 0]);
    assert_eq!(metrics.count(Method::Put, "/b", StatusClass::ServerError), 2);
}

#[test]
fn absorbing_empty_metrics_changes_nothing() {
    let mut aggregator = Aggregator::new();
    aggregator.record(put("/a", 200, 3));
    let before = aggregator.snapshot();
    aggregator.absorb(&Aggregator::new().snapshot());
    assert_eq!(aggregator.snapshot(), before);
}

#[test]
fn absorbing_into_an_empty_aggregator_copies_the_shard() {
    let mut shard = Aggregator::new();
    shard.record(put("/a", 200, 3));
    shard.record(put("/b", 404, 30));
    let mut aggregator = Aggregator::new();
    aggregator.absorb(&shard.snapshot());
    assert_eq!(aggregator.snapshot(), shard.snapshot());
}

#[test]
fn mean_latency_is_the_sum_by_the_count_rounded_down() {
    let mut aggregator = Aggregator::new();
    for latency in [10u64, 11, 12, 14] {
        aggregator.record(put("/insert", 200, latency));
    }
    let metrics = aggregator.snapshot();
    let series = metrics.find(Method::Put, "/insert", StatusClass::Success).unwrap();
    assert_eq!(series.latency_total_ms, 47);
    assert_eq!(series.mean_latency_ms(), 11);
}

#[test]
fn mean_latency_of_no_outcome_is_zero() {
    let empty = Series {
        method: Method::Get,
        path: String::new(),
        class: StatusClass::Success,
        count: 0,
        latency_total_ms: 0,
        fastest_ms: u64::MAX,
        slowest_ms: 0,
        histogram: [0; 6],
    };
    assert_eq!(empty.mean_latency_ms(), 0);
}
