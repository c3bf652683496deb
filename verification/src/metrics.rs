//! Aggregation of request outcomes into counters and latency histograms,
//! one series for each method, path and status class.

use crate::outcome::{class_of, succeeded, Method, Outcome, OutcomeModel, StatusClass};
use vstd::prelude::*;

verus! {

/// The number of buckets of a latency histogram.
pub const LATENCY_BUCKETS: usize = 6;

/// The histogram bucket of a latency: bucket 0 holds what took under a
/// millisecond, each further bucket ten times the span of the one before,
/// and the last everything from ten seconds on.
pub open spec fn bucket_of(latency_ms: u64) -> int {
    if latency_ms < 1 {
        0
    } else if latency_ms < 10 {
        1
    } else if latency_ms < 100 {
        2
    } else if latency_ms < 1_000 {
        3
    } else if latency_ms < 10_000 {
        4
    } else {
        5
    }
}

/// The histogram bucket of a latency.
pub fn latency_bucket(latency_ms: u64) -> (bucket: usize)
    ensures
        bucket == bucket_of(latency_ms),
        bucket < LATENCY_BUCKETS,
{
    if latency_ms < 1 {
        0
    } else if latency_ms < 10 {
        1
    } else if latency_ms < 100 {
        2
    } else if latency_ms < 1_000 {
        3
    } else if latency_ms < 10_000 {
        4
    } else {
        5
    }
}

/// The sum of two counters, which stays at the largest value a counter can
/// hold once it is reached.
pub open spec fn capped_sum(a: u64, b: u64) -> u64 {
    if a + b > u64::MAX {
        u64::MAX
    } else {
        (a + b) as u64
    }
}

/// What names a series: the method and path of the request and the class
/// of its completion.
pub struct SeriesKey {
    pub method: Method,
    pub path: Seq<char>,
    pub class: StatusClass,
}

/// What a series has accumulated.
pub struct SeriesStats {
    /// How many outcomes it holds.
    pub count: u64,
    /// The sum of their latencies.
    pub latency_total_ms: u64,
    /// The smallest latency among them; the largest `u64` while there is none.
    pub fastest_ms: u64,
    /// The largest latency among them; 0 while there is none.
    pub slowest_ms: u64,
    /// How many fell into each latency bucket.
    pub histogram: Seq<u64>,
}

impl SeriesStats {
    /// The statistics of no outcome.
    pub open spec fn none() -> SeriesStats {
        SeriesStats {
            count: 0,
            latency_total_ms: 0,
            fastest_ms: u64::MAX,
            slowest_ms: 0,
            histogram: Seq::new(LATENCY_BUCKETS as nat, |b: int| 0u64),
        }
    }

    /// The statistics of a single outcome with the given latency.
    pub open spec fn single(latency_ms: u64) -> SeriesStats {
        SeriesStats {
            count: 1,
            latency_total_ms: latency_ms,
            fastest_ms: latency_ms,
            slowest_ms: latency_ms,
            histogram: Seq::new(
                LATENCY_BUCKETS as nat,
                |b: int| if b == bucket_of(latency_ms) { 1u64 } else { 0u64 },
            ),
        }
    }

    /// The statistics of the outcomes of `self` and of `other` together.
    pub open spec fn plus(self, other: SeriesStats) -> SeriesStats {
        SeriesStats {
            count: capped_sum(self.count, other.count),
            latency_total_ms: capped_sum(self.latency_total_ms, other.latency_total_ms),
            fastest_ms: if self.fastest_ms <= other.fastest_ms {
                self.fastest_ms
            } else {
                other.fastest_ms
            },
            slowest_ms: if self.slowest_ms >= other.slowest_ms {
                self.slowest_ms
            } else {
                other.slowest_ms
            },
            histogram: Seq::new(
                LATENCY_BUCKETS as nat,
                |b: int| capped_sum(self.histogram[b], other.histogram[b]),
            ),
        }
    }
}

/// The series under which `outcome` is counted.
pub open spec fn key_of(outcome: OutcomeModel) -> SeriesKey {
    SeriesKey {
        method: outcome.method,
        path: outcome.path,
        class: class_of(outcome.completion),
    }
}

/// The mathematical content of aggregate metrics.
pub struct MetricsModel {
    /// How many recorded outcomes were successes.
    pub successes: u64,
    /// How many recorded outcomes were failures.
    pub failures: u64,
    /// The statistics of each series that holds an outcome.
    pub series: Map<SeriesKey, SeriesStats>,
}

impl MetricsModel {
    /// The metrics of no outcome.
    pub open spec fn empty() -> MetricsModel {
        MetricsModel { successes: 0, failures: 0, series: Map::empty() }
    }

    /// How many outcomes were recorded.
    pub open spec fn total(self) -> u64 {
        capped_sum(self.successes, self.failures)
    }

    /// The statistics of the series `key`, which are those of no outcome
    /// where nothing was recorded under it.
    pub open spec fn stats(self, key: SeriesKey) -> SeriesStats {
        if self.series.contains_key(key) {
            self.series[key]
        } else {
            SeriesStats::none()
        }
    }

    /// The metrics after `outcome` has been recorded as well.
    pub open spec fn record(self, outcome: OutcomeModel) -> MetricsModel {
        let key = key_of(outcome);
        MetricsModel {
            successes: if succeeded(outcome.completion) {
                capped_sum(self.successes, 1)
            } else {
                self.successes
            },
            failures: if succeeded(outcome.completion) {
                self.failures
            } else {
                capped_sum(self.failures, 1)
            },
            series: self.series.insert(
                key,
                self.stats(key).plus(SeriesStats::single(outcome.latency_ms)),
            ),
        }
    }

    /// The metrics of the outcomes of `self` and of `other` together.
    pub open spec fn merge(self, other: MetricsModel) -> MetricsModel {
        MetricsModel {
            successes: capped_sum(self.successes, other.successes),
            failures: capped_sum(self.failures, other.failures),
            series: Map::new(
                |key: SeriesKey| self.series.contains_key(key) || other.series.contains_key(key),
                |key: SeriesKey| self.stats(key).plus(other.stats(key)),
            ),
        }
    }

    /// The metrics of `outcomes`, recorded one after the other.
    pub open spec fn tally(outcomes: Seq<OutcomeModel>) -> MetricsModel
        decreases outcomes.len(),
    {
        if outcomes.len() == 0 {
            MetricsModel::empty()
        } else {
            MetricsModel::tally(outcomes.drop_last()).record(outcomes.last())
        }
    }
}

/// One series of aggregate metrics.
#[derive(Clone, Debug, PartialEq, Eq)]
pub struct Series {
    pub method: Method,
    pub path: String,
    pub class: StatusClass,
    /// How many outcomes the series holds.
    pub count: u64,
    /// The sum of their latencies.
    pub latency_total_ms: u64,
    /// The smallest latency among them.
    pub fastest_ms: u64,
    /// The largest latency among them.
    pub slowest_ms: u64,
    /// How many fell into each latency bucket.
    pub histogram: [u64; LATENCY_BUCKETS],
}

/// The mean of the latencies of a series that holds `count` outcomes whose
/// latencies add up to `latency_total_ms`, rounded down; 0 for no outcome.
pub open spec fn mean_latency(count: u64, latency_total_ms: u64) -> u64 {
    if count == 0 {
        0
    } else {
        latency_total_ms / count
    }
}

impl Series {
    /// The mean latency of the outcomes of the series, in milliseconds
    /// rounded down.
    pub fn mean_latency_ms(&self) -> (mean: u64)
        ensures
            mean == mean_latency(self.count, self.latency_total_ms),
    {
        if self.count == 0 {
            0
        } else {
            self.latency_total_ms / self.count
        }
    }

    /// What names this series.
    pub open spec fn key(self) -> SeriesKey {
        SeriesKey { method: self.method, path: self.path@, class: self.class }
    }

    /// What this series has accumulated.
    pub open spec fn stats(self) -> SeriesStats {
        SeriesStats {
            count: self.count,
            latency_total_ms: self.latency_total_ms,
            fastest_ms: self.fastest_ms,
            slowest_ms: self.slowest_ms,
            histogram: self.histogram@,
        }
    }
}

/// Whether no two of `series` have the same key.
pub open spec fn distinct_keys(series: Seq<Series>) -> bool {
    forall|i: int, j: int|
        0 <= i < j < series.len() ==> (#[trigger] series[i]).key() != (#[trigger] series[j]).key()
}

/// Whether one of `series` has the key `key`.
pub open spec fn has_key(series: Seq<Series>, key: SeriesKey) -> bool {
    exists|i: int| 0 <= i < series.len() && (#[trigger] series[i]).key() == key
}

/// The place in `series` of one with the key `key`, if one has it.
pub open spec fn index_of(series: Seq<Series>, key: SeriesKey) -> int {
    choose|i: int| 0 <= i < series.len() && (#[trigger] series[i]).key() == key
}

/// The metrics that hold `series` and count nothing.
spec fn uncounted(series: Seq<Series>) -> MetricsModel {
    MetricsModel { successes: 0, failures: 0, series: series_map(series) }
}

/// The statistics of `series`, each under its key.
pub open spec fn series_map(series: Seq<Series>) -> Map<SeriesKey, SeriesStats> {
    Map::new(
        |key: SeriesKey| has_key(series, key),
        |key: SeriesKey| series[index_of(series, key)].stats(),
    )
}

impl Series {
    /// The series that holds one outcome of the given latency.
    pub(crate) fn first(
        method: Method,
        path: String,
        class: StatusClass,
        latency_ms: u64,
    ) -> (series: Series)
        ensures
            series.method == method,
            series.path == path,
            series.class == class,
            series.stats() == SeriesStats::none().plus(SeriesStats::single(latency_ms)),
    {
        let mut histogram = [0u64;LATENCY_BUCKETS];
        let bucket = latency_bucket(latency_ms);
        histogram[bucket] = 1;
        let series = Series {
            method,
            path,
            class,
            count: 1,
            latency_total_ms: latency_ms,
            fastest_ms: latency_ms,
            slowest_ms: latency_ms,
            histogram,
        };
        assert(series.stats().histogram == SeriesStats::none().plus(
            SeriesStats::single(latency_ms),
        ).histogram);
        series
    }

    /// Adds one outcome of the given latency to the series.
    pub(crate) fn observe(&mut self, latency_ms: u64)
        ensures
            final(self).method == old(self).method,
            final(self).path == old(self).path,
            final(self).class == old(self).class,
            final(self).stats() == old(self).stats().plus(SeriesStats::single(latency_ms)),
    {
        self.count = self.count.saturating_add(1);
        self.latency_total_ms = self.latency_total_ms.saturating_add(latency_ms);
        if latency_ms < self.fastest_ms {
            self.fastest_ms = latency_ms;
        }
        if latency_ms > self.slowest_ms {
            self.slowest_ms = latency_ms;
        }
        let bucket = latency_bucket(latency_ms);
        self.histogram[bucket] = self.histogram[bucket].saturating_add(1);
        assert(self.stats().histogram == old(self).stats().plus(
            SeriesStats::single(latency_ms),
        ).histogram);
    }

    /// Adds what `other` has accumulated to the series.
    pub(crate) fn absorb(&mut self, other: &Series)
        ensures
            final(self).method == old(self).method,
            final(self).path == old(self).path,
            final(self).class == old(self).class,
            final(self).stats() == old(self).stats().plus(other.stats()),
    {
        self.count = self.count.saturating_add(other.count);
        self.latency_total_ms = self.latency_total_ms.saturating_add(other.latency_total_ms);
        if other.fastest_ms < self.fastest_ms {
            self.fastest_ms = other.fastest_ms;
        }
        if other.slowest_ms > self.slowest_ms {
            self.slowest_ms = other.slowest_ms;
        }
        let mut bucket: usize = 0;
        while bucket < LATENCY_BUCKETS
            invariant
                bucket <= LATENCY_BUCKETS,
                forall|b: int|
                    0 <= b < bucket ==> self.histogram@[b] == capped_sum(
                        old(self).histogram@[b],
                        other.histogram@[b],
                    ),
                forall|b: int|
                    bucket <= b < LATENCY_BUCKETS ==> self.histogram@[b] == old(self).histogram@[b],
                self.method == old(self).method,
                self.path == old(self).path,
                self.class == old(self).class,
                self.count == capped_sum(old(self).count, other.count),
                self.latency_total_ms == capped_sum(
                    old(self).latency_total_ms,
                    other.latency_total_ms,
                ),
                self.fastest_ms == old(self).stats().plus(other.stats()).fastest_ms,
                self.slowest_ms == old(self).stats().plus(other.stats()).slowest_ms,
            decreases LATENCY_BUCKETS - bucket,
        {
            self.histogram[bucket] = self.histogram[bucket].saturating_add(other.histogram[bucket]);
            bucket += 1;
        }
        assert(self.stats().histogram == old(self).stats().plus(other.stats()).histogram);
    }

    /// A copy of the series.
    pub(crate) fn duplicate(&self) -> (copy: Series)
        ensures
            copy == *self,
    {
        Series {
            method: self.method,
            path: self.path.clone(),
            class: self.class,
            count: self.count,
            latency_total_ms: self.latency_total_ms,
            fastest_ms: self.fastest_ms,
            slowest_ms: self.slowest_ms,
            histogram: self.histogram,
        }
    }
}

/// Where no two of `series` share a key, the one at `i` is the one that is
/// found under its key.
proof fn lemma_series_lookup(series: Seq<Series>, i: int)
    requires
        distinct_keys(series),
        0 <= i < series.len(),
    ensures
        has_key(series, series[i].key()),
        index_of(series, series[i].key()) == i,
        series_map(series).contains_key(series[i].key()),
        series_map(series)[series[i].key()] == series[i].stats(),
{
    let found = index_of(series, series[i].key());
    assert(series[found].key() == series[i].key());
}

/// Putting a series with the same key in the place of one of `series`
/// puts its statistics under that key and leaves the other keys as they
/// are.
proof fn lemma_series_updated(series: Seq<Series>, i: int, updated: Series)
    requires
        distinct_keys(series),
        0 <= i < series.len(),
        updated.key() == series[i].key(),
    ensures
        distinct_keys(series.update(i, updated)),
        series_map(series.update(i, updated)) == series_map(series).insert(
            updated.key(),
            updated.stats(),
        ),
{
    let after = series.update(i, updated);
    assert forall|key: SeriesKey| has_key(after, key) <==> has_key(series, key) by {
        if has_key(series, key) {
            assert(after[index_of(series, key)].key() == key);
        }
    }
    lemma_series_lookup(series, i);
}

/// Adding a series with a key that none of `series` has puts its
/// statistics under that key and leaves the other keys as they are.
proof fn lemma_series_pushed(series: Seq<Series>, fresh: Series)
    requires
        distinct_keys(series),
        !has_key(series, fresh.key()),
    ensures
        distinct_keys(series.push(fresh)),
        series_map(series.push(fresh)) == series_map(series).insert(fresh.key(), fresh.stats()),
{
    let after = series.push(fresh);
    assert forall|key: SeriesKey| has_key(after, key) <==> (has_key(series, key) || key
        == fresh.key()) by {
        if has_key(series, key) {
            assert(after[index_of(series, key)].key() == key);
        }
        if key == fresh.key() {
            assert(after[series.len() as int].key() == key);
        }
    }
}

/// Where no two of `series` share a key, the one at `next` has a key that
/// none before it has.
proof fn lemma_next_key_is_new(series: Seq<Series>, next: int)
    requires
        distinct_keys(series),
        0 <= next < series.len(),
    ensures
        distinct_keys(series.take(next)),
        !has_key(series.take(next), series[next].key()),
        series.take(next + 1) == series.take(next).push(series[next]),
{
    let seen = series.take(next);
    if has_key(seen, series[next].key()) {
        let earlier = index_of(seen, series[next].key());
        assert(series[earlier].key() == series[next].key());
    }
}

/// The place in `series` of the one with the given key, if there is one.
fn position(series: &Vec<Series>, method: Method, path: &String, class: StatusClass) -> (found:
    Option<usize>)
    ensures
        match found {
            Some(i) => i < series@.len() && series@[i as int].key() == (SeriesKey {
                method,
                path: path@,
                class,
            }),
            None => !has_key(series@, SeriesKey { method, path: path@, class }),
        },
{
    let mut i: usize = 0;
    while i < series.len()
        invariant
            i <= series@.len(),
            forall|j: int|
                0 <= j < i ==> (#[trigger] series@[j]).key() != (SeriesKey {
                    method,
                    path: path@,
                    class,
                }),
        decreases series@.len() - i,
    {
        let candidate = &series[i];
        if candidate.method == method && candidate.class == class && candidate.path == *path {
            return Some(i);
        }
        i += 1;
    }
    None
}

/// Counters and latency histograms of the outcomes recorded so far, one
/// series for each method, path and status class that occurred. Only an
/// `Aggregator` changes them.
#[derive(Debug, PartialEq, Eq)]
pub struct AggregateMetrics {
    successes: u64,
    failures: u64,
    series: Vec<Series>,
}

impl View for AggregateMetrics {
    type V = MetricsModel;

    closed spec fn view(&self) -> MetricsModel {
        MetricsModel {
            successes: self.successes,
            failures: self.failures,
            series: series_map(self.series@),
        }
    }
}

impl AggregateMetrics {
    #[verifier::type_invariant]
    spec fn one_series_per_key(self) -> bool {
        distinct_keys(self.series@)
    }

    /// The series in the order in which each first occurred.
    pub closed spec fn listed(&self) -> Seq<Series> {
        self.series@
    }

    /// The metrics of no outcome.
    pub fn new() -> (metrics: AggregateMetrics)
        ensures
            metrics@ == MetricsModel::empty(),
            metrics.listed().len() == 0,
    {
        let metrics = AggregateMetrics { successes: 0, failures: 0, series: Vec::new() };
        assert(metrics@.series =~= Map::<SeriesKey, SeriesStats>::empty());
        metrics
    }

    /// How many recorded outcomes were successes.
    pub fn successes(&self) -> (n: u64)
        ensures
            n == self@.successes,
    {
        self.successes
    }

    /// How many recorded outcomes were failures.
    pub fn failures(&self) -> (n: u64)
        ensures
            n == self@.failures,
    {
        self.failures
    }

    /// How many outcomes were recorded.
    pub fn total(&self) -> (n: u64)
        ensures
            n == self@.total(),
    {
        self.successes.saturating_add(self.failures)
    }

    /// Adds `outcome` to the metrics.
    pub(crate) fn add(&mut self, outcome: &Outcome)
        ensures
            final(self)@ == old(self)@.record(outcome@),
    {
        proof {
            use_type_invariant(&*self);
        }
        let class = outcome.completion.class();
        let found = position(&self.series, outcome.method, &outcome.path, class);
        let ghost before = self.series@;
        let mut series: Vec<Series> = Vec::new();
        core::mem::swap(&mut self.series, &mut series);
        match found {
            Some(i) => {
                let entry = &mut series[i];
                entry.observe(outcome.latency_ms);
                proof {
                    lemma_series_lookup(before, i as int);
                    lemma_series_updated(before, i as int, series@[i as int]);
                }
            },
            None => {
                let fresh = Series::first(
                    outcome.method,
                    outcome.path.clone(),
                    class,
                    outcome.latency_ms,
                );
                proof {
                    lemma_series_pushed(before, fresh);
                }
                series.push(fresh);
            },
        }
        self.series = series;
        if outcome.completion.is_success() {
            self.successes = self.successes.saturating_add(1);
        } else {
            self.failures = self.failures.saturating_add(1);
        }
    }

    /// Adds everything that `other` holds to the metrics.
    pub(crate) fn merge_from(&mut self, other: &AggregateMetrics)
        ensures
            final(self)@ == old(self)@.merge(other@),
    {
        proof {
            use_type_invariant(&*self);
            use_type_invariant(other);
        }
        let ghost before = self.series@;
        let mut series: Vec<Series> = Vec::new();
        core::mem::swap(&mut self.series, &mut series);
        let mut j: usize = 0;
        proof {
            lemma_merge_nothing(before);
        }
        while j < other.series.len()
            invariant
                j <= other.series@.len(),
                distinct_keys(other.series@),
                distinct_keys(series@),
                series_map(series@) == uncounted(before).merge(
                    uncounted(other.series@.take(j as int)),
                ).series,
            decreases other.series@.len() - j,
        {
            let theirs = &other.series[j];
            let ghost seen = other.series@.take(j as int);
            let ghost merged = series@;
            proof {
                lemma_next_key_is_new(other.series@, j as int);
                lemma_series_pushed(seen, *theirs);
            }
            match position(&series, theirs.method, &theirs.path, theirs.class) {
                Some(at) => {
                    let entry = &mut series[at];
                    entry.absorb(theirs);
                    proof {
                        lemma_series_lookup(merged, at as int);
                        lemma_series_updated(merged, at as int, series@[at as int]);
                    }
                },
                None => {
                    proof {
                        lemma_series_pushed(merged, *theirs);
                        lemma_none_plus(theirs.stats());
                    }
                    series.push(theirs.duplicate());
                },
            }
            proof {
                lemma_merge_one_more(
                    uncounted(before),
                    uncounted(seen),
                    theirs.key(),
                    theirs.stats(),
                );
            }
            j += 1;
        }
        proof {
            assert(other.series@.take(j as int) == other.series@);
        }
        self.series = series;
        self.successes = self.successes.saturating_add(other.successes);
        self.failures = self.failures.saturating_add(other.failures);
        assert(self@.series =~= old(self)@.merge(other@).series);
    }

    /// A copy of the metrics.
    pub fn duplicate(&self) -> (copy: AggregateMetrics)
        ensures
            copy@ == self@,
            copy.listed() == self.listed(),
    {
        proof {
            use_type_invariant(self);
        }
        let mut series: Vec<Series> = Vec::new();
        let mut i: usize = 0;
        while i < self.series.len()
            invariant
                i <= self.series@.len(),
                series@ == self.series@.take(i as int),
            decreases self.series@.len() - i,
        {
            series.push(self.series[i].duplicate());
            i += 1;
        }
        assert(series@ == self.series@);
        AggregateMetrics { successes: self.successes, failures: self.failures, series }
    }

    /// How many series there are.
    pub fn series_len(&self) -> (n: usize)
        ensures
            n == self.listed().len(),
            distinct_keys(self.listed()),
            self@.series == series_map(self.listed()),
    {
        proof {
            use_type_invariant(self);
        }
        self.series.len()
    }

    /// The series at `index` in the order in which each first occurred, if
    /// there are that many.
    pub fn series(&self, index: usize) -> (series: Option<&Series>)
        ensures
            match series {
                Some(series) => {
                    &&& index < self.listed().len()
                    &&& *series == self.listed()[index as int]
                },
                None => index >= self.listed().len(),
            },
    {
        if index < self.series.len() {
            Some(&self.series[index])
        } else {
            None
        }
    }

    /// The series of the given method, path and status class, if an outcome
    /// was recorded under it.
    pub fn find(&self, method: Method, path: &str, class: StatusClass) -> (found: Option<&Series>)
        ensures
            match found {
                Some(series) => {
                    &&& series.key() == (SeriesKey { method, path: path@, class })
                    &&& self@.series.contains_key(series.key())
                    &&& self@.series[series.key()] == series.stats()
                },
                None => !self@.series.contains_key(SeriesKey { method, path: path@, class }),
            },
    {
        proof {
            use_type_invariant(self);
        }
        let owned: String = path.to_owned();
        match position(&self.series, method, &owned, class) {
            Some(i) => {
                proof {
                    lemma_series_lookup(self.series@, i as int);
                }
                Some(&self.series[i])
            },
            None => None,
        }
    }

    /// How many outcomes were recorded under the given method, path and
    /// status class.
    pub fn count(&self, method: Method, path: &str, class: StatusClass) -> (n: u64)
        ensures
            n == self@.stats(SeriesKey { method, path: path@, class }).count,
    {
        match self.find(method, path, class) {
            Some(series) => series.count,
            None => 0,
        }
    }
}

/// Where no two of `series` share a key, their map holds each of them under
/// its key, and nothing else.
pub proof fn lemma_listed_series(series: Seq<Series>, index: int)
    requires
        distinct_keys(series),
        0 <= index < series.len(),
    ensures
        series_map(series).contains_key(series[index].key()),
        series_map(series)[series[index].key()] == series[index].stats(),
{
    lemma_series_lookup(series, index);
}

/// The statistics of no outcome add nothing.
proof fn lemma_plus_none(stats: SeriesStats, more: SeriesStats)
    ensures
        stats.plus(SeriesStats::none()).plus(more) == stats.plus(more),
{
    assert(stats.plus(SeriesStats::none()).plus(more).histogram =~= stats.plus(more).histogram);
}

/// The statistics of no outcome add nothing to statistics that have a
/// place for each latency bucket.
proof fn lemma_none_plus(stats: SeriesStats)
    requires
        stats.histogram.len() == LATENCY_BUCKETS,
    ensures
        SeriesStats::none().plus(stats) == stats,
        stats.plus(SeriesStats::none()) == stats,
{
    assert(SeriesStats::none().plus(stats).histogram =~= stats.histogram);
    assert(stats.plus(SeriesStats::none()).histogram =~= stats.histogram);
}

/// Merging one more series, under a key not merged before, puts under that
/// key what was there together with the statistics of the series, and
/// leaves every other key as it is.
proof fn lemma_merge_one_more(
    ours: MetricsModel,
    seen: MetricsModel,
    key: SeriesKey,
    stats: SeriesStats,
)
    requires
        !seen.series.contains_key(key),
    ensures
        ours.merge(
            MetricsModel {
                successes: seen.successes,
                failures: seen.failures,
                series: seen.series.insert(key, stats),
            },
        ).series == ours.merge(seen).series.insert(key, ours.merge(seen).stats(key).plus(stats)),
{
    lemma_plus_none(ours.stats(key), stats);
}

/// Merging no series into `series` leaves each of them as it is.
proof fn lemma_merge_nothing(series: Seq<Series>)
    requires
        distinct_keys(series),
    ensures
        uncounted(series).merge(uncounted(Seq::<Series>::empty())).series == series_map(series),
{
    let merged = uncounted(series).merge(uncounted(Seq::<Series>::empty()));
    assert forall|key: SeriesKey| #[trigger] series_map(series).contains_key(key) implies
    merged.series[key] == series_map(series)[key] by {
        let i = index_of(series, key);
        lemma_series_lookup(series, i);
        lemma_none_plus(series[i].stats());
    }
}

/// Takes in outcomes one by one and hands out the metrics of all that it
/// has taken in. One aggregator can serve each worker, so that recording
/// never waits for another worker; what they hold is brought together with
/// `absorb`.
#[derive(Debug)]
pub struct Aggregator {
    metrics: AggregateMetrics,
}

impl View for Aggregator {
    type V = MetricsModel;

    closed spec fn view(&self) -> MetricsModel {
        self.metrics@
    }
}

impl Aggregator {
    /// The series held, in the order in which each first occurred.
    pub closed spec fn listed(&self) -> Seq<Series> {
        self.metrics.listed()
    }

    /// An aggregator that has taken in nothing.
    pub fn new() -> (aggregator: Aggregator)
        ensures
            aggregator@ == MetricsModel::empty(),
    {
        Aggregator { metrics: AggregateMetrics::new() }
    }

    /// Takes in `outcome`, which is thereby used up.
    pub fn record(&mut self, outcome: Outcome)
        ensures
            final(self)@ == old(self)@.record(outcome@),
    {
        self.metrics.add(&outcome);
    }

    /// The metrics of everything taken in so far. The aggregator is left as
    /// it is and can go on recording.
    pub fn snapshot(&self) -> (metrics: AggregateMetrics)
        ensures
            metrics@ == self@,
            metrics.listed() == self.listed(),
    {
        self.metrics.duplicate()
    }

    /// Takes in everything that `shard` holds.
    pub fn absorb(&mut self, shard: &AggregateMetrics)
        ensures
            final(self)@ == old(self)@.merge(shard@),
    {
        self.metrics.merge_from(shard);
    }
}

/// The counter that has counted `n` times.
pub open spec fn counted(n: nat) -> u64 {
    if n > u64::MAX {
        u64::MAX
    } else {
        n as u64
    }
}

/// How many of `outcomes` were successes.
pub open spec fn successes_among(outcomes: Seq<OutcomeModel>) -> nat
    decreases outcomes.len(),
{
    if outcomes.len() == 0 {
        0
    } else {
        successes_among(outcomes.drop_last()) + if succeeded(outcomes.last().completion) {
            1nat
        } else {
            0nat
        }
    }
}

/// How many of `outcomes` are counted under the series `key`.
pub open spec fn outcomes_under(outcomes: Seq<OutcomeModel>, key: SeriesKey) -> nat
    decreases outcomes.len(),
{
    if outcomes.len() == 0 {
        0
    } else {
        outcomes_under(outcomes.drop_last(), key) + if key_of(outcomes.last()) == key {
            1nat
        } else {
            0nat
        }
    }
}

/// Every statistic that recording brings about has a histogram with one
/// place for each latency bucket.
proof fn lemma_tally_histograms(outcomes: Seq<OutcomeModel>, key: SeriesKey)
    ensures
        MetricsModel::tally(outcomes).stats(key).histogram.len() == LATENCY_BUCKETS,
    decreases outcomes.len(),
{
    if outcomes.len() > 0 {
        lemma_tally_histograms(outcomes.drop_last(), key);
    }
}

/// Recording loses and invents nothing: the metrics of a sequence of
/// outcomes count each of them once, as a success or as a failure, up to the
/// largest value that a counter holds.
pub proof fn lemma_tally_counts_each_outcome_once(outcomes: Seq<OutcomeModel>)
    ensures
        successes_among(outcomes) <= outcomes.len(),
        MetricsModel::tally(outcomes).successes == counted(successes_among(outcomes)),
        MetricsModel::tally(outcomes).failures == counted(
            (outcomes.len() - successes_among(outcomes)) as nat,
        ),
        MetricsModel::tally(outcomes).total() == counted(outcomes.len()),
    decreases outcomes.len(),
{
    if outcomes.len() > 0 {
        lemma_tally_counts_each_outcome_once(outcomes.drop_last());
    }
}

/// A series counts the outcomes under its key, each once, and there is a
/// series for a key exactly when an outcome was recorded under it.
pub proof fn lemma_tally_counts_under_each_key(outcomes: Seq<OutcomeModel>, key: SeriesKey)
    ensures
        outcomes_under(outcomes, key) <= outcomes.len(),
        MetricsModel::tally(outcomes).stats(key).count == counted(outcomes_under(outcomes, key)),
        MetricsModel::tally(outcomes).series.contains_key(key) <==> outcomes_under(outcomes, key)
            > 0,
    decreases outcomes.len(),
{
    if outcomes.len() > 0 {
        lemma_tally_counts_under_each_key(outcomes.drop_last(), key);
    }
}

/// Where no request succeeded, every outcome is counted as a failure and
/// none as a success.
pub proof fn lemma_tally_of_failures(outcomes: Seq<OutcomeModel>)
    requires
        forall|i: int| 0 <= i < outcomes.len() ==> !succeeded((#[trigger] outcomes[i]).completion),
    ensures
        MetricsModel::tally(outcomes).successes == 0,
        MetricsModel::tally(outcomes).failures == counted(outcomes.len()),
    decreases outcomes.len(),
{
    if outcomes.len() > 0 {
        let earlier = outcomes.drop_last();
        lemma_tally_of_failures(earlier);
    }
}

/// The sum of the latencies of those of `outcomes` that are counted under
/// the series `key`.
pub open spec fn latency_under(outcomes: Seq<OutcomeModel>, key: SeriesKey) -> nat
    decreases outcomes.len(),
{
    if outcomes.len() == 0 {
        0
    } else {
        latency_under(outcomes.drop_last(), key) + if key_of(outcomes.last()) == key {
            outcomes.last().latency_ms as nat
        } else {
            0nat
        }
    }
}

/// How many of `outcomes` are counted under the series `key` and fall into
/// the latency bucket `bucket`.
pub open spec fn outcomes_in_bucket(outcomes: Seq<OutcomeModel>, key: SeriesKey, bucket: int) -> nat
    decreases outcomes.len(),
{
    if outcomes.len() == 0 {
        0
    } else {
        outcomes_in_bucket(outcomes.drop_last(), key, bucket) + if key_of(outcomes.last()) == key
            && bucket_of(outcomes.last().latency_ms) == bucket {
            1nat
        } else {
            0nat
        }
    }
}

/// What a series holds after a sequence of outcomes is said by the
/// outcomes under its key alone:
/// - the sum of their latencies, up to the largest value a counter holds;
/// - in each latency bucket the number of them that fall into it;
/// - as fastest and slowest the smallest and the largest of their
///   latencies, each the latency of one of them.
pub proof fn lemma_tally_statistics(outcomes: Seq<OutcomeModel>, key: SeriesKey)
    ensures
        ({
            let stats = MetricsModel::tally(outcomes).stats(key);
            &&& stats.latency_total_ms == counted(latency_under(outcomes, key))
            &&& stats.histogram.len() == LATENCY_BUCKETS
            &&& forall|bucket: int|
                0 <= bucket < LATENCY_BUCKETS ==> #[trigger] stats.histogram[bucket] == counted(
                    outcomes_in_bucket(outcomes, key, bucket),
                )
            &&& forall|i: int|
                0 <= i < outcomes.len() && key_of(#[trigger] outcomes[i]) == key ==> stats.fastest_ms
                    <= outcomes[i].latency_ms <= stats.slowest_ms
            &&& outcomes_under(outcomes, key) > 0 ==> {
                &&& exists|i: int|
                    0 <= i < outcomes.len() && key_of(#[trigger] outcomes[i]) == key
                        && outcomes[i].latency_ms == stats.fastest_ms
                &&& exists|i: int|
                    0 <= i < outcomes.len() && key_of(#[trigger] outcomes[i]) == key
                        && outcomes[i].latency_ms == stats.slowest_ms
            }
            &&& outcomes_under(outcomes, key) == 0 ==> stats == SeriesStats::none()
        }),
    decreases outcomes.len(),
{
    if outcomes.len() > 0 {
        let earlier = outcomes.drop_last();
        let last = outcomes.last();
        let before = MetricsModel::tally(earlier).stats(key);
        let stats = MetricsModel::tally(outcomes).stats(key);
        lemma_tally_statistics(earlier, key);
        lemma_tally_counts_under_each_key(earlier, key);
        lemma_tally_counts_under_each_key(outcomes, key);
        assert forall|i: int|
            0 <= i < outcomes.len() && key_of(#[trigger] outcomes[i]) == key implies stats.fastest_ms
            <= outcomes[i].latency_ms <= stats.slowest_ms by {
            if i < earlier.len() {
                assert(outcomes[i] == earlier[i]);
            }
        }
        if outcomes_under(earlier, key) > 0 {
            let fastest = choose|i: int|
                0 <= i < earlier.len() && key_of(#[trigger] earlier[i]) == key
                    && earlier[i].latency_ms == before.fastest_ms;
            let slowest = choose|i: int|
                0 <= i < earlier.len() && key_of(#[trigger] earlier[i]) == key
                    && earlier[i].latency_ms == before.slowest_ms;
            assert(outcomes[fastest] == earlier[fastest]);
            assert(outcomes[slowest] == earlier[slowest]);
        }
        if key_of(last) == key {
            assert(key_of(outcomes[outcomes.len() - 1]) == key);
        }
    }
}

/// It makes no difference in which order statistics are brought together.
proof fn lemma_plus_associative(a: SeriesStats, b: SeriesStats, c: SeriesStats)
    ensures
        a.plus(b).plus(c) == a.plus(b.plus(c)),
{
    assert(a.plus(b).plus(c).histogram =~= a.plus(b.plus(c)).histogram);
}

/// Recording an outcome and then merging gives what merging and then
/// recording the outcome gives.
proof fn lemma_merge_record(ours: MetricsModel, theirs: MetricsModel, outcome: OutcomeModel)
    ensures
        ours.merge(theirs.record(outcome)) == ours.merge(theirs).record(outcome),
{
    let key = key_of(outcome);
    let single = SeriesStats::single(outcome.latency_ms);
    let left = ours.merge(theirs.record(outcome));
    let right = ours.merge(theirs).record(outcome);
    lemma_plus_associative(ours.stats(key), theirs.stats(key), single);
    assert(SeriesStats::none().plus(SeriesStats::none().plus(single)).histogram
        =~= SeriesStats::none().plus(single).histogram);
    assert(left.series =~= right.series);
}

/// Metrics may be gathered in parts: the metrics of two sequences of
/// outcomes, merged, are the metrics of the one sequence followed by the
/// other.
pub proof fn lemma_tally_of_parts(first: Seq<OutcomeModel>, second: Seq<OutcomeModel>)
    ensures
        MetricsModel::tally(first + second) == MetricsModel::tally(first).merge(
            MetricsModel::tally(second),
        ),
    decreases second.len(),
{
    let ours = MetricsModel::tally(first);
    if second.len() == 0 {
        let merged = ours.merge(MetricsModel::empty());
        assert forall|k: SeriesKey| #[trigger] ours.series.contains_key(k) implies merged.series[k]
            == ours.series[k] by {
            lemma_tally_histograms(first, k);
            lemma_none_plus(ours.stats(k));
        }
        assert(merged.series =~= ours.series);
    } else {
        assert((first + second).drop_last() == first + second.drop_last());
        lemma_tally_of_parts(first, second.drop_last());
        lemma_merge_record(ours, MetricsModel::tally(second.drop_last()), second.last());
    }
}

/// It makes no difference which of two metrics is merged into which.
pub proof fn lemma_merge_commutes(ours: MetricsModel, theirs: MetricsModel)
    ensures
        ours.merge(theirs) == theirs.merge(ours),
{
    assert forall|key: SeriesKey|
        ours.stats(key).plus(theirs.stats(key)) == theirs.stats(key).plus(ours.stats(key)) by {
        assert(ours.stats(key).plus(theirs.stats(key)).histogram =~= theirs.stats(key).plus(
            ours.stats(key),
        ).histogram);
    }
    assert(ours.merge(theirs).series =~= theirs.merge(ours).series);
}

/// Reading the metrics twice with nothing recorded in between gives the
/// same metrics: two snapshots of one aggregator, each as `snapshot` hands
/// it out, hold the same counters and the same series in the same order.
pub proof fn lemma_snapshots_agree(
    aggregator: Aggregator,
    first: AggregateMetrics,
    second: AggregateMetrics,
)
    requires
        first@ == aggregator@ && first.listed() == aggregator.listed(),
        second@ == aggregator@ && second.listed() == aggregator.listed(),
    ensures
        first@ == second@,
        first.listed() == second.listed(),
{
}

} // verus!
