//! A bounded sketch of latency samples: buckets of equal or nearby samples, of which the two
//! closest are merged whenever there are too many.

use vstd::prelude::*;

use crate::counts::{add_count, add_counts, counted, summed};
use crate::ranges::{room, RangesView, SampleRanges};
use crate::sorted_map::{ascending, ascending_exists, ascending_map_binds, ascends, SortedMap};

verus! {

/// Approximate latency quantiles retained by a bounded sketch.
#[derive(Debug, Clone, PartialEq, Eq)]
pub struct SwarmActivityLatencySummary {
    /// Total latency observations recorded before downsampling.
    pub sample_count: u64,
    /// Number of retained samples used for the reported quantiles.
    pub retained_samples: usize,
    /// Smallest retained latency sample in milliseconds.
    pub min_ms: u64,
    /// Approximate p50 latency in milliseconds.
    pub p50_ms: u64,
    /// Approximate p95 latency in milliseconds.
    pub p95_ms: u64,
    /// Approximate p99 latency in milliseconds.
    pub p99_ms: u64,
    /// Largest retained latency sample in milliseconds.
    pub max_ms: u64,
    /// Conservative rank-error bound from bounded retention.
    pub rank_error_bound: u64,
}

/// The latency samples of a sketch.
#[derive(Debug, Clone, PartialEq, Eq)]
pub struct BoundedLatencySamples {
    capacity: usize,
    sample_count: u64,
    buckets: SortedMap<u64, u64>,
    min_ms: Option<u64>,
    max_ms: Option<u64>,
    ranges: SampleRanges,
}

/// What [`BoundedLatencySamples`] hold, for keeping them elsewhere.
#[derive(Debug, Clone, PartialEq, Eq)]
pub struct LatencyParts {
    /// Maximum retained buckets.
    pub capacity: usize,
    /// Number of samples.
    pub sample_count: u64,
    /// Number of samples that each bucket stands for.
    pub buckets: SortedMap<u64, u64>,
    /// Smallest sample in milliseconds, retained or not.
    pub min_ms: Option<u64>,
    /// Largest sample in milliseconds, retained or not.
    pub max_ms: Option<u64>,
    /// Ranges in which the samples lie.
    pub ranges: SampleRanges,
}

impl View for LatencyParts {
    type V = LatencyView;

    open spec fn view(&self) -> LatencyView {
        LatencyView {
            capacity: self.capacity,
            sample_count: self.sample_count,
            buckets: self.buckets@,
            min_ms: self.min_ms,
            max_ms: self.max_ms,
            ranges: self.ranges@,
        }
    }
}

/// The model of [`BoundedLatencySamples`]; `buckets` gives the number of samples that each
/// bucket stands for.
#[verifier::ext_equal]
pub struct LatencyView {
    pub capacity: usize,
    pub sample_count: u64,
    pub buckets: Map<u64, u64>,
    pub min_ms: Option<u64>,
    pub max_ms: Option<u64>,
    pub ranges: RangesView,
}

/// The quotient of two numbers, rounded up.
pub open spec fn ceil_div(a: int, b: int) -> int {
    (a + b - 1) / b
}

/// The average of two samples, weighted by their counts and rounded down. The weighted sum stops
/// at the greatest 128-bit number.
pub open spec fn average_ms(left: u64, left_count: u64, right: u64, right_count: u64) -> u64 {
    let total = left_count + right_count;
    let sum = left * left_count + right * right_count;
    if total == 0 {
        left
    } else {
        ((if sum > u128::MAX {
            u128::MAX as int
        } else {
            sum
        }) / total) as u64
    }
}

/// The distance between the bucket at position `at` and the one after it.
pub open spec fn gap(pairs: Seq<(u64, u64)>, at: int) -> int {
    pairs[at + 1].0 - pairs[at].0
}

/// Whether the bucket at position `at` and the one after it lie closest together, and no
/// earlier pair lies as close.
pub open spec fn is_closest(pairs: Seq<(u64, u64)>, at: int) -> bool {
    &&& 0 <= at < pairs.len() - 1
    &&& forall|i: int| 0 <= i < pairs.len() - 1 ==> gap(pairs, at) <= #[trigger] gap(pairs, i)
    &&& forall|i: int| 0 <= i < at ==> gap(pairs, at) < #[trigger] gap(pairs, i)
}

/// The buckets with the one at position `at` and the next replaced by one at their average.
pub open spec fn joined_at(buckets: Map<u64, u64>, at: int) -> Map<u64, u64> {
    let pairs = ascending::<u64, u64>(buckets);
    let (left, left_count) = pairs[at];
    let (right, right_count) = pairs[at + 1];
    counted(
        buckets.remove(left).remove(right),
        average_ms(left, left_count, right, right_count),
        left_count.saturating_add(right_count),
    )
}

/// The buckets with the two closest replaced by one at their average.
pub open spec fn closest_joined(buckets: Map<u64, u64>) -> Map<u64, u64> {
    joined_at(buckets, choose|at: int| #[trigger] is_closest(ascending::<u64, u64>(buckets), at))
}

/// The buckets after the two closest were joined until no more than `capacity` are left.
pub open spec fn compacted(buckets: Map<u64, u64>, capacity: nat) -> Map<u64, u64>
    decreases buckets.len(),
{
    if buckets.dom().finite() && buckets.len() > capacity && buckets.len() >= 2 {
        proof {
            joining_shrinks(buckets);
        }
        compacted(closest_joined(buckets), capacity)
    } else {
        buckets
    }
}

/// Of two or more buckets, two lie closest together.
proof fn closest_exists(pairs: Seq<(u64, u64)>) -> (at: int)
    requires
        pairs.len() >= 2,
    ensures
        is_closest(pairs, at),
    decreases pairs.len(),
{
    if pairs.len() == 2 {
        0
    } else {
        let init = pairs.drop_last();
        let at = closest_exists(init);
        let last = pairs.len() - 2;
        assert forall|i: int| 0 <= i < last implies gap(pairs, at) <= #[trigger] gap(pairs, i) by {
            assert(gap(init, at) <= gap(init, i));
        }
        assert forall|i: int| 0 <= i < at implies gap(pairs, at) < #[trigger] gap(pairs, i) by {
            assert(gap(init, at) < gap(init, i));
        }
        if gap(pairs, last) < gap(pairs, at) {
            last
        } else {
            at
        }
    }
}

/// Only one pair is the first of the closest.
proof fn closest_is_unique(pairs: Seq<(u64, u64)>, a: int, b: int)
    requires
        is_closest(pairs, a),
        is_closest(pairs, b),
    ensures
        a == b,
{
    assert(gap(pairs, a) <= gap(pairs, b));
}

/// What joining the two closest of two or more buckets does: at the position of the first pair
/// that lies closest, and leaving fewer buckets.
pub proof fn joining_shrinks(buckets: Map<u64, u64>)
    requires
        buckets.dom().finite(),
        buckets.len() >= 2,
    ensures
        closest_joined(buckets).dom().finite(),
        1 <= closest_joined(buckets).len() < buckets.len(),
        forall|at: int| #[trigger]
            is_closest(ascending::<u64, u64>(buckets), at) ==> closest_joined(buckets)
                == joined_at(buckets, at),
        exists|at: int| #[trigger] is_closest(ascending::<u64, u64>(buckets), at),
{
    let pairs = ascending::<u64, u64>(buckets);
    ascending_exists::<u64, u64>(buckets);
    ascending_map_binds::<u64, u64>(pairs);
    closest_exists(pairs);
    let at = choose|at: int| #[trigger] is_closest(pairs, at);
    assert forall|other: int| #[trigger] is_closest(pairs, other) implies closest_joined(buckets)
        == joined_at(buckets, other) by {
        closest_is_unique(pairs, at, other);
    }
}

/// The average of two samples fits the type of a sample.
proof fn average_fits(left: u64, left_count: u64, right: u64, right_count: u64)
    requires
        left_count + right_count > 0,
    ensures
        ({
            let total = left_count + right_count;
            let sum = left * left_count + right * right_count;
            let stopped = if sum > u128::MAX { u128::MAX as int } else { sum };
            0 <= stopped / total <= u64::MAX
        }),
{
    let total = left_count + right_count;
    let sum = left * left_count + right * right_count;
    let stopped = if sum > u128::MAX { u128::MAX as int } else { sum };
    assert(left * left_count <= u64::MAX * left_count) by (nonlinear_arith)
        requires
            left <= u64::MAX,
            0 <= left_count,
    ;
    assert(right * right_count <= u64::MAX * right_count) by (nonlinear_arith)
        requires
            right <= u64::MAX,
            0 <= right_count,
    ;
    assert(stopped / total <= u64::MAX) by (nonlinear_arith)
        requires
            total > 0,
            stopped <= u64::MAX * total,
    ;
}

/// The average of two samples, weighted by their counts.
pub fn weighted_average_ms(
    left_sample_ms: u64,
    left_count: u64,
    right_sample_ms: u64,
    right_count: u64,
) -> (r: u64)
    ensures
        r == average_ms(left_sample_ms, left_count, right_sample_ms, right_count),
{
    let total_count: u128 = left_count as u128 + right_count as u128;
    if total_count == 0 {
        return left_sample_ms;
    }
    proof {
        average_fits(left_sample_ms, left_count, right_sample_ms, right_count);
        assert(left_sample_ms * left_count <= u64::MAX * u64::MAX) by (nonlinear_arith)
            requires
                left_sample_ms <= u64::MAX,
                left_count <= u64::MAX,
        ;
        assert(right_sample_ms * right_count <= u64::MAX * u64::MAX) by (nonlinear_arith)
            requires
                right_sample_ms <= u64::MAX,
                right_count <= u64::MAX,
        ;
    }
    let left_total: u128 = left_sample_ms as u128 * left_count as u128;
    let right_total: u128 = right_sample_ms as u128 * right_count as u128;
    let weighted_total: u128 = left_total.saturating_add(right_total);
    (weighted_total / total_count) as u64
}

/// The rank at which a percentile is looked up among `sample_count` samples, counted from one. A
/// product of number and percentage that no count can hold stands as the greatest count.
pub open spec fn target_rank(sample_count: u64, percentile: u8) -> int {
    let product = sample_count * percentile;
    let rank = ceil_div(
        if product > u64::MAX {
            u64::MAX as int
        } else {
            product
        },
        100,
    );
    if rank < 1 {
        1
    } else {
        rank
    }
}

/// The rank of a percentile among `sample_count` samples, counted from one: the percentage of
/// their number, rounded up.
pub open spec fn percentile_rank(sample_count: u64, percentile: u8) -> int {
    let rank = ceil_div(sample_count * percentile, 100);
    if rank < 1 {
        1
    } else {
        rank
    }
}

/// The first bucket at which the counts of the buckets so far reach `rank`.
pub open spec fn bucket_at_rank(pairs: Seq<(u64, u64)>, rank: int) -> Option<u64>
    decreases pairs.len(),
{
    if pairs.len() == 0 {
        None
    } else if pairs[0].1 >= rank {
        Some(pairs[0].0)
    } else {
        bucket_at_rank(pairs.skip(1), rank - pairs[0].1)
    }
}

/// The bucket in which a percentile lies: the one at its rank, or the last where the counts do
/// not reach so far.
pub open spec fn percentile_ms(buckets: Map<u64, u64>, sample_count: u64, percentile: u8) -> u64 {
    let pairs = ascending::<u64, u64>(buckets);
    match bucket_at_rank(pairs, target_rank(sample_count, percentile)) {
        Some(sample_ms) => sample_ms,
        None => if pairs.len() > 0 {
            pairs.last().0
        } else {
            0
        },
    }
}

/// The smaller of a sample and what was smallest so far.
pub open spec fn lesser(a: Option<u64>, b: Option<u64>) -> Option<u64> {
    match (a, b) {
        (Some(x), Some(y)) => Some(if x < y { x } else { y }),
        (Some(x), None) => Some(x),
        (None, y) => y,
    }
}

/// The greater of a sample and what was greatest so far.
pub open spec fn greater(a: Option<u64>, b: Option<u64>) -> Option<u64> {
    match (a, b) {
        (Some(x), Some(y)) => Some(if x > y { x } else { y }),
        (Some(x), None) => Some(x),
        (None, y) => y,
    }
}

impl LatencyView {
    /// No samples, with room for the given number of buckets.
    pub open spec fn empty(capacity: usize) -> LatencyView {
        LatencyView {
            capacity,
            sample_count: 0,
            buckets: Map::empty(),
            min_ms: None,
            max_ms: None,
            ranges: RangesView::empty(),
        }
    }

    /// The samples with one more. Without room for buckets only the number of samples and the
    /// extremes are kept.
    pub open spec fn record(self, sample_ms: u64) -> LatencyView {
        LatencyView {
            capacity: self.capacity,
            sample_count: self.sample_count.saturating_add(1),
            buckets: if self.capacity == 0 {
                self.buckets
            } else {
                compacted(counted(self.buckets, sample_ms, 1), self.capacity as nat)
            },
            min_ms: lesser(self.min_ms, Some(sample_ms)),
            max_ms: greater(self.max_ms, Some(sample_ms)),
            ranges: if self.capacity == 0 {
                self.ranges
            } else {
                self.ranges.record(sample_ms, room(self.capacity))
            },
        }
    }

    /// These samples and those of another sketch together, within the capacity of this one.
    pub open spec fn merge(self, other: LatencyView) -> LatencyView {
        LatencyView {
            capacity: self.capacity,
            sample_count: self.sample_count.saturating_add(other.sample_count),
            buckets: if self.capacity == 0 {
                Map::empty()
            } else {
                compacted(summed(self.buckets, other.buckets), self.capacity as nat)
            },
            min_ms: lesser(self.min_ms, other.min_ms),
            max_ms: greater(self.max_ms, other.max_ms),
            ranges: if self.capacity == 0 {
                RangesView::empty()
            } else {
                self.ranges.merge(other.ranges, room(self.capacity))
            },
        }
    }

    /// How many ranks a percentile may be off.
    pub open spec fn percentile_error(self, percentile: u8) -> int {
        self.ranges.rank_error(
            percentile_ms(self.buckets, self.sample_count, percentile),
            percentile_rank(self.sample_count, percentile),
        )
    }

    /// The number of samples for each retained bucket, rounded up, or more where one of the
    /// reported percentiles may be off by more ranks.
    pub open spec fn rank_error_bound(self) -> u64 {
        let samples = if self.sample_count < 1 { 1 } else { self.sample_count as int };
        let retained = if self.buckets.len() < 1 { 1 } else { self.buckets.len() as int };
        let bound = larger(
            ceil_div(samples, retained),
            larger(
                self.percentile_error(50),
                larger(self.percentile_error(95), self.percentile_error(99)),
            ),
        );
        if bound > u64::MAX {
            u64::MAX
        } else {
            bound as u64
        }
    }

    /// The summary of the samples, where buckets are retained.
    pub open spec fn summary(self) -> Option<SwarmActivityLatencySummary> {
        let pairs = ascending::<u64, u64>(self.buckets);
        if self.buckets.len() > 0 {
            Some(
                SwarmActivityLatencySummary {
                    sample_count: self.sample_count,
                    retained_samples: self.buckets.len() as usize,
                    min_ms: pairs[0].0,
                    p50_ms: percentile_ms(self.buckets, self.sample_count, 50),
                    p95_ms: percentile_ms(self.buckets, self.sample_count, 95),
                    p99_ms: percentile_ms(self.buckets, self.sample_count, 99),
                    max_ms: pairs.last().0,
                    rank_error_bound: self.rank_error_bound(),
                },
            )
        } else {
            None
        }
    }
}

/// The larger of two numbers.
pub open spec fn larger(a: int, b: int) -> int {
    if a > b {
        a
    } else {
        b
    }
}

impl View for BoundedLatencySamples {
    type V = LatencyView;

    closed spec fn view(&self) -> LatencyView {
        LatencyView {
            capacity: self.capacity,
            sample_count: self.sample_count,
            buckets: self.buckets@,
            min_ms: self.min_ms,
            max_ms: self.max_ms,
            ranges: self.ranges@,
        }
    }
}

/// The quotient of two numbers, rounded up.
fn divide_up(a: u64, b: u64) -> (r: u64)
    requires
        b > 0,
    ensures
        r == ceil_div(a as int, b as int),
{
    let quotient: u64 = a / b;
    let rest: u64 = a % b;
    proof {
        let q = quotient as int;
        let m = rest as int;
        assert(a == b * q + m) by (nonlinear_arith)
            requires
                b > 0,
                q == a / b,
                m == a % b,
        ;
        if m == 0 {
            assert((a + b - 1) / (b as int) == q) by (nonlinear_arith)
                requires
                    a == b * q,
                    b > 0,
            ;
        } else {
            assert((a + b - 1) / (b as int) == q + 1) by (nonlinear_arith)
                requires
                    a == b * q + m,
                    0 < m < b,
            ;
            assert(q < u64::MAX) by (nonlinear_arith)
                requires
                    a == b * q + m,
                    0 < m < b,
                    a <= u64::MAX,
                    q >= 0,
            ;
        }
    }
    if rest == 0 {
        quotient
    } else {
        quotient + 1
    }
}

/// The rank at which a percentile is looked up among a number of samples, counted from one.
fn lookup_rank(sample_count: u64, percentile: u8) -> (r: u64)
    ensures
        r == target_rank(sample_count, percentile),
{
    assert(sample_count * percentile <= u64::MAX * 255) by (nonlinear_arith)
        requires
            sample_count <= u64::MAX,
            percentile <= 255,
    ;
    let product: u128 = sample_count as u128 * percentile as u128;
    let scaled: u64 = if product > u64::MAX as u128 {
        u64::MAX
    } else {
        product as u64
    };
    let rank: u64 = divide_up(scaled, 100);
    if rank < 1 {
        1
    } else {
        rank
    }
}

/// The rank of a percentile among a number of samples, counted from one.
fn exact_rank(sample_count: u64, percentile: u8) -> (r: u64)
    requires
        percentile <= 100,
    ensures
        r == percentile_rank(sample_count, percentile),
{
    assert(sample_count * percentile <= u64::MAX * 100) by (nonlinear_arith)
        requires
            sample_count <= u64::MAX,
            percentile <= 100,
    ;
    let rank: u128 = (sample_count as u128 * percentile as u128 + 99) / 100;
    if rank < 1 {
        1
    } else {
        rank as u64
    }
}

/// The bucket in which a percentile lies.
pub fn percentile_bucket(buckets: &SortedMap<u64, u64>, sample_count: u64, percentile: u8) -> (r: u64)
    ensures
        r == percentile_ms(buckets@, sample_count, percentile),
{
    let target: u64 = lookup_rank(sample_count, percentile);
    let n: usize = buckets.len();
    let ghost pairs = buckets.pairs();
    let mut observed: u64 = 0;
    let mut i: usize = 0;
    assert(pairs.skip(0) =~= pairs);
    while i < n
        invariant
            i <= n == pairs.len(),
            pairs == buckets.pairs(),
            pairs == ascending::<u64, u64>(buckets@),
            target == target_rank(sample_count, percentile),
            observed < target,
            bucket_at_rank(pairs, target as int) == bucket_at_rank(
                pairs.skip(i as int),
                target - observed,
            ),
        decreases n - i,
    {
        observed = observed.saturating_add(*buckets.value_at(i));
        if observed >= target {
            return *buckets.key_at(i);
        }
        assert(pairs.skip(i as int).skip(1) =~= pairs.skip(i + 1));
        i += 1;
    }
    if n > 0 {
        *buckets.key_at(n - 1)
    } else {
        0
    }
}

impl BoundedLatencySamples {
    /// What the samples hold.
    #[must_use]
    pub fn parts(&self) -> (r: LatencyParts)
        ensures
            r@ == self@,
    {
        LatencyParts {
            capacity: self.capacity,
            sample_count: self.sample_count,
            buckets: self.buckets.clone(),
            min_ms: self.min_ms,
            max_ms: self.max_ms,
            ranges: self.ranges.clone(),
        }
    }

    /// The samples that hold the given parts.
    #[must_use]
    pub fn from_parts(parts: LatencyParts) -> (r: Self)
        ensures
            r@ == parts@,
    {
        BoundedLatencySamples {
            capacity: parts.capacity,
            sample_count: parts.sample_count,
            buckets: parts.buckets,
            min_ms: parts.min_ms,
            max_ms: parts.max_ms,
            ranges: parts.ranges,
        }
    }

    /// No samples, with room for the given number of buckets.
    pub fn new(capacity: usize) -> (r: Self)
        ensures
            r@ == LatencyView::empty(capacity),
    {
        BoundedLatencySamples {
            capacity,
            sample_count: 0,
            buckets: SortedMap::new(),
            min_ms: None,
            max_ms: None,
            ranges: SampleRanges::new(),
        }
    }

    /// Adds one sample.
    pub fn record(&mut self, sample_ms: u64)
        ensures
            final(self)@ == old(self)@.record(sample_ms),
    {
        self.sample_count = self.sample_count.saturating_add(1);
        self.min_ms = lesser_of(self.min_ms, Some(sample_ms));
        self.max_ms = greater_of(self.max_ms, Some(sample_ms));
        if self.capacity == 0 {
            return;
        }
        self.ranges.record(sample_ms, self.capacity);
        add_count(&mut self.buckets, sample_ms, 1);
        self.compact_to_capacity();
    }

    /// Adds the samples of another sketch.
    pub fn merge(&mut self, other: &Self)
        ensures
            final(self)@ == old(self)@.merge(other@),
    {
        self.sample_count = self.sample_count.saturating_add(other.sample_count);
        self.min_ms = lesser_of(self.min_ms, other.min_ms);
        self.max_ms = greater_of(self.max_ms, other.max_ms);
        if self.capacity == 0 {
            self.buckets = SortedMap::new();
            self.ranges = SampleRanges::new();
            return;
        }
        self.ranges.merge(&other.ranges, self.capacity);
        add_counts(&mut self.buckets, &other.buckets);
        self.compact_to_capacity();
    }

    /// The summary of the samples, where buckets are retained.
    pub fn summary(&self) -> (r: Option<SwarmActivityLatencySummary>)
        ensures
            r == self@.summary(),
    {
        let retained_samples: usize = self.buckets.len();
        if retained_samples == 0 {
            return None;
        }
        Some(
            SwarmActivityLatencySummary {
                sample_count: self.sample_count,
                retained_samples,
                min_ms: *self.buckets.key_at(0),
                p50_ms: percentile_bucket(&self.buckets, self.sample_count, 50),
                p95_ms: percentile_bucket(&self.buckets, self.sample_count, 95),
                p99_ms: percentile_bucket(&self.buckets, self.sample_count, 99),
                max_ms: *self.buckets.key_at(retained_samples - 1),
                rank_error_bound: self.rank_error_bound(),
            },
        )
    }

    /// How many ranks a percentile may be off, up to the greatest count.
    fn percentile_error(&self, percentile: u8) -> (r: u64)
        requires
            percentile <= 100,
        ensures
            r == if self@.percentile_error(percentile) > u64::MAX {
                u64::MAX as int
            } else {
                self@.percentile_error(percentile)
            },
    {
        self.ranges.rank_error(
            percentile_bucket(&self.buckets, self.sample_count, percentile),
            exact_rank(self.sample_count, percentile),
        )
    }

    /// How many ranks the reported percentiles may be off.
    pub fn rank_error_bound(&self) -> (r: u64)
        ensures
            r == self@.rank_error_bound(),
    {
        let len: u64 = self.buckets.len() as u64;
        let retained: u64 = if len < 1 {
            1
        } else {
            len
        };
        let samples: u64 = if self.sample_count < 1 {
            1
        } else {
            self.sample_count
        };
        let mut bound: u64 = divide_up(samples, retained);
        let p50_error: u64 = self.percentile_error(50);
        let p95_error: u64 = self.percentile_error(95);
        let p99_error: u64 = self.percentile_error(99);
        if p50_error > bound {
            bound = p50_error;
        }
        if p95_error > bound {
            bound = p95_error;
        }
        if p99_error > bound {
            bound = p99_error;
        }
        bound
    }

    /// Joins the two closest buckets until there is room for all.
    fn compact_to_capacity(&mut self)
        requires
            old(self)@.capacity > 0,
        ensures
            final(self)@ == (LatencyView {
                buckets: compacted(old(self)@.buckets, old(self)@.capacity as nat),
                ..old(self)@
            }),
    {
        let ghost start = self@;
        while self.buckets.len() > self.capacity
            invariant
                self@.capacity == start.capacity > 0,
                self@ == (LatencyView { buckets: self@.buckets, ..start }),
                compacted(self@.buckets, start.capacity as nat) == compacted(
                    start.buckets,
                    start.capacity as nat,
                ),
            decreases self@.buckets.len(),
        {
            let n: usize = self.buckets.len();
            proof {
                joining_shrinks(self@.buckets);
            }
            self.merge_closest_buckets();
        }
    }

    /// Joins the two closest buckets.
    fn merge_closest_buckets(&mut self)
        requires
            old(self)@.buckets.len() >= 2,
        ensures
            final(self)@ == (LatencyView {
                buckets: closest_joined(old(self)@.buckets),
                ..old(self)@
            }),
    {
        let n: usize = self.buckets.len();
        let ghost pairs = self.buckets.pairs();
        let mut closest: usize = 0;
        let mut closest_gap: u64 = *self.buckets.key_at(1) - *self.buckets.key_at(0);
        let mut i: usize = 1;
        while i < n - 1
            invariant
                1 <= i <= n - 1,
                n == pairs.len(),
                pairs == self.buckets.pairs(),
                ascends::<u64, u64>(pairs),
                is_closest(pairs.take(i + 1), closest as int),
                closest_gap == gap(pairs, closest as int),
            decreases n - i,
        {
            let next_gap: u64 = *self.buckets.key_at(i + 1) - *self.buckets.key_at(i);
            proof {
                let seen = pairs.take(i + 1);
                let now = pairs.take(i + 2);
                assert(forall|j: int| 0 <= j < i ==> gap(seen, j) == #[trigger] gap(now, j));
            }
            if next_gap < closest_gap {
                closest = i;
                closest_gap = next_gap;
            }
            i += 1;
        }
        assert(pairs.take(n as int) =~= pairs);
        let left_sample_ms: u64 = *self.buckets.key_at(closest);
        let left_count: u64 = *self.buckets.value_at(closest);
        let right_sample_ms: u64 = *self.buckets.key_at(closest + 1);
        let right_count: u64 = *self.buckets.value_at(closest + 1);
        proof {
            joining_shrinks(self@.buckets);
        }
        self.buckets.remove(&left_sample_ms);
        self.buckets.remove(&right_sample_ms);
        let merged_sample_ms: u64 = weighted_average_ms(
            left_sample_ms,
            left_count,
            right_sample_ms,
            right_count,
        );
        add_count(
            &mut self.buckets,
            merged_sample_ms,
            left_count.saturating_add(right_count),
        );
    }
}

/// The smaller of two samples, where there are any.
fn lesser_of(a: Option<u64>, b: Option<u64>) -> (r: Option<u64>)
    ensures
        r == lesser(a, b),
{
    match (a, b) {
        (Some(x), Some(y)) => Some(
            if x < y {
                x
            } else {
                y
            },
        ),
        (Some(x), None) => Some(x),
        (None, y) => y,
    }
}

/// The greater of two samples, where there are any.
fn greater_of(a: Option<u64>, b: Option<u64>) -> (r: Option<u64>)
    ensures
        r == greater(a, b),
{
    match (a, b) {
        (Some(x), Some(y)) => Some(
            if x > y {
                x
            } else {
                y
            },
        ),
        (Some(x), None) => Some(x),
        (None, y) => y,
    }
}

} // verus!
