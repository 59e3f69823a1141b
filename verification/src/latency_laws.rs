//! What holds of every latency sketch.

use vstd::prelude::*;

use crate::counts::{
    count_all, count_within_weight, counted, counting_adds_weight, counts_add_up, counts_are_exact,
    parts_are_subsets, pushing_adds_to_set, summed, summing_adds_weight, weight, weight_without,
};
use crate::latency::{
    average_ms, bucket_at_rank, closest_joined, compacted, is_closest, joined_at, joining_shrinks,
    larger, percentile_ms, percentile_rank, target_rank, LatencyView, SwarmActivityLatencySummary,
};
use crate::ordered::in_order;
use crate::range_laws::{
    at_or_below, below, empty_covers_nothing, highs_stand, maybe_below_is_bounded,
    merging_keeps_cover, recording_keeps_cover, samples_by_rank, some_lie_above, some_lie_within,
    thinning_fits, thinning_keeps_highs,
};
use crate::ranges::{highest, room, RangesView};
use crate::sorted_map::{ascending, ascending_exists, ascending_map_binds, ascends};

verus! {

impl LatencyView {
    /// Whether no more buckets and ranges are retained than the capacity admits, no range ends
    /// below where it starts, and the extremes are known where there are buckets.
    pub open spec fn fits(self) -> bool {
        &&& self.buckets.dom().finite()
        &&& self.buckets.len() <= self.capacity
        &&& self.ranges.counts.dom().finite()
        &&& self.ranges.counts.len() <= room(self.capacity)
        &&& highs_stand(self.ranges.highs)
        &&& self.capacity == 0 ==> self.ranges.highs == Map::<u64, u64>::empty()
        &&& self.buckets.len() > 0 ==> self.min_ms is Some && self.max_ms is Some
    }

    /// Whether the buckets account for every sample and lie between the extremes. This is known
    /// as long as the number of samples is below its limit.
    pub open spec fn accounts(self) -> bool {
        self.capacity > 0 && self.sample_count < u64::MAX ==> {
            &&& weight(self.buckets) == self.sample_count
            &&& forall|k: u64| #[trigger]
                self.buckets.contains_key(k) ==> self.min_ms->0 <= k <= self.max_ms->0
        }
    }
}

/// Whether all buckets lie from `low` to `high`.
pub open spec fn lie_within(buckets: Map<u64, u64>, low: u64, high: u64) -> bool {
    forall|k: u64| #[trigger] buckets.contains_key(k) ==> low <= k <= high
}

/// The weighted average of two samples lies between them, while their counts together fit the
/// type of a count.
pub proof fn average_lies_between(left: u64, left_count: u64, right: u64, right_count: u64)
    requires
        left <= right,
        left_count + right_count <= u64::MAX,
    ensures
        left <= average_ms(left, left_count, right, right_count) <= right,
{
    let total = left_count + right_count;
    let sum = left * left_count + right * right_count;
    if total > 0 {
        assert(left * total <= sum <= right * total) by (nonlinear_arith)
            requires
                total == left_count + right_count,
                sum == left * left_count + right * right_count,
                left <= right,
                left_count >= 0,
                right_count >= 0,
        ;
        assert(right * total <= u64::MAX * u64::MAX) by (nonlinear_arith)
            requires
                0 <= right <= u64::MAX,
                0 <= total <= u64::MAX,
        ;
        assert(left <= sum / total <= right) by (nonlinear_arith)
            requires
                left * total <= sum <= right * total,
                total > 0,
        ;
    }
}

/// Joining the two closest of two or more buckets leaves one bucket less, keeps the number of
/// samples, and stays within the bounds of the buckets, while the number of samples fits the
/// type of a count.
pub proof fn joining_keeps_samples(buckets: Map<u64, u64>, low: u64, high: u64)
    requires
        buckets.dom().finite(),
        buckets.len() >= 2,
        weight(buckets) <= u64::MAX,
        lie_within(buckets, low, high),
    ensures
        closest_joined(buckets).dom().finite(),
        closest_joined(buckets).len() == buckets.len() - 1,
        weight(closest_joined(buckets)) == weight(buckets),
        lie_within(closest_joined(buckets), low, high),
{
    joining_shrinks(buckets);
    let pairs = ascending::<u64, u64>(buckets);
    ascending_exists::<u64, u64>(buckets);
    ascending_map_binds::<u64, u64>(pairs);
    let at = choose|at: int| #[trigger] is_closest(pairs, at);
    let (left, left_count) = pairs[at];
    let (right, right_count) = pairs[at + 1];
    let rest = buckets.remove(left).remove(right);
    weight_without(buckets, left);
    weight_without(buckets.remove(left), right);
    average_lies_between(left, left_count, right, right_count);
    let mean = average_ms(left, left_count, right, right_count);
    counting_adds_weight(rest, mean, (left_count + right_count) as u64);
}

/// Compacting leaves no more buckets than there is room for.
pub proof fn compacting_fits(buckets: Map<u64, u64>, capacity: nat)
    requires
        buckets.dom().finite(),
        capacity > 0,
    ensures
        compacted(buckets, capacity).dom().finite(),
        compacted(buckets, capacity).len() <= capacity,
        buckets.len() > 0 ==> compacted(buckets, capacity).len() > 0,
    decreases buckets.len(),
{
    if buckets.len() > capacity && buckets.len() >= 2 {
        joining_shrinks(buckets);
        compacting_fits(closest_joined(buckets), capacity);
    }
}

/// Compacting keeps the number of samples and stays within the bounds of the buckets, and fills
/// the room there is, while the number of samples fits the type of a count.
pub proof fn compacting_keeps_samples(buckets: Map<u64, u64>, capacity: nat, low: u64, high: u64)
    requires
        buckets.dom().finite(),
        capacity > 0,
        weight(buckets) <= u64::MAX,
        lie_within(buckets, low, high),
    ensures
        weight(compacted(buckets, capacity)) == weight(buckets),
        lie_within(compacted(buckets, capacity), low, high),
        compacted(buckets, capacity).len() == if buckets.len() < capacity {
            buckets.len()
        } else {
            capacity
        },
    decreases buckets.len(),
{
    if buckets.len() > capacity && buckets.len() >= 2 {
        joining_keeps_samples(buckets, low, high);
        compacting_keeps_samples(closest_joined(buckets), capacity, low, high);
    }
}

/// A sketch that records a sample keeps within its capacity, counts the sample once and widens
/// its extremes to it.
pub proof fn recording_keeps_sketch(samples: LatencyView, sample_ms: u64)
    requires
        samples.fits(),
    ensures
        samples.record(sample_ms).fits(),
        samples.accounts() ==> samples.record(sample_ms).accounts(),
        samples.record(sample_ms).min_ms->0 <= sample_ms <= samples.record(sample_ms).max_ms->0,
{
    let after = samples.record(sample_ms);
    if samples.capacity > 0 {
        let added = counted(samples.buckets, sample_ms, 1);
        compacting_fits(added, samples.capacity as nat);
        let ranges = RangesView {
            counts: counted(samples.ranges.counts, sample_ms, 1),
            ..samples.ranges
        };
        thinning_fits(ranges, room(samples.capacity));
        thinning_keeps_highs(ranges, room(samples.capacity));
        if samples.accounts() && after.sample_count < u64::MAX {
            count_within_weight(samples.buckets, sample_ms);
            counting_adds_weight(samples.buckets, sample_ms, 1);
            let low = after.min_ms->0;
            let high = after.max_ms->0;
            compacting_keeps_samples(added, samples.capacity as nat, low, high);
        }
    }
}

/// A map with a key has an entry.
proof fn has_entries(m: Map<u64, u64>, key: u64)
    requires
        m.dom().finite(),
        m.contains_key(key),
    ensures
        m.len() > 0,
{
}

/// A sketch into which another is merged keeps within its own capacity; it accounts for the
/// samples of both, where both have room for buckets.
pub proof fn merging_keeps_sketch(a: LatencyView, b: LatencyView)
    requires
        a.fits(),
        b.fits(),
    ensures
        a.merge(b).fits(),
        a.accounts() && b.accounts() && b.capacity > 0 ==> a.merge(b).accounts(),
        a.merge(b).capacity == a.capacity,
{
    let after = a.merge(b);
    if a.capacity > 0 {
        let both = summed(a.buckets, b.buckets);
        assert(both.dom() =~= a.buckets.dom().union(b.buckets.dom()));
        compacting_fits(both, a.capacity as nat);
        if a.buckets.len() == 0 && b.buckets.len() == 0 {
            assert(both.dom() =~= Set::<u64>::empty());
        }
        let counts = summed(a.ranges.counts, b.ranges.counts);
        assert(counts.dom() =~= a.ranges.counts.dom().union(b.ranges.counts.dom()));
        let ranges = RangesView { counts, highs: highest(a.ranges.highs, b.ranges.highs) };
        thinning_fits(ranges, room(a.capacity));
        thinning_keeps_highs(ranges, room(a.capacity));
        if a.accounts() && b.accounts() && b.capacity > 0 && after.sample_count < u64::MAX {
            summing_adds_weight(a.buckets, b.buckets);
            let low = after.min_ms->0;
            let high = after.max_ms->0;
            assert forall|k: u64| #[trigger] both.contains_key(k) implies low <= k <= high by {
                if a.buckets.contains_key(k) {
                    has_entries(a.buckets, k);
                } else {
                    has_entries(b.buckets, k);
                }
            }
            compacting_keeps_samples(both, a.capacity as nat, low, high);
        }
    }
}

/// Merging a sketch of nothing into another, whatever its capacity, changes nothing.
pub proof fn merging_nothing_changes_nothing(samples: LatencyView, capacity: usize)
    requires
        samples.fits(),
    ensures
        samples.merge(LatencyView::empty(capacity)) == samples,
{
    let none = LatencyView::empty(capacity);
    assert(summed(samples.buckets, none.buckets) =~= samples.buckets);
    assert(summed(samples.ranges.counts, none.ranges.counts) =~= samples.ranges.counts);
    assert(highest(samples.ranges.highs, none.ranges.highs) =~= samples.ranges.highs);
    if samples.capacity == 0 {
        assert(samples.buckets =~= Map::empty());
        assert(samples.ranges.counts =~= Map::empty());
    }
    assert(samples.merge(none) =~= samples);
}

/// It makes no difference which of two sketches of the same capacity is merged into the other.
pub proof fn merging_commutes(a: LatencyView, b: LatencyView)
    requires
        a.fits(),
        b.fits(),
        a.capacity == b.capacity,
    ensures
        a.merge(b) == b.merge(a),
{
    assert(summed(a.buckets, b.buckets) =~= summed(b.buckets, a.buckets));
    assert(summed(a.ranges.counts, b.ranges.counts) =~= summed(b.ranges.counts, a.ranges.counts));
    assert(highest(a.ranges.highs, b.ranges.highs) =~= highest(b.ranges.highs, a.ranges.highs));
    assert(a.merge(b) =~= b.merge(a));
}

/// A bucket found by its rank is one of the buckets, and a higher rank finds no smaller bucket.
proof fn ranks_ascend(pairs: Seq<(u64, u64)>, low: int, high: int)
    requires
        ascends::<u64, u64>(pairs),
        low <= high,
    ensures
        bucket_at_rank(pairs, low) is None ==> bucket_at_rank(pairs, high) is None,
        bucket_at_rank(pairs, low) matches Some(k) ==> {
            &&& exists|i: int| 0 <= i < pairs.len() && (#[trigger] pairs[i]).0 == k
            &&& k <= pairs.last().0
            &&& bucket_at_rank(pairs, high) matches Some(other) ==> k <= other
        },
    decreases pairs.len(),
{
    if pairs.len() > 0 {
        let rest = pairs.skip(1);
        if pairs[0].1 >= low {
            if pairs[0].1 < high {
                ranks_ascend(rest, high - pairs[0].1, high - pairs[0].1);
            }
        } else {
            ranks_ascend(rest, low - pairs[0].1, high - pairs[0].1);
        }
    }
}

/// A higher percentile is never smaller than a lower one.
pub proof fn percentiles_ascend(buckets: Map<u64, u64>, sample_count: u64, low: u8, high: u8)
    requires
        buckets.dom().finite(),
        low <= high,
    ensures
        percentile_ms(buckets, sample_count, low) <= percentile_ms(buckets, sample_count, high),
{
    let pairs = ascending::<u64, u64>(buckets);
    ascending_exists::<u64, u64>(buckets);
    assert(sample_count * low <= sample_count * high) by (nonlinear_arith)
        requires
            low <= high,
            sample_count >= 0,
    ;
    ranks_ascend(pairs, target_rank(sample_count, low), target_rank(sample_count, high));
}

/// The percentile of a sketch with buckets is one of its buckets.
pub proof fn percentile_is_a_bucket(buckets: Map<u64, u64>, sample_count: u64, percentile: u8)
    requires
        buckets.dom().finite(),
        buckets.len() > 0,
    ensures
        buckets.contains_key(percentile_ms(buckets, sample_count, percentile)),
{
    let pairs = ascending::<u64, u64>(buckets);
    let rank = target_rank(sample_count, percentile);
    ascending_exists::<u64, u64>(buckets);
    ascending_map_binds::<u64, u64>(pairs);
    ranks_ascend(pairs, rank, rank);
}

/// The figures of a summary ascend: the smallest retained sample, the percentiles, the largest
/// retained sample. The extremes are retained samples, and no retained sample lies outside them.
pub proof fn summary_figures_ascend(samples: LatencyView)
    requires
        samples.fits(),
    ensures
        samples.summary() matches Some(s) ==> {
            &&& s.min_ms <= s.p50_ms <= s.p95_ms <= s.p99_ms <= s.max_ms
            &&& 1 <= s.retained_samples <= samples.capacity
            &&& samples.buckets.contains_key(s.min_ms)
            &&& samples.buckets.contains_key(s.max_ms)
            &&& lie_within(samples.buckets, s.min_ms, s.max_ms)
        },
        samples.summary() is Some <==> samples.buckets.len() > 0,
{
    if samples.buckets.len() > 0 {
        let pairs = ascending::<u64, u64>(samples.buckets);
        ascending_exists::<u64, u64>(samples.buckets);
        ascending_map_binds::<u64, u64>(pairs);
        assert(samples.buckets.contains_key(pairs[0].0));
        assert(samples.buckets.contains_key(pairs[pairs.len() - 1].0));
        percentiles_ascend(samples.buckets, samples.sample_count, 50, 95);
        percentiles_ascend(samples.buckets, samples.sample_count, 95, 99);
        percentile_is_a_bucket(samples.buckets, samples.sample_count, 50);
        percentile_is_a_bucket(samples.buckets, samples.sample_count, 99);
    }
}

/// Whether a sample is the least of some samples.
pub open spec fn is_least(samples: Seq<u64>, least: u64) -> bool {
    &&& samples.contains(least)
    &&& forall|i: int| 0 <= i < samples.len() ==> least <= #[trigger] samples[i]
}

/// Whether a sample is the greatest of some samples.
pub open spec fn is_greatest(samples: Seq<u64>, greatest: u64) -> bool {
    &&& samples.contains(greatest)
    &&& forall|i: int| 0 <= i < samples.len() ==> #[trigger] samples[i] <= greatest
}

/// Whether every bucket stands for a sample or more.
pub open spec fn none_empty(buckets: Map<u64, u64>) -> bool {
    forall|k: u64| #[trigger] buckets.contains_key(k) ==> buckets[k] > 0
}

impl LatencyView {
    /// Whether the sketch is one of the given samples: it counts them all, its buckets stand for
    /// them and lie between the least and the greatest, which it knows, and its ranges cover
    /// them.
    pub open spec fn is_of(self, samples: Seq<u64>) -> bool {
        &&& self.capacity > 0
        &&& self.fits()
        &&& self.sample_count == samples.len()
        &&& weight(self.buckets) == samples.len()
        &&& none_empty(self.buckets)
        &&& self.ranges.covers(samples)
        &&& samples.len() > 0 ==> {
            &&& self.buckets.len() > 0
            &&& self.min_ms is Some && is_least(samples, self.min_ms->0)
            &&& self.max_ms is Some && is_greatest(samples, self.max_ms->0)
            &&& lie_within(self.buckets, self.min_ms->0, self.max_ms->0)
        }
        &&& samples.len() == 0 ==> self.min_ms is None && self.max_ms is None
    }
}

/// Compacting leaves no bucket empty.
pub proof fn compacting_empties_none(buckets: Map<u64, u64>, capacity: nat)
    requires
        buckets.dom().finite(),
        none_empty(buckets),
    ensures
        none_empty(compacted(buckets, capacity)),
    decreases buckets.len(),
{
    if buckets.len() > capacity && buckets.len() >= 2 {
        joining_shrinks(buckets);
        let pairs = ascending::<u64, u64>(buckets);
        ascending_exists::<u64, u64>(buckets);
        ascending_map_binds::<u64, u64>(pairs);
        let at = choose|at: int| #[trigger] is_closest(pairs, at);
        assert(buckets.contains_key(pairs[at].0));
        assert(closest_joined(buckets) == joined_at(buckets, at));
        compacting_empties_none(closest_joined(buckets), capacity);
    }
}

/// The least and the greatest of some samples and one more.
proof fn extremes_with_one_more(samples: Seq<u64>, sample: u64, least: u64, greatest: u64)
    requires
        is_least(samples, least),
        is_greatest(samples, greatest),
    ensures
        is_least(samples.push(sample), if sample < least { sample } else { least }),
        is_greatest(samples.push(sample), if sample > greatest { sample } else { greatest }),
{
    let more = samples.push(sample);
    let low = choose|i: int| 0 <= i < samples.len() && samples[i] == least;
    let high = choose|i: int| 0 <= i < samples.len() && samples[i] == greatest;
    assert(more[low] == least && more[high] == greatest);
    assert(more[samples.len() as int] == sample);
}

/// The least and the greatest of the samples of two lists.
proof fn extremes_of_both(
    a: Seq<u64>,
    b: Seq<u64>,
    least_a: u64,
    least_b: u64,
    greatest_a: u64,
    greatest_b: u64,
)
    requires
        is_least(a, least_a),
        is_least(b, least_b),
        is_greatest(a, greatest_a),
        is_greatest(b, greatest_b),
    ensures
        is_least(a + b, if least_a < least_b { least_a } else { least_b }),
        is_greatest(a + b, if greatest_a > greatest_b { greatest_a } else { greatest_b }),
{
    let all = a + b;
    let low = choose|i: int| 0 <= i < a.len() && a[i] == least_a;
    let high = choose|i: int| 0 <= i < a.len() && a[i] == greatest_a;
    assert(all[low] == least_a && all[high] == greatest_a);
    let low = choose|i: int| 0 <= i < b.len() && b[i] == least_b;
    let high = choose|i: int| 0 <= i < b.len() && b[i] == greatest_b;
    assert(all[a.len() + low] == least_b && all[a.len() + high] == greatest_b);
}

/// An empty sketch is one of no samples.
pub proof fn empty_sketch_is_of_nothing(capacity: usize)
    requires
        capacity > 0,
    ensures
        LatencyView::empty(capacity).is_of(Seq::empty()),
{
    empty_covers_nothing();
}

/// A sketch of some samples that records one more is a sketch of all of them.
pub proof fn recording_keeps_samples(sketch: LatencyView, samples: Seq<u64>, sample_ms: u64)
    requires
        sketch.is_of(samples),
        samples.len() < u64::MAX,
    ensures
        sketch.record(sample_ms).is_of(samples.push(sample_ms)),
{
    let more = samples.push(sample_ms);
    let after = sketch.record(sample_ms);
    let added = counted(sketch.buckets, sample_ms, 1);
    let capacity = sketch.capacity as nat;
    recording_keeps_sketch(sketch, sample_ms);
    recording_keeps_cover(sketch.ranges, samples, sample_ms, room(sketch.capacity));
    compacting_fits(added, capacity);
    count_within_weight(sketch.buckets, sample_ms);
    counting_adds_weight(sketch.buckets, sample_ms, 1);
    assert(added.contains_key(sample_ms));
    if samples.len() > 0 {
        extremes_with_one_more(samples, sample_ms, sketch.min_ms->0, sketch.max_ms->0);
    } else {
        assert(more[0] == sample_ms);
        assert(lie_within(sketch.buckets, sample_ms, sample_ms)) by {
            assert forall|k: u64| #[trigger] sketch.buckets.contains_key(k) implies false by {
                count_within_weight(sketch.buckets, k);
            }
        }
    }
    compacting_keeps_samples(added, capacity, after.min_ms->0, after.max_ms->0);
    compacting_empties_none(added, capacity);
}

/// Two sketches merged are a sketch of the samples of both.
pub proof fn merging_keeps_samples(
    a: LatencyView,
    b: LatencyView,
    samples_a: Seq<u64>,
    samples_b: Seq<u64>,
)
    requires
        a.is_of(samples_a),
        b.is_of(samples_b),
        samples_a.len() + samples_b.len() <= u64::MAX,
    ensures
        a.merge(b).is_of(samples_a + samples_b),
{
    let all = samples_a + samples_b;
    let after = a.merge(b);
    let both = summed(a.buckets, b.buckets);
    let capacity = a.capacity as nat;
    merging_keeps_sketch(a, b);
    merging_keeps_cover(a.ranges, b.ranges, samples_a, samples_b, room(a.capacity));
    assert(both.dom() =~= a.buckets.dom().union(b.buckets.dom()));
    compacting_fits(both, capacity);
    summing_adds_weight(a.buckets, b.buckets);
    vstd::set_lib::lemma_len_subset(a.buckets.dom(), both.dom());
    vstd::set_lib::lemma_len_subset(b.buckets.dom(), both.dom());
    if samples_a.len() > 0 && samples_b.len() > 0 {
        extremes_of_both(
            samples_a,
            samples_b,
            a.min_ms->0,
            b.min_ms->0,
            a.max_ms->0,
            b.max_ms->0,
        );
    } else if samples_a.len() > 0 {
        assert(all =~= samples_a);
    } else {
        assert(all =~= samples_b);
    }
    let (low, high) = (after.min_ms->0, after.max_ms->0);
    assert forall|k: u64| #[trigger] both.contains_key(k) implies low <= k <= high by {
        if a.buckets.contains_key(k) {
            count_within_weight(a.buckets, k);
        }
        if b.buckets.contains_key(k) {
            count_within_weight(b.buckets, k);
        }
    }
    compacting_keeps_samples(both, capacity, low, high);
    compacting_empties_none(both, capacity);
}

/// Recording samples into an empty sketch gives a sketch of them.
pub proof fn recorded_sketch_is_of_samples(capacity: usize, samples: Seq<u64>)
    requires
        capacity > 0,
        samples.len() <= u64::MAX,
    ensures
        LatencyView::empty(capacity).record_all(samples).is_of(samples),
    decreases samples.len(),
{
    if samples.len() == 0 {
        empty_sketch_is_of_nothing(capacity);
        assert(samples =~= Seq::empty());
    } else {
        recorded_sketch_is_of_samples(capacity, samples.drop_last());
        recording_keeps_samples(
            LatencyView::empty(capacity).record_all(samples.drop_last()),
            samples.drop_last(),
            samples.last(),
        );
        assert(samples =~= samples.drop_last().push(samples.last()));
    }
}

/// The rank of a percentile is one of the ranks of the samples. A percentile is looked up at that
/// rank, while the product of number and percentage fits the type of a count.
pub proof fn percentile_rank_is_a_rank(sample_count: u64, percentile: u8)
    requires
        sample_count > 0,
        percentile <= 100,
    ensures
        1 <= percentile_rank(sample_count, percentile) <= sample_count,
        sample_count * percentile <= u64::MAX ==> target_rank(sample_count, percentile)
            == percentile_rank(sample_count, percentile),
{
    let product = sample_count * percentile;
    assert(0 <= product <= sample_count * 100) by (nonlinear_arith)
        requires
            product == sample_count * percentile,
            0 <= percentile <= 100,
            sample_count >= 0,
    ;
}

/// Whether a reported percentile lies between the samples that stand so many ranks below and
/// above its rank, in the order of the samples, as the rank error bound says.
pub open spec fn is_within_bound(
    summary: SwarmActivityLatencySummary,
    percentile: u8,
    sorted: Seq<u64>,
) -> bool {
    let value = if percentile == 50 {
        summary.p50_ms
    } else if percentile == 95 {
        summary.p95_ms
    } else {
        summary.p99_ms
    };
    let n = sorted.len() as int;
    let rank = (n * percentile + 99) / 100;
    let down = larger(1, rank - summary.rank_error_bound);
    let up = if rank + summary.rank_error_bound < n {
        rank + summary.rank_error_bound
    } else {
        n
    };
    sorted[down - 1] <= value <= sorted[up - 1]
}

/// The rank error bound is conservative: no reported percentile is off its rank by more. The
/// sketch may have recorded the samples itself or have had sketches of them merged into it.
pub proof fn percentiles_are_within_bound(
    sketch: LatencyView,
    samples: Seq<u64>,
    sorted: Seq<u64>,
    percentile: u8,
)
    requires
        sketch.is_of(samples),
        samples.len() > 0,
        in_order::<u64>(sorted),
        sorted.to_multiset() == samples.to_multiset(),
        percentile == 50 || percentile == 95 || percentile == 99,
    ensures
        sketch.summary() is Some,
        sorted.len() == samples.len(),
        is_within_bound(sketch.summary()->0, percentile, sorted),
{
    let n = samples.len() as int;
    let bound = sketch.rank_error_bound();
    let value = percentile_ms(sketch.buckets, sketch.sample_count, percentile);
    let rank = percentile_rank(sketch.sample_count, percentile);
    percentile_rank_is_a_rank(sketch.sample_count, percentile);
    percentile_is_a_bucket(sketch.buckets, sketch.sample_count, percentile);
    let (low, high) = (sketch.min_ms->0, sketch.max_ms->0);
    some_lie_within(samples, low, value);
    some_lie_above(samples, high, value);
    assert(sketch.ranges.surely_within(value) <= at_or_below(samples, value));
    assert(below(samples, value) <= sketch.ranges.maybe_below(value));
    maybe_below_is_bounded(sketch.ranges, samples, value);
    assert(sketch.percentile_error(percentile) <= n);
    assert(bound >= sketch.percentile_error(percentile) || bound == u64::MAX);
    let down = larger(1, rank - bound);
    let up = if rank + bound < n { rank + bound } else { n };
    samples_by_rank(samples, sorted, value, down);
    samples_by_rank(samples, sorted, value, up);
}

/// The rank error bound of a sketch that recorded any samples, as many as a count can hold, is
/// conservative.
pub proof fn recorded_percentiles_are_within_bound(
    capacity: usize,
    samples: Seq<u64>,
    sorted: Seq<u64>,
    percentile: u8,
)
    requires
        capacity > 0,
        0 < samples.len() <= u64::MAX,
        in_order::<u64>(sorted),
        sorted.to_multiset() == samples.to_multiset(),
        percentile == 50 || percentile == 95 || percentile == 99,
    ensures
        LatencyView::empty(capacity).record_all(samples).summary() is Some,
        is_within_bound(
            LatencyView::empty(capacity).record_all(samples).summary()->0,
            percentile,
            sorted,
        ),
{
    let sketch = LatencyView::empty(capacity).record_all(samples);
    recorded_sketch_is_of_samples(capacity, samples);
    percentiles_are_within_bound(sketch, samples, sorted, percentile);
}

impl LatencyView {
    /// The sketch with some more samples, one after the other.
    pub open spec fn record_all(self, samples: Seq<u64>) -> LatencyView
        decreases samples.len(),
    {
        if samples.len() == 0 {
            self
        } else {
            self.record_all(samples.drop_last()).record(samples.last())
        }
    }
}

/// As long as a sketch has room for all different samples, its buckets are the samples, each
/// counted as often as it was recorded, and so are its ranges.
pub proof fn samples_within_capacity_are_exact(capacity: usize, samples: Seq<u64>)
    requires
        samples.to_set().len() <= capacity,
    ensures
        ({
            let sketch = LatencyView::empty(capacity).record_all(samples);
            &&& sketch.capacity == capacity
            &&& sketch.buckets == count_all(samples)
            &&& sketch.ranges.counts == count_all(samples)
            &&& sketch.ranges.highs == Map::<u64, u64>::empty()
        }),
    decreases samples.len(),
{
    samples.lemma_cardinality_of_set();
    if samples.len() > 0 {
        let init = samples.drop_last();
        let last = samples.last();
        init.lemma_cardinality_of_set();
        assert(samples =~= init.push(last));
        pushing_adds_to_set(init, last);
        vstd::set_lib::lemma_len_subset(init.to_set(), samples.to_set());
        samples_within_capacity_are_exact(capacity, init);
        counts_are_exact(samples, last);
        if samples.to_set().len() == 0 {
            assert(samples.to_set().contains(last));
        }
    }
}

/// As long as two sketches have room for all different samples of both, one merged into the
/// other has the samples of both as its buckets, each counted as often as it was recorded, and so
/// have its ranges.
pub proof fn samples_merged_within_capacity_are_exact(
    capacity: usize,
    samples: Seq<u64>,
    other_capacity: usize,
    other_samples: Seq<u64>,
)
    requires
        (samples + other_samples).to_set().len() <= capacity,
        (samples + other_samples).to_set().len() <= other_capacity,
    ensures
        ({
            let other = LatencyView::empty(other_capacity).record_all(other_samples);
            let merged = LatencyView::empty(capacity).record_all(samples).merge(other);
            let all = samples + other_samples;
            &&& merged.capacity == capacity
            &&& merged.buckets == count_all(all)
            &&& merged.ranges.counts == count_all(all)
            &&& merged.ranges.highs == Map::<u64, u64>::empty()
        }),
{
    let all = samples + other_samples;
    all.lemma_cardinality_of_set();
    parts_are_subsets(samples, other_samples);
    vstd::set_lib::lemma_len_subset(samples.to_set(), all.to_set());
    vstd::set_lib::lemma_len_subset(other_samples.to_set(), all.to_set());
    samples_within_capacity_are_exact(capacity, samples);
    samples_within_capacity_are_exact(other_capacity, other_samples);
    counts_add_up(samples, other_samples);
    if all.len() > 0 {
        assert(all.to_set().contains(all[0]));
        counts_are_exact(all, all[0]);
    } else {
        assert(count_all(samples) =~= Map::empty());
        assert(count_all(other_samples) =~= Map::empty());
    }
    assert(highest(Map::empty(), Map::empty()) =~= Map::<u64, u64>::empty());
}

} // verus!
