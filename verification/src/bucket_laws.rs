//! What the buckets of every latency sketch make of its samples.

use vstd::prelude::*;

use crate::counts::{
    count_all, count_within_weight, counted, counting_adds_weight, counts_are_exact,
    pushing_adds_to_set, summed, summing_adds_weight, weight, weight_without,
};
use crate::latency::{
    average_ms, bucket_at_rank, ceil_div, closest_joined, compacted, gap, is_closest, joined_at,
    joining_shrinks, percentile_ms, target_rank, LatencyView,
};
use crate::latency_laws::{
    average_lies_between, compacting_keeps_samples, lie_within, percentile_rank_is_a_rank,
    recorded_sketch_is_of_samples, samples_within_capacity_are_exact, summary_figures_ascend,
};
use crate::ordered::{keeping_counts, Ordered};
use crate::range_laws::{
    at_or_below, below, maybe_below_is_bounded, samples_by_rank, thinning_fits,
};
use crate::ranges::{room, RangesView};
use crate::sorted_map::{ascending, ascending_exists, ascending_map_binds, ascends};

verus! {

/// Whether two keys are the closest of all, and no other two that are as close lie lower.
pub open spec fn are_closest(keys: Set<u64>, left: u64, right: u64) -> bool {
    &&& keys.contains(left)
    &&& keys.contains(right)
    &&& left < right
    &&& forall|a: u64, b: u64| #[trigger]
        keys.contains(a) && #[trigger] keys.contains(b) && a < b ==> {
            &&& right - left <= b - a
            &&& b - a == right - left ==> left <= a
        }
}

/// Whether two buckets were made one, at the average of their samples, rounded down, with the
/// samples of both; all other buckets are as they were.
pub open spec fn makes_one(
    all: Map<u64, u64>,
    after: Map<u64, u64>,
    left: u64,
    right: u64,
    mean: u64,
) -> bool {
    let samples = all[left] + all[right];
    let sum = left * all[left] + right * all[right];
    &&& left <= mean <= right
    &&& mean * samples <= sum < (mean + 1) * samples
    &&& after.contains_key(mean) && after[mean] == samples
    &&& forall|k: u64|
        k != left && k != right && k != mean ==> (#[trigger] after.contains_key(k)
            == all.contains_key(k)) && (all.contains_key(k) ==> after[k] == all[k])
    &&& left != mean ==> !after.contains_key(left)
    &&& right != mean ==> !after.contains_key(right)
}

/// Where one bucket more was recorded than there is room for, the two closest are made one, at
/// the average of their samples.
pub proof fn closest_buckets_are_made_one(all: Map<u64, u64>, capacity: nat) -> (r: (
    u64,
    u64,
    u64,
))
    requires
        all.dom().finite(),
        capacity > 0,
        all.len() == capacity + 1,
        weight(all) <= u64::MAX,
        forall|k: u64| #[trigger] all.contains_key(k) ==> all[k] > 0,
    ensures
        are_closest(all.dom(), r.0, r.1),
        makes_one(all, compacted(all, capacity), r.0, r.1, r.2),
{
    joining_shrinks(all);
    let pairs = ascending::<u64, u64>(all);
    ascending_exists::<u64, u64>(all);
    ascending_map_binds::<u64, u64>(pairs);
    let at = choose|at: int| #[trigger] is_closest(pairs, at);
    let (left, left_count) = pairs[at];
    let (right, right_count) = pairs[at + 1];
    assert(all.contains_key(left) && all[left] == left_count);
    assert(all.contains_key(right) && all[right] == right_count);
    assert forall|a: u64, b: u64| #[trigger]
        all.dom().contains(a) && #[trigger] all.dom().contains(b) && a < b implies {
        &&& right - left <= b - a
        &&& b - a == right - left ==> left <= a
    } by {
        assert(all.contains_key(a) && all.contains_key(b));
        let i = choose|i: int| 0 <= i < pairs.len() && (#[trigger] pairs[i]).0 == a;
        let j = choose|j: int| 0 <= j < pairs.len() && (#[trigger] pairs[j]).0 == b;
        assert(i < j) by {
            if j < i {
                assert(<u64 as Ordered>::precedes(pairs[j].0, pairs[i].0));
            }
        }
        assert(pairs[i + 1].0 <= b) by {
            if i + 1 < j {
                assert(<u64 as Ordered>::precedes(pairs[i + 1].0, pairs[j].0));
            }
        }
        assert(gap(pairs, at) <= gap(pairs, i));
        if b - a == right - left {
            assert(i >= at);
            if at < i {
                assert(<u64 as Ordered>::precedes(pairs[at].0, pairs[i].0));
            }
        }
    }
    let rest = all.remove(left).remove(right);
    weight_without(all, left);
    weight_without(all.remove(left), right);
    average_lies_between(left, left_count, right, right_count);
    let mean = average_ms(left, left_count, right, right_count);
    let after = joined_at(all, at);
    assert(closest_joined(all) == after);
    assert(compacted(after, capacity) == after);
    assert(compacted(all, capacity) == compacted(after, capacity));
    let samples = left_count + right_count;
    let sum = left * left_count + right * right_count;
    assert(0 <= sum <= u64::MAX * u64::MAX) by (nonlinear_arith)
        requires
            sum == left * left_count + right * right_count,
            0 <= left <= u64::MAX,
            0 <= right <= u64::MAX,
            0 <= left_count,
            0 <= right_count,
            left_count + right_count <= u64::MAX,
    ;
    assert(0 <= sum / samples <= u64::MAX) by (nonlinear_arith)
        requires
            samples > 0,
            samples == left_count + right_count,
            sum == left * left_count + right * right_count,
            0 <= left <= u64::MAX,
            0 <= right <= u64::MAX,
            0 <= left_count,
            0 <= right_count,
    ;
    assert(mean as int * samples <= sum && sum < (mean as int + 1) * samples) by (nonlinear_arith)
        requires
            samples > 0,
            sum >= 0,
            mean as int == sum / samples,
    ;
    assert(!rest.contains_key(mean)) by {
        if rest.contains_key(mean) {
            assert(all.dom().contains(mean) && mean != left && mean != right);
            assert(all.dom().contains(left));
        }
    }
    (left, right, mean)
}

/// The average of two buckets is that of all their samples, rounded down; without samples it is
/// the left bucket.
pub proof fn averages_are_weighted(left: u64, left_count: u64, right: u64, right_count: u64)
    ensures
        left_count == 0 && right_count == 0 ==> average_ms(left, left_count, right, right_count)
            == left,
        ({
            let samples = left_count + right_count;
            let sum = left * left_count + right * right_count;
            let mean = average_ms(left, left_count, right, right_count);
            samples > 0 && sum <= u128::MAX ==> mean * samples <= sum < (mean + 1) * samples
        }),
{
    let samples = left_count + right_count;
    let sum = left * left_count + right * right_count;
    let mean = average_ms(left, left_count, right, right_count);
    if samples > 0 && sum <= u128::MAX {
        assert(0 <= sum) by (nonlinear_arith)
            requires
                sum == left * left_count + right * right_count,
                0 <= left,
                0 <= right,
                0 <= left_count,
                0 <= right_count,
        ;
        assert(0 <= sum / samples <= u64::MAX) by (nonlinear_arith)
            requires
                samples > 0,
                samples == left_count + right_count,
                sum == left * left_count + right * right_count,
                0 <= left <= u64::MAX,
                0 <= right <= u64::MAX,
                0 <= left_count,
                0 <= right_count,
        ;
        assert(mean as int * samples <= sum && sum < (mean as int + 1) * samples)
            by (nonlinear_arith)
            requires
                samples > 0,
                sum >= 0,
                mean as int == sum / samples,
        ;
    }
}

/// A sketch that records a sample retains as many buckets as there is room for, the sample among
/// those that there are; while there is room, each as it was.
pub proof fn recording_fills_the_room(sketch: LatencyView, samples: Seq<u64>, sample_ms: u64)
    requires
        sketch.is_of(samples),
        samples.len() < u64::MAX,
    ensures
        ({
            let keys = sketch.buckets.dom().insert(sample_ms);
            let after = sketch.record(sample_ms).buckets;
            &&& after.len() == if keys.len() < sketch.capacity {
                keys.len()
            } else {
                sketch.capacity as nat
            }
            &&& keys.len() <= sketch.capacity ==> after.dom() == keys && (forall|k: u64| #[trigger]
                keys.contains(k) && k != sample_ms ==> after[k] == sketch.buckets[k]) && after[sample_ms]
                == if sketch.buckets.contains_key(sample_ms) {
                sketch.buckets[sample_ms] + 1
            } else {
                1
            }
        }),
{
    let added = counted(sketch.buckets, sample_ms, 1);
    count_within_weight(sketch.buckets, sample_ms);
    counting_adds_weight(sketch.buckets, sample_ms, 1);
    assert(added.dom() =~= sketch.buckets.dom().insert(sample_ms));
    assert(lie_within(added, 0, u64::MAX));
    compacting_keeps_samples(added, sketch.capacity as nat, 0, u64::MAX);
}

/// A sketch into which another is merged retains as many buckets as there is room for of those
/// of both; while there is room, each with the sum of its samples.
pub proof fn merging_fills_the_room(
    a: LatencyView,
    b: LatencyView,
    samples_a: Seq<u64>,
    samples_b: Seq<u64>,
)
    requires
        a.is_of(samples_a),
        b.is_of(samples_b),
        samples_a.len() + samples_b.len() <= u64::MAX,
    ensures
        ({
            let keys = a.buckets.dom().union(b.buckets.dom());
            let after = a.merge(b).buckets;
            &&& after.len() == if keys.len() < a.capacity {
                keys.len()
            } else {
                a.capacity as nat
            }
            &&& keys.len() <= a.capacity ==> after.dom() == keys && (forall|k: u64| #[trigger]
                keys.contains(k) ==> after[k] == (if a.buckets.contains_key(k) {
                    a.buckets[k] as int
                } else {
                    0
                }) + (if b.buckets.contains_key(k) {
                    b.buckets[k] as int
                } else {
                    0
                }))
        }),
{
    let both = summed(a.buckets, b.buckets);
    summing_adds_weight(a.buckets, b.buckets);
    assert(both.dom() =~= a.buckets.dom().union(b.buckets.dom()));
    assert(lie_within(both, 0, u64::MAX));
    compacting_keeps_samples(both, a.capacity as nat, 0, u64::MAX);
    assert forall|k: u64| #[trigger] both.contains_key(k) implies both[k] == (
    if a.buckets.contains_key(k) {
        a.buckets[k] as int
    } else {
        0
    }) + (if b.buckets.contains_key(k) {
        b.buckets[k] as int
    } else {
        0
    }) by {
        count_within_weight(a.buckets, k);
        count_within_weight(b.buckets, k);
    }
}

/// A sketch without room for one more bucket that records a sample of its own makes the two
/// closest buckets one, the new one among them, at the average of their samples.
pub proof fn recording_makes_the_closest_one(
    sketch: LatencyView,
    samples: Seq<u64>,
    sample_ms: u64,
) -> (r: (u64, u64, u64))
    requires
        sketch.is_of(samples),
        samples.len() < u64::MAX,
        sketch.buckets.len() == sketch.capacity,
        !sketch.buckets.contains_key(sample_ms),
    ensures
        are_closest(sketch.buckets.dom().insert(sample_ms), r.0, r.1),
        makes_one(
            sketch.buckets.insert(sample_ms, 1),
            sketch.record(sample_ms).buckets,
            r.0,
            r.1,
            r.2,
        ),
{
    let added = counted(sketch.buckets, sample_ms, 1);
    counting_adds_weight(sketch.buckets, sample_ms, 1);
    assert(added =~= sketch.buckets.insert(sample_ms, 1));
    assert(added.dom() =~= sketch.buckets.dom().insert(sample_ms));
    closest_buckets_are_made_one(added, sketch.capacity as nat)
}

/// Samples are those of one value and the others.
proof fn one_value_apart(samples: Seq<u64>, value: u64, keep: spec_fn(u64) -> bool)
    ensures
        samples.filter(keep).len() == samples.filter(|s: u64| s != value).filter(keep).len() + if keep(
            value,
        ) {
            samples.to_multiset().count(value)
        } else {
            0
        },
        samples.len() == samples.filter(|s: u64| s != value).len() + samples.to_multiset().count(
            value,
        ),
    decreases samples.len(),
{
    broadcast use vstd::seq_lib::group_to_multiset_ensures;

    reveal(Seq::filter);
    if samples.len() > 0 {
        let init = samples.drop_last();
        let last = samples.last();
        let others = |s: u64| s != value;
        one_value_apart(init, value, keep);
        assert(samples =~= init.push(last));
        if last != value {
            assert(init.filter(others).push(last).drop_last() =~= init.filter(others));
        }
    } else {
        assert(samples =~= Seq::empty());
        assert(Seq::<u64>::empty().to_multiset().count(value) == 0);
    }
}

/// The bucket at a rank, where every sample has its own: fewer samples than the rank lie below
/// it, and as many as the rank lie no higher.
proof fn own_bucket_has_its_rank(pairs: Seq<(u64, u64)>, samples: Seq<u64>, rank: int)
    requires
        ascends::<u64, u64>(pairs),
        forall|i: int|
            0 <= i < pairs.len() ==> (#[trigger] pairs[i]).1 == samples.to_multiset().count(
                pairs[i].0,
            ),
        forall|s: u64| #[trigger]
            samples.to_multiset().count(s) > 0 ==> exists|i: int|
                0 <= i < pairs.len() && (#[trigger] pairs[i]).0 == s,
        1 <= rank <= samples.len(),
    ensures
        bucket_at_rank(pairs, rank) matches Some(p) && below(samples, p) < rank <= at_or_below(
            samples,
            p,
        ),
    decreases pairs.len(),
{
    broadcast use vstd::seq_lib::group_to_multiset_ensures;

    assert(samples.to_multiset().count(samples[0]) > 0);
    let (first, count) = pairs[0];
    let others = |s: u64| s != first;
    let rest = samples.filter(others);
    assert forall|s: u64| #[trigger] samples.to_multiset().count(s) > 0 implies first <= s by {
        let i = choose|i: int| 0 <= i < pairs.len() && (#[trigger] pairs[i]).0 == s;
        if i > 0 {
            assert(<u64 as Ordered>::precedes(pairs[0].0, pairs[i].0));
        }
    }
    if count >= rank {
        let none = |s: u64| s < first;
        let within = |s: u64| s <= first;
        assert forall|s: u64| #[trigger] samples.filter(none).to_multiset().count(s) == 0 by {
            keeping_counts(samples, none, s);
        }
        if samples.filter(none).len() > 0 {
            let s = samples.filter(none)[0];
            assert(samples.filter(none).to_multiset().count(s) > 0);
        }
        one_value_apart(samples, first, within);
    } else {
        let tail = pairs.skip(1);
        one_value_apart(samples, first, |s: u64| true);
        assert forall|i: int| 0 <= i < tail.len() implies (#[trigger] tail[i]).1
            == rest.to_multiset().count(tail[i].0) by {
            assert(tail[i] == pairs[i + 1]);
            assert(<u64 as Ordered>::precedes(pairs[0].0, pairs[i + 1].0));
            keeping_counts(samples, others, tail[i].0);
        }
        assert forall|s: u64| #[trigger] rest.to_multiset().count(s) > 0 implies exists|i: int|
            0 <= i < tail.len() && (#[trigger] tail[i]).0 == s by {
            keeping_counts(samples, others, s);
            let i = choose|i: int| 0 <= i < pairs.len() && (#[trigger] pairs[i]).0 == s;
            assert(tail[i - 1].0 == s);
        }
        assert forall|i: int, j: int| 0 <= i < j < tail.len() implies <u64 as Ordered>::precedes(
            (#[trigger] tail[i]).0,
            (#[trigger] tail[j]).0,
        ) by {
            assert(tail[i] == pairs[i + 1] && tail[j] == pairs[j + 1]);
        }
        own_bucket_has_its_rank(tail, rest, rank - count);
        let p = bucket_at_rank(tail, rank - count)->0;
        assert(first < p) by {
            if p <= first {
                let under = |s: u64| s <= p;
                assert forall|s: u64| #[trigger]
                    rest.filter(under).to_multiset().count(s) == 0 by {
                    keeping_counts(rest, under, s);
                    keeping_counts(samples, others, s);
                }
                if rest.filter(under).len() > 0 {
                    let s = rest.filter(under)[0];
                    assert(rest.filter(under).to_multiset().count(s) > 0);
                }
            }
        }
        one_value_apart(samples, first, |s: u64| s < p);
        one_value_apart(samples, first, |s: u64| s <= p);
    }
}

/// Ranges of single samples tell exactly how many samples lie below a value and no higher.
proof fn single_ranges_are_exact(samples: Seq<u64>, value: u64)
    requires
        samples.len() <= u64::MAX,
    ensures
        ({
            let ranges = RangesView { counts: count_all(samples), highs: Map::empty() };
            &&& ranges.surely_within(value) == at_or_below(samples, value)
            &&& ranges.maybe_below(value) == below(samples, value)
        }),
    decreases samples.len(),
{
    broadcast use vstd::seq_lib::group_to_multiset_ensures;

    reveal(Seq::filter);
    let ranges = RangesView { counts: count_all(samples), highs: Map::empty() };
    if samples.len() == 0 {
        assert(ranges.sure(value) =~= Map::empty());
        assert(ranges.possible(value) =~= Map::empty());
    } else {
        let init = samples.drop_last();
        let last = samples.last();
        let before = RangesView { counts: count_all(init), highs: Map::empty() };
        single_ranges_are_exact(init, value);
        counts_are_exact(init, last);
        assert(init.to_multiset().len() == init.len());
        assert(init.to_multiset().count(last) <= init.to_multiset().len());
        let (now, was) = (ranges.sure(value), before.sure(value));
        assert(now.dom() =~= ranges.counts.dom() && was.dom() =~= before.counts.dom());
        weight_without(now, last);
        assert(now.remove(last) =~= was.remove(last));
        if before.counts.contains_key(last) {
            weight_without(was, last);
        } else {
            assert(was.remove(last) =~= was);
        }
        let (now, was) = (ranges.possible(value), before.possible(value));
        assert(now.dom() =~= ranges.counts.dom() && was.dom() =~= before.counts.dom());
        weight_without(now, last);
        assert(now.remove(last) =~= was.remove(last));
        if before.counts.contains_key(last) {
            weight_without(was, last);
        } else {
            assert(was.remove(last) =~= was);
        }
    }
}

/// As long as there is room for all different samples, the percentiles are exact: each is the
/// sample of its rank, in the order of the samples.
pub proof fn percentile_is_the_sample_of_its_rank(
    capacity: usize,
    samples: Seq<u64>,
    sorted: Seq<u64>,
    percentile: u8,
    rank: int,
)
    requires
        capacity > 0,
        samples.to_set().len() <= capacity,
        0 < samples.len(),
        samples.len() * percentile <= u64::MAX,
        samples.len() <= u64::MAX,
        forall|i: int, j: int| 0 <= i < j < sorted.len() ==> sorted[i] <= sorted[j],
        sorted.to_multiset() == samples.to_multiset(),
        1 <= percentile <= 100,
        100 * (rank - 1) < samples.len() * percentile <= 100 * rank,
    ensures
        sorted.len() == samples.len(),
        1 <= rank <= samples.len(),
        ({
            let sketch = LatencyView::empty(capacity).record_all(samples);
            &&& percentile_ms(sketch.buckets, sketch.sample_count, percentile) == sorted[rank - 1]
            &&& sketch.percentile_error(percentile) == 0
        }),
{
    let sketch = LatencyView::empty(capacity).record_all(samples);
    samples_within_capacity_are_exact(capacity, samples);
    recorded_sketch_is_of_samples(capacity, samples);
    percentile_rank_is_a_rank(sketch.sample_count, percentile);
    let product = samples.len() * percentile;
    assert(sketch.sample_count * percentile == product);
    assert(product >= 1) by (nonlinear_arith)
        requires
            product == samples.len() * percentile,
            samples.len() >= 1,
            percentile >= 1,
    ;
    assert((product + 99) / 100 == rank);
    assert(target_rank(sketch.sample_count, percentile) == rank);
    let pairs = ascending::<u64, u64>(sketch.buckets);
    ascending_exists::<u64, u64>(sketch.buckets);
    ascending_map_binds::<u64, u64>(pairs);
    broadcast use vstd::seq_lib::group_to_multiset_ensures;

    assert(samples.to_multiset().len() == samples.len());
    assert forall|i: int| 0 <= i < pairs.len() implies (#[trigger] pairs[i]).1
        == samples.to_multiset().count(pairs[i].0) by {
        counts_are_exact(samples, pairs[i].0);
        assert(samples.to_multiset().count(pairs[i].0) <= samples.to_multiset().len());
        assert(sketch.buckets[pairs[i].0] == pairs[i].1);
    }
    assert forall|s: u64| #[trigger] samples.to_multiset().count(s) > 0 implies exists|i: int|
        0 <= i < pairs.len() && (#[trigger] pairs[i]).0 == s by {
        counts_are_exact(samples, s);
        assert(samples.to_multiset().count(s) <= samples.to_multiset().len());
        assert(sketch.buckets.contains_key(s));
    }
    own_bucket_has_its_rank(pairs, samples, rank);
    let p = bucket_at_rank(pairs, rank)->0;
    samples_by_rank(samples, sorted, p, rank);
    single_ranges_are_exact(samples, p);
    assert(sketch.ranges == RangesView { counts: count_all(samples), highs: Map::empty() });
}

/// As long as there is room for all different samples, a summary is exact: as many samples are
/// retained as there are different ones, the extremes are the least and the greatest, each
/// percentile is the sample of its rank in the order of the samples, and the bound is the number
/// of samples for each retained one, rounded up.
pub proof fn summaries_with_room_are_exact(
    capacity: usize,
    samples: Seq<u64>,
    sorted: Seq<u64>,
    ranks: (int, int, int),
)
    requires
        capacity > 0,
        samples.to_set().len() <= capacity,
        0 < samples.len(),
        samples.len() * 99 <= u64::MAX,
        forall|i: int, j: int| 0 <= i < j < sorted.len() ==> sorted[i] <= sorted[j],
        sorted.to_multiset() == samples.to_multiset(),
        100 * (ranks.0 - 1) < samples.len() * 50 <= 100 * ranks.0,
        100 * (ranks.1 - 1) < samples.len() * 95 <= 100 * ranks.1,
        100 * (ranks.2 - 1) < samples.len() * 99 <= 100 * ranks.2,
    ensures
        sorted.len() == samples.len(),
        LatencyView::empty(capacity).record_all(samples).summary() matches Some(summary) && {
            &&& summary.sample_count == samples.len()
            &&& summary.retained_samples == samples.to_set().len()
            &&& summary.min_ms == sorted[0]
            &&& summary.max_ms == sorted[sorted.len() - 1]
            &&& summary.p50_ms == sorted[ranks.0 - 1]
            &&& summary.p95_ms == sorted[ranks.1 - 1]
            &&& summary.p99_ms == sorted[ranks.2 - 1]
            &&& (summary.rank_error_bound - 1) * summary.retained_samples < samples.len()
                <= summary.rank_error_bound * summary.retained_samples
        },
{
    broadcast use vstd::seq_lib::group_to_multiset_ensures;

    let sketch = LatencyView::empty(capacity).record_all(samples);
    percentile_is_the_sample_of_its_rank(capacity, samples, sorted, 50, ranks.0);
    percentile_is_the_sample_of_its_rank(capacity, samples, sorted, 95, ranks.1);
    percentile_is_the_sample_of_its_rank(capacity, samples, sorted, 99, ranks.2);
    samples_within_capacity_are_exact(capacity, samples);
    recorded_sketch_is_of_samples(capacity, samples);
    summary_figures_ascend(sketch);
    counts_are_exact(samples, samples[0]);
    let summary = sketch.summary()->0;
    let (n, retained) = (samples.len() as int, sketch.buckets.len() as int);
    assert(sketch.rank_error_bound() == ceil_div(n, retained)) by {
        assert(0 <= (n + retained - 1) / retained <= n + retained) by (nonlinear_arith)
            requires
                retained > 0,
                n > 0,
        ;
        assert((n + retained - 1) / retained <= n) by (nonlinear_arith)
            requires
                retained > 0,
                n > 0,
        ;
    }
    assert((ceil_div(n, retained) - 1) * retained < n <= ceil_div(n, retained) * retained)
        by (nonlinear_arith)
        requires
            ceil_div(n, retained) == (n + retained - 1) / retained,
            retained > 0,
    ;
    // The extremes are samples, and no sample lies outside them.
    assert(samples.to_multiset().len() == samples.len());
    let (least, greatest) = (sorted[0], sorted[sorted.len() - 1]);
    assert(sorted.to_multiset().count(least) > 0 && sorted.to_multiset().count(greatest) > 0);
    counts_are_exact(samples, least);
    counts_are_exact(samples, greatest);
    counts_are_exact(samples, summary.min_ms);
    counts_are_exact(samples, summary.max_ms);
    assert(sketch.buckets.contains_key(least) && sketch.buckets.contains_key(greatest));
    assert(samples.to_set().contains(summary.min_ms) && samples.to_set().contains(summary.max_ms));
    assert(samples.to_multiset().count(summary.min_ms) > 0);
    assert(samples.to_multiset().count(summary.max_ms) > 0);
    let low = choose|i: int| 0 <= i < sorted.len() && sorted[i] == summary.min_ms;
    let high = choose|i: int| 0 <= i < sorted.len() && sorted[i] == summary.max_ms;
    assert(sorted.to_multiset().contains(summary.min_ms));
    assert(sorted.to_multiset().contains(summary.max_ms));
    assert(sorted[0] <= sorted[low] && sorted[high] <= sorted[sorted.len() - 1]);
}

/// Every sample is counted, up to the greatest count, and widens the extremes, be there room for
/// it or not; a sketch that is merged adds all that it counted, and its extremes.
pub proof fn every_sample_is_counted(sketch: LatencyView, other: LatencyView, sample_ms: u64)
    ensures
        sketch.record(sample_ms).capacity == sketch.capacity,
        sketch.record(sample_ms).sample_count == if sketch.sample_count == u64::MAX {
            u64::MAX as int
        } else {
            sketch.sample_count + 1
        },
        sketch.record(sample_ms).min_ms matches Some(low) && low <= sample_ms && (low == sample_ms
            || sketch.min_ms == Some(low)) && (sketch.min_ms is Some ==> low <= sketch.min_ms->0),
        sketch.record(sample_ms).max_ms matches Some(high) && high >= sample_ms && (high
            == sample_ms || sketch.max_ms == Some(high)) && (sketch.max_ms is Some ==> high
            >= sketch.max_ms->0),
        sketch.merge(other).capacity == sketch.capacity,
        sketch.merge(other).sample_count == if sketch.sample_count + other.sample_count > u64::MAX {
            u64::MAX as int
        } else {
            sketch.sample_count + other.sample_count
        },
{
}

/// The bound of a sketch is never smaller than the number of samples for each retained one, and
/// never larger than the number of samples.
pub proof fn bounds_lie_between_share_and_number(sketch: LatencyView, samples: Seq<u64>)
    requires
        sketch.is_of(samples),
        samples.len() > 0,
    ensures
        samples.len() <= sketch.rank_error_bound() * sketch.buckets.len(),
        sketch.rank_error_bound() <= samples.len(),
{
    let (n, retained) = (samples.len() as int, sketch.buckets.len() as int);
    error_is_bounded(sketch, samples, 50);
    error_is_bounded(sketch, samples, 95);
    error_is_bounded(sketch, samples, 99);
    let share = ceil_div(n, retained);
    assert(share <= n && n <= share * retained) by (nonlinear_arith)
        requires
            share == (n + retained - 1) / retained,
            retained > 0,
            n > 0,
    ;
    let bound = sketch.rank_error_bound() as int;
    assert(share * retained <= bound * retained) by (nonlinear_arith)
        requires
            share <= bound,
            retained > 0,
    ;
}

/// No percentile is off by more ranks than there are.
proof fn error_is_bounded(sketch: LatencyView, samples: Seq<u64>, percentile: u8)
    requires
        sketch.is_of(samples),
        samples.len() > 0,
        percentile <= 100,
    ensures
        sketch.percentile_error(percentile) <= samples.len(),
{
    percentile_rank_is_a_rank(sketch.sample_count, percentile);
    let value = percentile_ms(sketch.buckets, sketch.sample_count, percentile);
    maybe_below_is_bounded(sketch.ranges, samples, value);
}

/// As long as there is room for the ranges of all different samples, they are the samples, each
/// counted as often as it was recorded.
proof fn ranges_with_room_are_exact(capacity: usize, samples: Seq<u64>)
    requires
        capacity > 0,
        samples.to_set().len() <= 16 * capacity,
    ensures
        LatencyView::empty(capacity).record_all(samples).capacity == capacity,
        LatencyView::empty(capacity).record_all(samples).ranges == (RangesView {
            counts: count_all(samples),
            highs: Map::empty(),
        }),
    decreases samples.len(),
{
    samples.lemma_cardinality_of_set();
    if samples.len() > 0 {
        let init = samples.drop_last();
        let last = samples.last();
        init.lemma_cardinality_of_set();
        assert(samples =~= init.push(last));
        pushing_adds_to_set(init, last);
        vstd::set_lib::lemma_len_subset(init.to_set(), samples.to_set());
        ranges_with_room_are_exact(capacity, init);
        counts_are_exact(samples, last);
        let before = LatencyView::empty(capacity).record_all(init);
        thinning_fits(
            RangesView { counts: counted(before.ranges.counts, last, 1), ..before.ranges },
            room(capacity),
        );
    }
}

/// Whether a percentile is off its rank by the given number of ranks: so many more samples are
/// needed up to it, or so many fewer below it.
pub open spec fn is_off_by(samples: Seq<u64>, value: u64, percentile: u8, ranks: int) -> bool {
    let rank = (samples.len() * percentile + 99) / 100;
    ||| samples.filter(|s: u64| s <= value).len() + ranks == rank
    ||| samples.filter(|s: u64| s < value).len() + 1 == rank + ranks
}

/// The bound is no larger than it has to be, as long as there are no more than sixteen different
/// samples for each that can be retained: it is the number of samples for each retained one,
/// rounded up, or a percentile is off its rank by just as much.
pub proof fn bounds_are_tight(capacity: usize, samples: Seq<u64>)
    requires
        capacity > 0,
        samples.to_set().len() <= 16 * capacity,
        0 < samples.len() <= u64::MAX,
    ensures
        LatencyView::empty(capacity).record_all(samples).summary() matches Some(summary) && {
            let bound = summary.rank_error_bound as int;
            ||| (bound - 1) * summary.retained_samples < samples.len()
            ||| is_off_by(samples, summary.p50_ms, 50, bound)
            ||| is_off_by(samples, summary.p95_ms, 95, bound)
            ||| is_off_by(samples, summary.p99_ms, 99, bound)
        },
{
    let sketch = LatencyView::empty(capacity).record_all(samples);
    ranges_with_room_are_exact(capacity, samples);
    recorded_sketch_is_of_samples(capacity, samples);
    summary_figures_ascend(sketch);
    let summary = sketch.summary()->0;
    single_ranges_are_exact(samples, summary.p50_ms);
    single_ranges_are_exact(samples, summary.p95_ms);
    single_ranges_are_exact(samples, summary.p99_ms);
    error_is_bounded(sketch, samples, 50);
    error_is_bounded(sketch, samples, 95);
    error_is_bounded(sketch, samples, 99);
    let (n, retained) = (samples.len() as int, sketch.buckets.len() as int);
    let share = ceil_div(n, retained);
    assert(0 < share <= n && (share - 1) * retained < n) by (nonlinear_arith)
        requires
            share == (n + retained - 1) / retained,
            retained > 0,
            n > 0,
    ;
}

} // verus!
