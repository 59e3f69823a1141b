//! What holds of every list of sample ranges.

use vstd::prelude::*;

use crate::counts::{
    count_within_weight, counted, counting_adds_weight, summed, summing_adds_weight, weight,
    weight_without,
};
use crate::ordered::{in_order, keeping_as_many};
use crate::ranges::{
    high_of, highest, is_lightest, joining_leaves_fewer, RangesView,
};
use crate::sorted_map::{ascending, ascending_exists, ascending_map_binds};

verus! {

/// The number of samples that are no greater than a value.
pub open spec fn at_or_below(samples: Seq<u64>, value: u64) -> nat {
    samples.filter(|s: u64| s <= value).len()
}

/// The number of samples that are smaller than a value.
pub open spec fn below(samples: Seq<u64>, value: u64) -> nat {
    samples.filter(|s: u64| s < value).len()
}

impl RangesView {
    /// Whether the ranges are ranges of all the samples and of nothing else: no more samples lie
    /// surely within a value than there are, and no fewer may lie below it.
    pub open spec fn covers(self, samples: Seq<u64>) -> bool {
        &&& self.counts.dom().finite()
        &&& self.highs.dom().subset_of(self.counts.dom())
        &&& forall|k: u64| #[trigger]
            self.counts.contains_key(k) ==> k <= high_of(self.highs, k) && self.counts[k] > 0
        &&& weight(self.counts) == samples.len()
        &&& forall|x: u64| #[trigger] self.surely_within(x) <= at_or_below(samples, x)
        &&& forall|x: u64| below(samples, x) <= #[trigger] self.maybe_below(x)
    }
}

/// Ranges that were joined still cover the samples.
proof fn joining_keeps_cover(ranges: RangesView, samples: Seq<u64>)
    requires
        ranges.covers(samples),
        ranges.counts.len() >= 2,
        samples.len() <= u64::MAX,
    ensures
        ranges.lightest_joined().covers(samples),
{
    joining_leaves_fewer(ranges);
    let pairs = ascending::<u64, u64>(ranges.counts);
    ascending_exists::<u64, u64>(ranges.counts);
    ascending_map_binds::<u64, u64>(pairs);
    let at = choose|at: int| #[trigger] is_lightest(pairs, at);
    let (low, low_count) = pairs[at];
    let (next, next_count) = pairs[at + 1];
    let after = ranges.joined_at(at);
    let rest = ranges.counts.remove(next).remove(low);
    weight_without(ranges.counts, next);
    weight_without(ranges.counts.remove(next), low);
    weight_without(after.counts, low);
    assert(after.counts.remove(low) =~= rest);
    assert(low_count.saturating_add(next_count) == low_count + next_count);
    assert(weight(after.counts) == weight(ranges.counts));
    let others = RangesView { counts: rest, highs: ranges.highs };
    assert forall|x: u64| #[trigger] after.surely_within(x) <= at_or_below(samples, x) by {
        let (now, was) = (after.sure(x), ranges.sure(x));
        assert(now.dom() =~= after.counts.dom() && was.dom() =~= ranges.counts.dom());
        weight_without(now, low);
        weight_without(was, next);
        weight_without(was.remove(next), low);
        assert(now.remove(low) =~= others.sure(x));
        assert(was.remove(next).remove(low) =~= others.sure(x));
        assert(ranges.surely_within(x) <= at_or_below(samples, x));
    }
    assert forall|x: u64| below(samples, x) <= #[trigger] after.maybe_below(x) by {
        let (now, was) = (after.possible(x), ranges.possible(x));
        assert(now.dom() =~= after.counts.dom() && was.dom() =~= ranges.counts.dom());
        weight_without(now, low);
        weight_without(was, next);
        weight_without(was.remove(next), low);
        assert(now.remove(low) =~= others.possible(x));
        assert(was.remove(next).remove(low) =~= others.possible(x));
        assert(below(samples, x) <= ranges.maybe_below(x));
    }
}

/// Thinned ranges still cover the samples, and there is room for them.
pub proof fn thinning_keeps_cover(ranges: RangesView, samples: Seq<u64>, room: nat)
    requires
        ranges.covers(samples),
        samples.len() <= u64::MAX,
    ensures
        ranges.thinned(room).covers(samples),
    decreases ranges.counts.len(),
{
    if ranges.counts.len() > room && ranges.counts.len() >= 2 {
        joining_leaves_fewer(ranges);
        joining_keeps_cover(ranges, samples);
        thinning_keeps_cover(ranges.lightest_joined(), samples, room);
    }
}

/// There is room for thinned ranges.
pub proof fn thinning_fits(ranges: RangesView, room: nat)
    requires
        ranges.counts.dom().finite(),
        room > 0,
    ensures
        ranges.thinned(room).counts.dom().finite(),
        ranges.thinned(room).counts.len() <= room,
        ranges.counts.len() <= room ==> ranges.thinned(room) == ranges,
    decreases ranges.counts.len(),
{
    if ranges.counts.len() > room && ranges.counts.len() >= 2 {
        joining_leaves_fewer(ranges);
        thinning_fits(ranges.lightest_joined(), room);
    }
}

/// Whether no range ends below where it starts.
pub open spec fn highs_stand(highs: Map<u64, u64>) -> bool {
    forall|k: u64| #[trigger] highs.contains_key(k) ==> k <= highs[k]
}

/// No thinned range ends below where it starts.
pub proof fn thinning_keeps_highs(ranges: RangesView, room: nat)
    requires
        ranges.counts.dom().finite(),
        highs_stand(ranges.highs),
    ensures
        highs_stand(ranges.thinned(room).highs),
    decreases ranges.counts.len(),
{
    if ranges.counts.len() > room && ranges.counts.len() >= 2 {
        joining_leaves_fewer(ranges);
        thinning_keeps_highs(ranges.lightest_joined(), room);
    }
}

/// No ranges cover no samples.
pub proof fn empty_covers_nothing()
    ensures
        RangesView::empty().covers(Seq::empty()),
{
    reveal(Seq::filter);
    let none = RangesView::empty();
    assert forall|x: u64| #[trigger] none.surely_within(x) == 0 by {
        assert(none.sure(x) =~= Map::empty());
    }
}

/// One more sample is covered by the ranges with it.
pub proof fn recording_keeps_cover(ranges: RangesView, samples: Seq<u64>, sample: u64, room: nat)
    requires
        ranges.covers(samples),
        samples.len() < u64::MAX,
    ensures
        ranges.record(sample, room).covers(samples.push(sample)),
{
    reveal(Seq::filter);
    let more = samples.push(sample);
    let after = RangesView { counts: counted(ranges.counts, sample, 1), ..ranges };
    assert(more.drop_last() =~= samples);
    count_within_weight(ranges.counts, sample);
    counting_adds_weight(ranges.counts, sample, 1);
    assert(after.counts.remove(sample) =~= ranges.counts.remove(sample));
    let others = RangesView { counts: ranges.counts.remove(sample), highs: ranges.highs };
    assert forall|x: u64| #[trigger] after.surely_within(x) <= at_or_below(more, x) by {
        let (now, was) = (after.sure(x), ranges.sure(x));
        assert(now.dom() =~= after.counts.dom() && was.dom() =~= ranges.counts.dom());
        weight_without(now, sample);
        assert(now.remove(sample) =~= others.sure(x));
        assert(was.remove(sample) =~= others.sure(x));
        if ranges.counts.contains_key(sample) {
            weight_without(was, sample);
        } else {
            assert(was.remove(sample) =~= was);
        }
        assert(ranges.surely_within(x) <= at_or_below(samples, x));
    }
    assert forall|x: u64| below(more, x) <= #[trigger] after.maybe_below(x) by {
        let (now, was) = (after.possible(x), ranges.possible(x));
        assert(now.dom() =~= after.counts.dom() && was.dom() =~= ranges.counts.dom());
        weight_without(now, sample);
        assert(now.remove(sample) =~= others.possible(x));
        assert(was.remove(sample) =~= others.possible(x));
        if ranges.counts.contains_key(sample) {
            weight_without(was, sample);
        } else {
            assert(was.remove(sample) =~= was);
        }
        assert(below(samples, x) <= ranges.maybe_below(x));
    }
    thinning_keeps_cover(after, more, room);
}

/// Smaller counts of the same keys weigh no more.
proof fn less_weighs_less(a: Map<u64, u64>, b: Map<u64, u64>)
    requires
        a.dom() == b.dom(),
        b.dom().finite(),
        forall|k: u64| #[trigger] a.contains_key(k) ==> a[k] <= b[k],
    ensures
        weight(a) <= weight(b),
    decreases a.len(),
{
    if a.len() > 0 {
        let key = a.dom().choose();
        weight_without(a, key);
        weight_without(b, key);
        less_weighs_less(a.remove(key), b.remove(key));
    }
}

/// No more samples lie surely within a value, and no more may lie below it, than there are.
proof fn parts_weigh_less(ranges: RangesView, value: u64)
    requires
        ranges.counts.dom().finite(),
        forall|k: u64| #[trigger] ranges.counts.contains_key(k) ==> ranges.counts[k] > 0,
    ensures
        ranges.surely_within(value) <= weight(ranges.counts),
        ranges.maybe_below(value) <= weight(ranges.counts),
{
    assert(ranges.sure(value).dom() =~= ranges.counts.dom());
    assert(ranges.possible(value).dom() =~= ranges.counts.dom());
    less_weighs_less(ranges.sure(value), ranges.counts);
    less_weighs_less(ranges.possible(value), ranges.counts);
}

/// The samples of two lists are covered by their ranges together.
pub proof fn merging_keeps_cover(
    a: RangesView,
    b: RangesView,
    samples_a: Seq<u64>,
    samples_b: Seq<u64>,
    room: nat,
)
    requires
        a.covers(samples_a),
        b.covers(samples_b),
        samples_a.len() + samples_b.len() <= u64::MAX,
    ensures
        a.merge(b, room).covers(samples_a + samples_b),
{
    let all = samples_a + samples_b;
    let after = RangesView { counts: summed(a.counts, b.counts), highs: highest(a.highs, b.highs) };
    assert(after.counts.dom() =~= a.counts.dom().union(b.counts.dom()));
    assert(after.highs.dom().subset_of(after.counts.dom()));
    summing_adds_weight(a.counts, b.counts);
    assert forall|k: u64| #[trigger] after.counts.contains_key(k) implies k <= high_of(
        after.highs,
        k,
    ) && high_of(a.highs, k) <= high_of(after.highs, k) && high_of(b.highs, k) <= high_of(
        after.highs,
        k,
    ) by {
        assert(a.counts.contains_key(k) ==> k <= high_of(a.highs, k));
        assert(b.counts.contains_key(k) ==> k <= high_of(b.highs, k));
        assert(a.highs.contains_key(k) ==> a.counts.contains_key(k));
        assert(b.highs.contains_key(k) ==> b.counts.contains_key(k));
    }
    assert forall|x: u64| #[trigger] after.surely_within(x) <= at_or_below(all, x) by {
        parts_weigh_less(a, x);
        parts_weigh_less(b, x);
        assert(a.sure(x).dom() =~= a.counts.dom() && b.sure(x).dom() =~= b.counts.dom());
        summing_adds_weight(a.sure(x), b.sure(x));
        assert(after.sure(x).dom() =~= summed(a.sure(x), b.sure(x)).dom());
        assert forall|k: u64| #[trigger] after.sure(x).contains_key(k) implies after.sure(x)[k]
            <= summed(a.sure(x), b.sure(x))[k] by {
            assert(after.counts.contains_key(k));
        }
        less_weighs_less(after.sure(x), summed(a.sure(x), b.sure(x)));
        assert(a.surely_within(x) <= at_or_below(samples_a, x));
        assert(b.surely_within(x) <= at_or_below(samples_b, x));
        Seq::filter_distributes_over_add(samples_a, samples_b, |s: u64| s <= x);
    }
    assert forall|x: u64| below(all, x) <= #[trigger] after.maybe_below(x) by {
        parts_weigh_less(a, x);
        parts_weigh_less(b, x);
        assert(a.possible(x).dom() =~= a.counts.dom() && b.possible(x).dom() =~= b.counts.dom());
        summing_adds_weight(a.possible(x), b.possible(x));
        assert(after.possible(x).dom() =~= summed(a.possible(x), b.possible(x)).dom());
        assert forall|k: u64| #[trigger] after.possible(x).contains_key(k) implies summed(
            a.possible(x),
            b.possible(x),
        )[k] <= after.possible(x)[k] by {
            assert(after.counts.contains_key(k));
            count_within_weight(a.counts, k);
            count_within_weight(b.counts, k);
            let (ha, hb) = (high_of(a.highs, k), high_of(b.highs, k));
            assert(high_of(after.highs, k) == ha || high_of(after.highs, k) == hb);
            if !a.counts.contains_key(k) {
                assert(!a.highs.contains_key(k));
                assert(b.counts.contains_key(k));
            }
            if !b.counts.contains_key(k) {
                assert(!b.highs.contains_key(k));
                assert(a.counts.contains_key(k));
            }
        }
        less_weighs_less(summed(a.possible(x), b.possible(x)), after.possible(x));
        assert(below(samples_a, x) <= a.maybe_below(x));
        assert(below(samples_b, x) <= b.maybe_below(x));
        Seq::filter_distributes_over_add(samples_a, samples_b, |s: u64| s < x);
    }
    thinning_keeps_cover(after, all, room);
}

/// Where none is kept, none is left.
proof fn none_kept(s: Seq<u64>, keep: spec_fn(u64) -> bool)
    requires
        forall|i: int| 0 <= i < s.len() ==> !keep(#[trigger] s[i]),
    ensures
        s.filter(keep).len() == 0,
    decreases s.len(),
{
    reveal(Seq::filter);
    if s.len() > 0 {
        none_kept(s.drop_last(), keep);
    }
}

/// Where all are kept, all are left.
proof fn all_kept(s: Seq<u64>, keep: spec_fn(u64) -> bool)
    requires
        forall|i: int| 0 <= i < s.len() ==> keep(#[trigger] s[i]),
    ensures
        s.filter(keep).len() == s.len(),
    decreases s.len(),
{
    reveal(Seq::filter);
    if s.len() > 0 {
        all_kept(s.drop_last(), keep);
    }
}

/// A value with at least `rank` samples up to it is no smaller than the sample of that rank, and
/// one with fewer than `rank` samples below it is no greater.
pub proof fn samples_by_rank(samples: Seq<u64>, sorted: Seq<u64>, value: u64, rank: int)
    requires
        in_order::<u64>(sorted),
        sorted.to_multiset() == samples.to_multiset(),
        1 <= rank <= samples.len(),
    ensures
        sorted.len() == samples.len(),
        rank <= at_or_below(samples, value) ==> sorted[rank - 1] <= value,
        below(samples, value) < rank ==> value <= sorted[rank - 1],
{
    broadcast use vstd::seq_lib::group_to_multiset_ensures;

    assert(sorted.to_multiset().len() == sorted.len());
    assert(samples.to_multiset().len() == samples.len());
    let within = |s: u64| s <= value;
    let under = |s: u64| s < value;
    keeping_as_many(samples, sorted, within);
    keeping_as_many(samples, sorted, under);
    if sorted[rank - 1] > value {
        let (head, tail) = (sorted.take(rank - 1), sorted.skip(rank - 1));
        assert(sorted =~= head + tail);
        Seq::filter_distributes_over_add(head, tail, within);
        head.lemma_filter_len(within);
        assert forall|i: int| 0 <= i < tail.len() implies !within(#[trigger] tail[i]) by {
            assert(tail[i] == sorted[rank - 1 + i]);
        }
        none_kept(tail, within);
    }
    if sorted[rank - 1] < value {
        let (head, tail) = (sorted.take(rank), sorted.skip(rank));
        assert(sorted =~= head + tail);
        Seq::filter_distributes_over_add(head, tail, under);
        assert forall|i: int| 0 <= i < head.len() implies under(#[trigger] head[i]) by {
            assert(head[i] == sorted[i]);
        }
        all_kept(head, under);
    }
}

/// Where a sample is no greater than a value, some are.
pub proof fn some_lie_within(samples: Seq<u64>, sample: u64, value: u64)
    requires
        samples.contains(sample),
        sample <= value,
    ensures
        at_or_below(samples, value) >= 1,
{
    let at = choose|i: int| 0 <= i < samples.len() && samples[i] == sample;
    samples.lemma_filter_contains(|s: u64| s <= value, at);
}

/// Where a sample is no smaller than a value, not all are smaller.
pub proof fn some_lie_above(samples: Seq<u64>, sample: u64, value: u64)
    requires
        samples.contains(sample),
        value <= sample,
    ensures
        below(samples, value) < samples.len(),
{
    let keep = |s: u64| s < value;
    let at = choose|i: int| 0 <= i < samples.len() && samples[i] == sample;
    let (head, tail) = (samples.take(at + 1), samples.skip(at + 1));
    assert(samples =~= head + tail);
    Seq::filter_distributes_over_add(head, tail, keep);
    tail.lemma_filter_len(keep);
    head.drop_last().lemma_filter_len(keep);
    reveal(Seq::filter);
    assert(head.filter(keep).len() == head.drop_last().filter(keep).len());
}

/// No more samples may lie below a value than there are.
pub proof fn maybe_below_is_bounded(ranges: RangesView, samples: Seq<u64>, value: u64)
    requires
        ranges.covers(samples),
    ensures
        ranges.maybe_below(value) <= samples.len(),
{
    parts_weigh_less(ranges, value);
}

} // verus!
