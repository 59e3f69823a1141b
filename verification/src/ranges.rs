//! Where latency samples lie: ranges of samples, each with its number of them, from which it can
//! be told how far a value is from a rank.

use vstd::prelude::*;

use crate::counts::{add_count, add_counts, counted, summed, weight, weight_without};
use crate::sorted_map::{
    ascending, ascending_exists, ascending_map_binds, ascends, map_of, SortedMap,
};

verus! {

/// The number of ranges kept for each retained sample.
pub const RANGES_PER_SAMPLE: usize = 16;

/// The number of ranges there is room for beside the given number of retained samples.
pub open spec fn room(capacity: usize) -> nat {
    (capacity * RANGES_PER_SAMPLE) as nat
}

/// Ranges of samples, each under its lowest value.
#[derive(Debug, PartialEq, Eq)]
pub struct SampleRanges {
    /// Number of samples in each range.
    pub counts: SortedMap<u64, u64>,
    /// Highest value of each range that holds more than its lowest.
    pub highs: SortedMap<u64, u64>,
}

/// The model of [`SampleRanges`].
#[verifier::ext_equal]
pub struct RangesView {
    pub counts: Map<u64, u64>,
    pub highs: Map<u64, u64>,
}

impl View for SampleRanges {
    type V = RangesView;

    open spec fn view(&self) -> RangesView {
        RangesView { counts: self.counts@, highs: self.highs@ }
    }
}

/// The highest value of a range.
pub open spec fn high_of(highs: Map<u64, u64>, low: u64) -> u64 {
    if highs.contains_key(low) {
        highs[low]
    } else {
        low
    }
}

/// The highest values of the ranges of two lists together.
pub open spec fn highest(a: Map<u64, u64>, b: Map<u64, u64>) -> Map<u64, u64> {
    Map::new(
        |k: u64| a.contains_key(k) || b.contains_key(k),
        |k: u64|
            if b.contains_key(k) {
                if high_of(a, k) < b[k] {
                    b[k]
                } else {
                    high_of(a, k)
                }
            } else {
                a[k]
            },
    )
}

/// How many samples of a range are certainly no greater than a value: all where its highest is
/// not, and its lowest where only that is not.
pub open spec fn surely_of(low: u64, high: u64, count: u64, value: u64) -> u64 {
    if high <= value {
        count
    } else if low <= value {
        1
    } else {
        0
    }
}

/// How many samples of a range may be smaller than a value: all where its highest is, and all but
/// its highest where only its lowest is.
pub open spec fn maybe_of(low: u64, high: u64, count: u64, value: u64) -> u64 {
    if value <= low {
        0
    } else if high < value {
        count
    } else {
        count.saturating_sub(1)
    }
}

/// The number of samples in the range at position `at` and the one after it.
pub open spec fn pair_weight(pairs: Seq<(u64, u64)>, at: int) -> int {
    pairs[at].1 + pairs[at + 1].1
}

/// Whether the range at position `at` and the one after it hold the fewest samples, and no
/// earlier pair holds as few.
pub open spec fn is_lightest(pairs: Seq<(u64, u64)>, at: int) -> bool {
    &&& 0 <= at < pairs.len() - 1
    &&& forall|i: int|
        0 <= i < pairs.len() - 1 ==> pair_weight(pairs, at) <= #[trigger] pair_weight(pairs, i)
    &&& forall|i: int| 0 <= i < at ==> pair_weight(pairs, at) < #[trigger] pair_weight(pairs, i)
}

impl RangesView {
    /// No ranges.
    pub open spec fn empty() -> RangesView {
        RangesView { counts: Map::empty(), highs: Map::empty() }
    }

    /// The ranges with the one at position `at` and the next made one.
    pub open spec fn joined_at(self, at: int) -> RangesView {
        let pairs = ascending::<u64, u64>(self.counts);
        let (low, low_count) = pairs[at];
        let (next, next_count) = pairs[at + 1];
        let (a, b) = (high_of(self.highs, low), high_of(self.highs, next));
        RangesView {
            counts: self.counts.remove(next).insert(low, low_count.saturating_add(next_count)),
            highs: self.highs.remove(next).insert(
                low,
                if a < b {
                    b
                } else {
                    a
                },
            ),
        }
    }

    /// The ranges with the two neighbours that hold the fewest samples made one.
    pub open spec fn lightest_joined(self) -> RangesView {
        self.joined_at(
            choose|at: int| #[trigger] is_lightest(ascending::<u64, u64>(self.counts), at),
        )
    }

    /// The ranges after neighbours were joined until there is room for all.
    pub open spec fn thinned(self, room: nat) -> RangesView
        decreases self.counts.len(),
    {
        if self.counts.dom().finite() && self.counts.len() > room && self.counts.len() >= 2 {
            proof {
                joining_leaves_fewer(self);
            }
            self.lightest_joined().thinned(room)
        } else {
            self
        }
    }

    /// The ranges with one more sample.
    pub open spec fn record(self, sample: u64, room: nat) -> RangesView {
        RangesView { counts: counted(self.counts, sample, 1), ..self }.thinned(room)
    }

    /// These ranges and others together.
    pub open spec fn merge(self, other: RangesView, room: nat) -> RangesView {
        RangesView {
            counts: summed(self.counts, other.counts),
            highs: highest(self.highs, other.highs),
        }.thinned(room)
    }

    /// For each range, how many of its samples are certainly no greater than a value.
    pub open spec fn sure(self, value: u64) -> Map<u64, u64> {
        Map::new(
            |k: u64| self.counts.contains_key(k),
            |k: u64| surely_of(k, high_of(self.highs, k), self.counts[k], value),
        )
    }

    /// For each range, how many of its samples may be smaller than a value.
    pub open spec fn possible(self, value: u64) -> Map<u64, u64> {
        Map::new(
            |k: u64| self.counts.contains_key(k),
            |k: u64| maybe_of(k, high_of(self.highs, k), self.counts[k], value),
        )
    }

    /// The number of samples that are certainly no greater than a value.
    pub open spec fn surely_within(self, value: u64) -> nat {
        weight(self.sure(value))
    }

    /// The number of samples that may be smaller than a value.
    pub open spec fn maybe_below(self, value: u64) -> nat {
        weight(self.possible(value))
    }

    /// How many ranks a value may be off a rank, counted from one.
    pub open spec fn rank_error(self, value: u64, rank: int) -> int {
        let short = rank - self.surely_within(value);
        let over = self.maybe_below(value) + 1 - rank;
        if short > over {
            if short > 0 {
                short
            } else {
                0
            }
        } else if over > 0 {
            over
        } else {
            0
        }
    }
}

/// Of two or more ranges, two neighbours hold the fewest samples.
proof fn lightest_exists(pairs: Seq<(u64, u64)>) -> (at: int)
    requires
        pairs.len() >= 2,
    ensures
        is_lightest(pairs, at),
    decreases pairs.len(),
{
    if pairs.len() == 2 {
        0
    } else {
        let init = pairs.drop_last();
        let at = lightest_exists(init);
        let last = pairs.len() - 2;
        assert(forall|i: int|
            0 <= i < init.len() - 1 ==> pair_weight(pairs, i) == #[trigger] pair_weight(init, i));
        assert forall|i: int| 0 <= i < last implies pair_weight(pairs, at) <= #[trigger] pair_weight(
            pairs,
            i,
        ) by {
            assert(pair_weight(init, at) <= pair_weight(init, i));
        }
        assert forall|i: int| 0 <= i < at implies pair_weight(pairs, at) < #[trigger] pair_weight(
            pairs,
            i,
        ) by {
            assert(pair_weight(init, at) < pair_weight(init, i));
        }
        if pair_weight(pairs, last) < pair_weight(pairs, at) {
            last
        } else {
            at
        }
    }
}

/// What joining the two lightest neighbours does: at the position of the first such pair, and
/// leaving fewer ranges.
pub proof fn joining_leaves_fewer(ranges: RangesView)
    requires
        ranges.counts.dom().finite(),
        ranges.counts.len() >= 2,
    ensures
        ranges.lightest_joined().counts.dom().finite(),
        ranges.lightest_joined().counts.len() == ranges.counts.len() - 1,
        forall|at: int| #[trigger]
            is_lightest(ascending::<u64, u64>(ranges.counts), at) ==> ranges.lightest_joined()
                == ranges.joined_at(at),
        exists|at: int| #[trigger] is_lightest(ascending::<u64, u64>(ranges.counts), at),
{
    let pairs = ascending::<u64, u64>(ranges.counts);
    ascending_exists::<u64, u64>(ranges.counts);
    ascending_map_binds::<u64, u64>(pairs);
    lightest_exists(pairs);
    let at = choose|at: int| #[trigger] is_lightest(pairs, at);
    assert forall|other: int| #[trigger] is_lightest(pairs, other) implies other == at by {
        assert(pair_weight(pairs, at) <= pair_weight(pairs, other));
        assert(pair_weight(pairs, other) <= pair_weight(pairs, at));
    }
    assert(ranges.counts.contains_key(pairs[at].0));
    assert(ranges.counts.contains_key(pairs[at + 1].0));
    assert(ranges.counts.remove(pairs[at + 1].0).contains_key(pairs[at].0));
}

impl Clone for SampleRanges {
    fn clone(&self) -> (r: Self)
        ensures
            r@ == self@,
    {
        SampleRanges { counts: self.counts.clone(), highs: self.highs.clone() }
    }
}

impl SampleRanges {
    /// No ranges.
    pub fn new() -> (r: Self)
        ensures
            r@ == RangesView::empty(),
    {
        SampleRanges { counts: SortedMap::new(), highs: SortedMap::new() }
    }

    /// The highest value of a range.
    fn high(&self, low: u64) -> (r: u64)
        ensures
            r == high_of(self@.highs, low),
    {
        match self.highs.find(&low) {
            Some(high) => *high,
            None => low,
        }
    }

    /// Adds one sample.
    pub fn record(&mut self, sample: u64, capacity: usize)
        requires
            capacity > 0,
        ensures
            final(self)@ == old(self)@.record(sample, room(capacity)),
    {
        add_count(&mut self.counts, sample, 1);
        self.thin(capacity);
    }

    /// Adds the ranges of other samples.
    pub fn merge(&mut self, other: &Self, capacity: usize)
        requires
            capacity > 0,
        ensures
            final(self)@ == old(self)@.merge(other@, room(capacity)),
    {
        let ghost start = self@;
        add_counts(&mut self.counts, &other.counts);
        let n: usize = other.highs.len();
        let ghost pairs = other.highs.pairs();
        let mut i: usize = 0;
        assert(highest(start.highs, map_of(pairs.take(0))) =~= start.highs);
        while i < n
            invariant
                i <= n == pairs.len(),
                pairs == other.highs.pairs(),
                ascends::<u64, u64>(pairs),
                self@.counts == summed(start.counts, other@.counts),
                self@.highs == highest(start.highs, map_of(pairs.take(i as int))),
            decreases n - i,
        {
            let low: u64 = *other.highs.key_at(i);
            let high: u64 = *other.highs.value_at(i);
            proof {
                let done = pairs.take(i as int);
                assert(pairs.take(i + 1).drop_last() =~= done);
                ascending_map_binds::<u64, u64>(done);
                ascending_map_binds::<u64, u64>(pairs);
                assert(!map_of(done).contains_key(low)) by {
                    if map_of(done).contains_key(low) {
                        let j = choose|j: int| 0 <= j < done.len() && (#[trigger] done[j]).0 == low;
                        assert(pairs[j].0 == low);
                    }
                }
            }
            let mine: u64 = self.high(low);
            self.highs.put(
                low,
                if mine < high {
                    high
                } else {
                    mine
                },
            );
            proof {
                assert(self@.highs =~= highest(start.highs, map_of(pairs.take(i + 1))));
            }
            i += 1;
        }
        assert(pairs.take(n as int) =~= pairs);
        self.thin(capacity);
    }

    /// Joins neighbours until there is room for all.
    fn thin(&mut self, capacity: usize)
        requires
            capacity > 0,
        ensures
            final(self)@ == old(self)@.thinned(room(capacity)),
    {
        let ghost start = self@;
        while self.counts.len() as u128 > capacity as u128 * RANGES_PER_SAMPLE as u128
            invariant
                capacity > 0,
                self@.thinned(room(capacity)) == start.thinned(room(capacity)),
            decreases self@.counts.len(),
        {
            let n: usize = self.counts.len();
            proof {
                joining_leaves_fewer(self@);
            }
            self.join_lightest();
        }
        let n: usize = self.counts.len();
    }

    /// Joins the two neighbours that hold the fewest samples.
    fn join_lightest(&mut self)
        requires
            old(self)@.counts.len() >= 2,
        ensures
            final(self)@ == old(self)@.lightest_joined(),
    {
        let n: usize = self.counts.len();
        let ghost pairs = self.counts.pairs();
        let mut lightest: usize = 0;
        let mut least: u128 = *self.counts.value_at(0) as u128 + *self.counts.value_at(1) as u128;
        let mut i: usize = 1;
        while i < n - 1
            invariant
                1 <= i <= n - 1,
                n == pairs.len(),
                pairs == self.counts.pairs(),
                is_lightest(pairs.take(i + 1), lightest as int),
                least == pair_weight(pairs, lightest as int),
            decreases n - i,
        {
            let next: u128 = *self.counts.value_at(i) as u128 + *self.counts.value_at(i + 1) as u128;
            proof {
                let seen = pairs.take(i + 1);
                let now = pairs.take(i + 2);
                assert(forall|j: int|
                    0 <= j < i ==> pair_weight(seen, j) == #[trigger] pair_weight(now, j));
            }
            if next < least {
                lightest = i;
                least = next;
            }
            i += 1;
        }
        assert(pairs.take(n as int) =~= pairs);
        let low: u64 = *self.counts.key_at(lightest);
        let low_count: u64 = *self.counts.value_at(lightest);
        let next: u64 = *self.counts.key_at(lightest + 1);
        let next_count: u64 = *self.counts.value_at(lightest + 1);
        proof {
            joining_leaves_fewer(self@);
        }
        let a: u64 = self.high(low);
        let b: u64 = self.high(next);
        self.counts.remove(&next);
        self.counts.put(low, low_count.saturating_add(next_count));
        self.highs.remove(&next);
        self.highs.put(
            low,
            if a < b {
                b
            } else {
                a
            },
        );
    }

    /// How many ranks a value may be off a rank, up to the greatest count.
    pub fn rank_error(&self, value: u64, rank: u64) -> (r: u64)
        ensures
            r == if self@.rank_error(value, rank as int) > u64::MAX {
                u64::MAX as int
            } else {
                self@.rank_error(value, rank as int)
            },
    {
        let ghost highs = self@.highs;
        let n: usize = self.counts.len();
        let ghost pairs = self.counts.pairs();
        let mut surely: u128 = 0;
        let mut maybe: u128 = 0;
        let mut i: usize = 0;
        proof {
            let none = RangesView { counts: map_of(pairs.take(0)), highs };
            assert(none.sure(value) =~= Map::empty());
            assert(none.possible(value) =~= Map::empty());
        }
        while i < n
            invariant
                i <= n == pairs.len(),
                pairs == self.counts.pairs(),
                ascends::<u64, u64>(pairs),
                highs == self@.highs,
                surely == (RangesView { counts: map_of(pairs.take(i as int)), highs }).surely_within(
                    value,
                ),
                maybe == (RangesView { counts: map_of(pairs.take(i as int)), highs }).maybe_below(
                    value,
                ),
                surely <= i * u64::MAX,
                maybe <= i * u64::MAX,
            decreases n - i,
        {
            let low: u64 = *self.counts.key_at(i);
            let count: u64 = *self.counts.value_at(i);
            let high: u64 = self.high(low);
            proof {
                let done = pairs.take(i as int);
                let before = RangesView { counts: map_of(done), highs };
                let after = RangesView { counts: map_of(pairs.take(i + 1)), highs };
                assert(pairs.take(i + 1).drop_last() =~= done);
                ascending_map_binds::<u64, u64>(done);
                ascending_map_binds::<u64, u64>(pairs);
                assert(!map_of(done).contains_key(low)) by {
                    if map_of(done).contains_key(low) {
                        let j = choose|j: int| 0 <= j < done.len() && (#[trigger] done[j]).0 == low;
                        assert(pairs[j].0 == low);
                    }
                }
                assert(after.sure(value).dom() =~= after.counts.dom());
                assert(after.possible(value).dom() =~= after.counts.dom());
                assert(after.sure(value).remove(low) =~= before.sure(value));
                assert(after.possible(value).remove(low) =~= before.possible(value));
                weight_without(after.sure(value), low);
                weight_without(after.possible(value), low);
                assert(i * u64::MAX + u64::MAX == (i + 1) * u64::MAX) by (nonlinear_arith);
                assert((i + 1) * u64::MAX <= usize::MAX * u64::MAX) by (nonlinear_arith)
                    requires
                        i + 1 <= usize::MAX,
                ;
            }
            if high <= value {
                surely = surely + count as u128;
            } else if low <= value {
                surely = surely + 1;
            }
            if low < value {
                maybe = maybe + if high < value {
                    count as u128
                } else {
                    count.saturating_sub(1) as u128
                };
            }
            i += 1;
        }
        assert(pairs.take(n as int) =~= pairs);
        assert(n * u64::MAX <= usize::MAX * u64::MAX) by (nonlinear_arith)
            requires
                n <= usize::MAX,
        ;
        let short: u128 = (rank as u128).saturating_sub(surely);
        let over: u128 = (maybe + 1).saturating_sub(rank as u128);
        let error: u128 = if short > over {
            short
        } else {
            over
        };
        if error > u64::MAX as u128 {
            u64::MAX
        } else {
            error as u64
        }
    }
}

} // verus!
