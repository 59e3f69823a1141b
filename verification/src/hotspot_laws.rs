//! What holds of every bounded count.

use vstd::prelude::*;

use crate::counts::{counted, counts_are_exact, pushing_adds_to_set, summed};
use crate::hotspots::{
    bounded_key, hotspot, is_top, pruned, rank, ranks_differ, spot_keys, spots_merged, spotted,
    tallied, top_of, HotspotView, SwarmActivityHotspot, HOTSPOT_KEY_MAX_CHARS,
};
use crate::ordered::Ordered;
use crate::text::trimmed;
use crate::text_laws::{reads_before, texts_go_by_their_first_difference};

verus! {

/// Some key has each rank below the number of keys.
proof fn every_rank_is_taken(counts: Map<Seq<char>, u64>, place: int) -> (key: Seq<char>)
    requires
        counts.dom().finite(),
        0 <= place < counts.len(),
    ensures
        counts.contains_key(key),
        rank(counts, key) == place,
{
    let keys = counts.dom();
    let f = |k: Seq<char>| rank(counts, k) as int;
    let all = vstd::set_lib::set_int_range(0, keys.len() as int);
    vstd::set_lib::lemma_int_range(0, keys.len() as int);
    assert forall|a: Seq<char>, b: Seq<char>|
        keys.contains(a) && keys.contains(b) && #[trigger] f(a) == #[trigger] f(b) implies a
        == b by {
        ranks_differ(counts, a, b);
    }
    vstd::set_lib::lemma_map_size(keys, keys.map(f), f);
    assert forall|i: int| #[trigger] keys.map(f).contains(i) implies all.contains(i) by {
        let k = choose|k: Seq<char>| keys.contains(k) && f(k) == i;
        ranks_differ(counts, k, k);
    }
    vstd::set_lib::lemma_subset_equality(keys.map(f), all);
    assert(keys.map(f).contains(place));
    choose|k: Seq<char>| keys.contains(k) && f(k) == place
}

/// Every finite count has a list of its first keys in rank.
pub proof fn top_exists(counts: Map<Seq<char>, u64>, capacity: nat)
    requires
        counts.dom().finite(),
    ensures
        is_top(counts, capacity, top_of(counts, capacity)),
{
    let n = if counts.len() < capacity { counts.len() } else { capacity };
    let top = Seq::new(
        n,
        |i: int|
            hotspot(
                counts,
                choose|k: Seq<char>| #[trigger] counts.contains_key(k) && rank(counts, k) == i,
            ),
    );
    assert forall|i: int| 0 <= i < n implies {
        &&& counts.contains_key((#[trigger] top[i]).key)
        &&& top[i].count == counts[top[i].key]
        &&& rank(counts, top[i].key) == i
    } by {
        every_rank_is_taken(counts, i);
    }
    assert(is_top(counts, capacity, top));
}

/// The list of the first keys in rank has the hottest key first: no count is greater than one
/// that stands ahead of it.
pub proof fn top_descends(counts: Map<Seq<char>, u64>, capacity: nat, i: int, j: int)
    requires
        counts.dom().finite(),
        0 <= i < j < top_of(counts, capacity).len(),
    ensures
        top_of(counts, capacity)[i].count >= top_of(counts, capacity)[j].count,
        top_of(counts, capacity)[i].key != top_of(counts, capacity)[j].key,
{
    let top = top_of(counts, capacity);
    top_exists(counts, capacity);
    let (a, b) = (top[i].key, top[j].key);
    if counts[a] < counts[b] {
        crate::hotspots::ranks_follow_order(counts, b, a);
    }
}

/// A key outside the list counts no more than any in it.
pub proof fn top_leaves_out_no_hotter_key(
    counts: Map<Seq<char>, u64>,
    capacity: nat,
    i: int,
    key: Seq<char>,
)
    requires
        counts.dom().finite(),
        0 <= i < top_of(counts, capacity).len(),
        counts.contains_key(key),
        forall|j: int|
            0 <= j < top_of(counts, capacity).len() ==> (#[trigger] top_of(counts, capacity)[j]).key
                != key,
    ensures
        counts[key] <= top_of(counts, capacity)[i].count,
{
    let top = top_of(counts, capacity);
    top_exists(counts, capacity);
    ranks_differ(counts, key, key);
    let place = rank(counts, key) as int;
    if place < top.len() {
        ranks_differ(counts, key, top[place].key);
    }
    if counts[key] > top[i].count {
        crate::hotspots::ranks_follow_order(counts, key, top[i].key);
    }
}

/// Pruning leaves as many keys as there is room for, and all of them where there is room.
pub proof fn pruning_fits(counts: Map<Seq<char>, u64>, capacity: nat)
    requires
        counts.dom().finite(),
    ensures
        pruned(counts, capacity).dom().finite(),
        pruned(counts, capacity).len() == if counts.len() < capacity {
            counts.len()
        } else {
            capacity
        },
        counts.len() <= capacity ==> pruned(counts, capacity) == counts,
{
    let kept = pruned(counts, capacity);
    vstd::set_lib::lemma_len_subset(kept.dom(), counts.dom());
    if counts.len() <= capacity {
        assert forall|k: Seq<char>| #[trigger] counts.contains_key(k) implies kept.contains_key(
            k,
        ) by {
            ranks_differ(counts, k, k);
        }
        assert(kept =~= counts);
    } else {
        let f = |k: Seq<char>| rank(counts, k) as int;
        let all = vstd::set_lib::set_int_range(0, capacity as int);
        vstd::set_lib::lemma_int_range(0, capacity as int);
        assert forall|a: Seq<char>, b: Seq<char>|
            kept.dom().contains(a) && kept.dom().contains(b) && #[trigger] f(a) == #[trigger] f(
                b,
            ) implies a == b by {
            ranks_differ(counts, a, b);
        }
        vstd::set_lib::lemma_map_size(kept.dom(), kept.dom().map(f), f);
        assert forall|i: int| all.contains(i) implies #[trigger] kept.dom().map(f).contains(i) by {
            let k = every_rank_is_taken(counts, i);
            assert(kept.dom().contains(k) && f(k) == i);
        }
        assert(kept.dom().map(f) =~= all);
    }
}

/// Counting a value keeps within the capacity; it is exact where there is room for the key.
pub proof fn spotting_fits(counts: Map<Seq<char>, u64>, value: Seq<char>, capacity: nat)
    requires
        counts.dom().finite(),
        counts.len() <= capacity,
    ensures
        spotted(counts, value, capacity).dom().finite(),
        spotted(counts, value, capacity).len() <= capacity,
        trimmed(value).len() > 0 && counted(
            counts,
            bounded_key(trimmed(value)),
            1,
        ).len() <= capacity ==> spotted(counts, value, capacity) == counted(
            counts,
            bounded_key(trimmed(value)),
            1,
        ),
{
    let more = counted(counts, bounded_key(trimmed(value)), 1);
    pruning_fits(more, capacity);
}

/// Merging counts keeps within the capacity; it is exact where there is room for all keys.
pub proof fn merging_fits(
    target: Map<Seq<char>, u64>,
    source: Map<Seq<char>, u64>,
    capacity: nat,
)
    requires
        target.dom().finite(),
        source.dom().finite(),
    ensures
        spots_merged(target, source, capacity).dom().finite(),
        spots_merged(target, source, capacity).len() <= capacity,
        summed(target, source).len() <= capacity ==> spots_merged(target, source, capacity)
            == summed(target, source),
{
    let both = summed(target, source);
    assert(both.dom() =~= target.dom().union(source.dom()));
    pruning_fits(both, capacity);
}

/// Whether a key with its count comes ahead of another: by the greater count, and where the
/// counts agree by the key that reads before the other.
pub open spec fn is_hotter(key: Seq<char>, count: u64, other: Seq<char>, other_count: u64) -> bool {
    count > other_count || (count == other_count && reads_before(key, other))
}

/// Whether of some counts the hottest are kept, as many as there is room for, each as it was.
pub open spec fn keeps_the_hottest(
    all: Map<Seq<char>, u64>,
    kept: Map<Seq<char>, u64>,
    capacity: nat,
) -> bool {
    &&& kept.dom().finite()
    &&& kept.len() == if all.len() < capacity {
        all.len()
    } else {
        capacity
    }
    &&& forall|key: Seq<char>| #[trigger]
        kept.contains_key(key) ==> all.contains_key(key) && kept[key] == all[key]
    &&& forall|key: Seq<char>, other: Seq<char>| #[trigger]
        kept.contains_key(key) && #[trigger] all.contains_key(other) && !kept.contains_key(other)
            ==> is_hotter(key, all[key], other, all[other])
}

/// Pruning keeps the hottest.
proof fn pruning_keeps_the_hottest(counts: Map<Seq<char>, u64>, capacity: nat)
    requires
        counts.dom().finite(),
    ensures
        keeps_the_hottest(counts, pruned(counts, capacity), capacity),
{
    let kept = pruned(counts, capacity);
    pruning_fits(counts, capacity);
    assert forall|key: Seq<char>, other: Seq<char>| #[trigger]
        kept.contains_key(key) && #[trigger] counts.contains_key(other) && !kept.contains_key(
            other,
        ) implies is_hotter(key, counts[key], other, counts[other]) by {
        texts_go_by_their_first_difference(key, other);
        SwarmActivityHotspot::order_is_total(hotspot(counts, key), hotspot(counts, other));
        if SwarmActivityHotspot::precedes(hotspot(counts, other), hotspot(counts, key)) {
            crate::hotspots::ranks_follow_order(counts, other, key);
        }
    }
}

/// Merging keeps as many keys as there is room for, each with the sum of its two counts, up to
/// the greatest count, and leaves out none that is hotter than one that it keeps. `all` gives
/// the sums of all keys of either.
pub proof fn merging_keeps_the_hottest(
    target: Map<Seq<char>, u64>,
    source: Map<Seq<char>, u64>,
    all: Map<Seq<char>, u64>,
    capacity: nat,
)
    requires
        target.dom().finite(),
        source.dom().finite(),
        all.dom() == target.dom().union(source.dom()),
        forall|key: Seq<char>| #[trigger]
            all.contains_key(key) ==> {
                let a = if target.contains_key(key) {
                    target[key] as int
                } else {
                    0
                };
                let b = if source.contains_key(key) {
                    source[key] as int
                } else {
                    0
                };
                all[key] == if a + b > u64::MAX {
                    u64::MAX as int
                } else {
                    a + b
                }
            },
    ensures
        keeps_the_hottest(all, spots_merged(target, source, capacity), capacity),
{
    assert(summed(target, source).dom() =~= all.dom());
    assert(summed(target, source) =~= all);
    if capacity > 0 {
        pruning_keeps_the_hottest(all, capacity);
    }
}

/// Counting a value that is not blank counts its key once more, up to the greatest count, and
/// keeps as many of the hottest keys as there is room for; a blank value changes nothing. `all`
/// gives the counts of all keys.
pub proof fn counting_keeps_the_hottest(
    counts: Map<Seq<char>, u64>,
    value: Seq<char>,
    all: Map<Seq<char>, u64>,
    capacity: nat,
)
    requires
        counts.dom().finite(),
        trimmed(value).len() > 0 ==> {
            let key = bounded_key(trimmed(value));
            &&& all.dom() == counts.dom().insert(key)
            &&& forall|other: Seq<char>| #[trigger]
                counts.contains_key(other) && other != key ==> all[other] == counts[other]
            &&& all[key] == if !counts.contains_key(key) {
                1
            } else if counts[key] == u64::MAX {
                u64::MAX as int
            } else {
                counts[key] + 1
            }
        },
    ensures
        trimmed(value).len() == 0 ==> spotted(counts, value, capacity) == counts,
        trimmed(value).len() > 0 ==> keeps_the_hottest(
            all,
            spotted(counts, value, capacity),
            capacity,
        ),
{
    if trimmed(value).len() > 0 {
        let key = bounded_key(trimmed(value));
        assert(counted(counts, key, 1).dom() =~= all.dom());
        assert(counted(counts, key, 1) =~= all);
        if capacity > 0 {
            pruning_keeps_the_hottest(all, capacity);
        }
    }
}

/// The list of the hottest keys has as many as there is room for, each with its count, the
/// hotter ahead; every key that it leaves out comes behind all that it lists.
pub proof fn top_lists_the_hottest(counts: Map<Seq<char>, u64>, capacity: nat)
    requires
        counts.dom().finite(),
    ensures
        ({
            let top = top_of(counts, capacity);
            &&& top.len() == if counts.len() < capacity {
                counts.len()
            } else {
                capacity
            }
            &&& forall|i: int|
                0 <= i < top.len() ==> counts.contains_key((#[trigger] top[i]).key) && top[i].count
                    == counts[top[i].key]
            &&& forall|i: int, j: int|
                0 <= i < j < top.len() ==> is_hotter(
                    (#[trigger] top[i]).key,
                    top[i].count,
                    (#[trigger] top[j]).key,
                    top[j].count,
                )
            &&& forall|i: int, key: Seq<char>|
                0 <= i < top.len() && #[trigger] counts.contains_key(key) && (forall|j: int|
                    0 <= j < top.len() ==> (#[trigger] top[j]).key != key) ==> is_hotter(
                    (#[trigger] top[i]).key,
                    top[i].count,
                    key,
                    counts[key],
                )
        }),
{
    let top = top_of(counts, capacity);
    top_exists(counts, capacity);
    assert forall|i: int, j: int| 0 <= i < j < top.len() implies is_hotter(
        (#[trigger] top[i]).key,
        top[i].count,
        (#[trigger] top[j]).key,
        top[j].count,
    ) by {
        ahead_in_rank_is_hotter(counts, top[i].key, top[j].key);
    }
    assert forall|i: int, key: Seq<char>|
        0 <= i < top.len() && #[trigger] counts.contains_key(key) && (forall|j: int|
            0 <= j < top.len() ==> (#[trigger] top[j]).key != key) implies is_hotter(
        (#[trigger] top[i]).key,
        top[i].count,
        key,
        counts[key],
    ) by {
        ranks_differ(counts, key, key);
        let place = rank(counts, key) as int;
        if place < top.len() {
            ranks_differ(counts, key, top[place].key);
        }
        ahead_in_rank_is_hotter(counts, top[i].key, key);
    }
}

/// Of two keys, the one of the smaller rank is the hotter.
proof fn ahead_in_rank_is_hotter(counts: Map<Seq<char>, u64>, a: Seq<char>, b: Seq<char>)
    requires
        counts.dom().finite(),
        counts.contains_key(a),
        counts.contains_key(b),
        rank(counts, a) < rank(counts, b),
    ensures
        is_hotter(a, counts[a], b, counts[b]),
{
    texts_go_by_their_first_difference(a, b);
    SwarmActivityHotspot::order_is_total(hotspot(counts, a), hotspot(counts, b));
    if SwarmActivityHotspot::precedes(hotspot(counts, b), hotspot(counts, a)) {
        crate::hotspots::ranks_follow_order(counts, b, a);
    }
}

/// A value of up to two hundred and forty characters is its own key; a longer one is counted
/// under its first two hundred and forty characters and three dots.
pub proof fn keys_are_shortened(value: Seq<char>)
    ensures
        value.len() <= 240 ==> bounded_key(value) == value,
        value.len() > 240 ==> {
            &&& bounded_key(value).len() == 243
            &&& forall|i: int| 0 <= i < 240 ==> #[trigger] bounded_key(value)[i] == value[i]
            &&& forall|i: int| 240 <= i < 243 ==> #[trigger] bounded_key(value)[i] == '.'
        },
{
    reveal_strlit("...");
}

/// A retained key is never longer than the retained characters and three dots.
pub proof fn retained_key_is_short(value: Seq<char>)
    ensures
        bounded_key(value).len() <= HOTSPOT_KEY_MAX_CHARS + 3,
{
    reveal_strlit("...");
}

/// The counts of some values, one after the other.
pub open spec fn spotted_all(values: Seq<Seq<char>>, capacity: nat) -> Map<Seq<char>, u64>
    decreases values.len(),
{
    if values.len() == 0 {
        Map::empty()
    } else {
        spotted(spotted_all(values.drop_last(), capacity), values.last(), capacity)
    }
}

/// As long as there is room for all different keys, all values are counted.
pub proof fn values_within_capacity_are_tallied(values: Seq<Seq<char>>, capacity: nat)
    requires
        spot_keys(values).to_set().len() <= capacity,
    ensures
        spotted_all(values, capacity) == tallied(values),
    decreases values.len(),
{
    if values.len() > 0 {
        let init = values.drop_last();
        let earlier = spot_keys(init);
        let text = trimmed(values.last());
        counts_are_exact(earlier, text);
        earlier.lemma_cardinality_of_set();
        spot_keys(values).lemma_cardinality_of_set();
        if text.len() > 0 {
            let key = bounded_key(text);
            pushing_adds_to_set(earlier, key);
            vstd::set_lib::lemma_len_subset(earlier.to_set(), spot_keys(values).to_set());
            assert(spot_keys(values).drop_last() =~= earlier);
            counts_are_exact(spot_keys(values), key);
            values_within_capacity_are_tallied(init, capacity);
            spotting_fits(tallied(init), values.last(), capacity);
        } else {
            values_within_capacity_are_tallied(init, capacity);
        }
    }
}

/// What is known of the counts of some values: each retained key is counted as often as it came,
/// and where one that came is not retained, there is no room left, and all that are retained come
/// before it even if it came but once.
spec fn counts_stand(values: Seq<Seq<char>>, capacity: nat) -> bool {
    let counts = spotted_all(values, capacity);
    let keys = spot_keys(values).to_multiset();
    &&& counts.dom().finite()
    &&& counts.len() <= capacity
    &&& forall|k: Seq<char>| #[trigger]
        counts.contains_key(k) ==> counts[k] == keys.count(k) && keys.count(k) > 0
    &&& forall|k: Seq<char>|
        keys.count(k) > 0 && !(#[trigger] counts.contains_key(k)) ==> counts.len() == capacity
            && comes_last(counts, k)
}

/// Whether all keys come before one that is counted once.
spec fn comes_last(counts: Map<Seq<char>, u64>, key: Seq<char>) -> bool {
    forall|other: Seq<char>| #[trigger]
        counts.contains_key(other) ==> SwarmActivityHotspot::precedes(
            hotspot(counts, other),
            (HotspotView { key, count: 1 }),
        )
}

/// Of one key more than there is room for, pruning drops the one that comes last.
proof fn pruning_drops_the_last(counts: Map<Seq<char>, u64>, capacity: nat) -> (last: Seq<char>)
    requires
        counts.dom().finite(),
        counts.len() == capacity + 1,
    ensures
        counts.contains_key(last),
        pruned(counts, capacity) == counts.remove(last),
        forall|k: Seq<char>| #[trigger]
            counts.contains_key(k) && k != last ==> SwarmActivityHotspot::precedes(
                hotspot(counts, k),
                hotspot(counts, last),
            ),
{
    let last = every_rank_is_taken(counts, capacity as int);
    assert forall|k: Seq<char>| #[trigger] counts.contains_key(k) && k != last implies rank(counts, k)
        < capacity && SwarmActivityHotspot::precedes(hotspot(counts, k), hotspot(counts, last)) by {
        ranks_differ(counts, k, last);
        SwarmActivityHotspot::order_is_total(hotspot(counts, k), hotspot(counts, last));
        if SwarmActivityHotspot::precedes(hotspot(counts, last), hotspot(counts, k)) {
            crate::hotspots::ranks_follow_order(counts, last, k);
        }
    }
    assert(pruned(counts, capacity) =~= counts.remove(last));
    last
}

/// However many values came, this is known of their counts.
proof fn counts_go_on_standing(values: Seq<Seq<char>>, capacity: nat)
    requires
        values.len() <= u64::MAX,
        capacity > 0,
    ensures
        counts_stand(values, capacity),
    decreases values.len(),
{
    broadcast use vstd::seq_lib::group_to_multiset_ensures;

    let keys = spot_keys(values);
    if values.len() > 0 {
        let init = values.drop_last();
        let earlier = spot_keys(init);
        let before = spotted_all(init, capacity);
        let after = spotted_all(values, capacity);
        let text = trimmed(values.last());
        counts_go_on_standing(init, capacity);
        keys_are_few(init);
        if text.len() > 0 {
            let key = bounded_key(text);
            let more = counted(before, key, 1);
            let came = earlier.to_multiset();
            assert(keys.to_multiset() =~= came.insert(key));
            assert(came.len() == earlier.len());
            assert(came.count(key) <= came.len());
            pruning_fits(more, capacity);
            if before.contains_key(key) {
                assert(more.dom() =~= before.dom());
                assert(after == more);
                assert forall|k: Seq<char>|
                    keys.to_multiset().count(k) > 0 && !(#[trigger] after.contains_key(k)) implies after.len()
                    == capacity && comes_last(after, k) by {
                    assert(!before.contains_key(k));
                    assert forall|other: Seq<char>| #[trigger]
                        after.contains_key(other) implies SwarmActivityHotspot::precedes(
                        hotspot(after, other),
                        (HotspotView { key: k, count: 1 }),
                    ) by {
                        assert(before.contains_key(other));
                        assert(SwarmActivityHotspot::precedes(
                            hotspot(before, other),
                            (HotspotView { key: k, count: 1 }),
                        ));
                    }
                }
            } else if before.len() < capacity {
                assert(after == more);
                assert(came.count(key) == 0);
                assert forall|k: Seq<char>| keys.to_multiset().count(k) > 0 implies #[trigger] after.contains_key(
                    k,
                ) by {
                    if k != key {
                        assert(came.count(k) > 0);
                        assert(before.contains_key(k));
                    }
                }
            } else {
                assert(more.dom() =~= before.dom().insert(key));
                let last = pruning_drops_the_last(more, capacity);
                assert(more[key] == 1);
                assert forall|k: Seq<char>| #[trigger] before.contains_key(k) implies hotspot(more, k)
                    == hotspot(before, k) by {}
                if last == key {
                    assert(after =~= before);
                    assert(comes_last(after, key)) by {
                        assert forall|other: Seq<char>| #[trigger]
                            after.contains_key(other) implies SwarmActivityHotspot::precedes(
                            hotspot(after, other),
                            (HotspotView { key, count: 1 }),
                        ) by {
                            assert(more.contains_key(other));
                        }
                    }
                    assert forall|k: Seq<char>|
                        keys.to_multiset().count(k) > 0 && !(#[trigger] after.contains_key(k)) implies comes_last(
                        after,
                        k,
                    ) by {
                        if k != key {
                            assert(!before.contains_key(k));
                        }
                    }
                } else {
                    assert(more.contains_key(key));
                    assert(SwarmActivityHotspot::precedes(hotspot(more, key), hotspot(more, last)));
                    if came.count(key) > 0 {
                        assert(before.contains_key(last));
                        assert(SwarmActivityHotspot::precedes(
                            hotspot(before, last),
                            (HotspotView { key, count: 1 }),
                        ));
                        SwarmActivityHotspot::order_is_transitive(
                            hotspot(more, key),
                            hotspot(more, last),
                            hotspot(more, key),
                        );
                        SwarmActivityHotspot::order_is_irreflexive(hotspot(more, key));
                    }
                    assert(before.contains_key(last));
                    assert(more[last] == 1);
                    let gone = HotspotView { key: last, count: 1 };
                    assert(hotspot(more, last) == gone);
                    assert forall|k: Seq<char>|
                        keys.to_multiset().count(k) > 0 && !(#[trigger] after.contains_key(k)) implies comes_last(
                        after,
                        k,
                    ) by {
                        let it = HotspotView { key: k, count: 1 };
                        assert forall|other: Seq<char>| #[trigger]
                            after.contains_key(other) implies SwarmActivityHotspot::precedes(
                            hotspot(after, other),
                            it,
                        ) by {
                            assert(more.contains_key(other));
                            assert(hotspot(after, other) == hotspot(more, other));
                            if k != last {
                                assert(!before.contains_key(k));
                                assert(SwarmActivityHotspot::precedes(hotspot(before, last), it));
                                SwarmActivityHotspot::order_is_transitive(
                                    hotspot(more, other),
                                    gone,
                                    it,
                                );
                            }
                        }
                    }
                }
            }
        }
    }
}

/// However many keys were dropped, each retained key is counted as often as it came.
pub proof fn listed_counts_are_exact(values: Seq<Seq<char>>, capacity: nat, key: Seq<char>)
    requires
        values.len() <= u64::MAX,
        spotted_all(values, capacity).contains_key(key),
    ensures
        spotted_all(values, capacity)[key] == spot_keys(values).to_multiset().count(key),
{
    if capacity > 0 {
        counts_go_on_standing(values, capacity);
    } else {
        nothing_without_room(values);
    }
}

/// Every retained key came at least once.
pub proof fn retained_keys_came(values: Seq<Seq<char>>, capacity: nat, key: Seq<char>)
    requires
        values.len() <= u64::MAX,
        spotted_all(values, capacity).contains_key(key),
    ensures
        spot_keys(values).to_multiset().count(key) > 0,
{
    if capacity > 0 {
        counts_go_on_standing(values, capacity);
    } else {
        nothing_without_room(values);
    }
}

/// A sketch drops a key only for want of room: where a key that came is not retained, as many
/// are as there is room for.
pub proof fn keys_are_dropped_for_want_of_room(
    values: Seq<Seq<char>>,
    capacity: nat,
    key: Seq<char>,
)
    requires
        values.len() <= u64::MAX,
        spot_keys(values).to_multiset().count(key) > 0,
        !spotted_all(values, capacity).contains_key(key),
    ensures
        spotted_all(values, capacity).dom().finite(),
        spotted_all(values, capacity).len() == capacity,
{
    if capacity > 0 {
        counts_go_on_standing(values, capacity);
    } else {
        nothing_without_room(values);
    }
}

/// Without room nothing is counted.
proof fn nothing_without_room(values: Seq<Seq<char>>)
    ensures
        spotted_all(values, 0) == Map::<Seq<char>, u64>::empty(),
    decreases values.len(),
{
    if values.len() > 0 {
        nothing_without_room(values.drop_last());
    }
}

/// There are no more keys than values.
proof fn keys_are_few(values: Seq<Seq<char>>)
    ensures
        spot_keys(values).len() <= values.len(),
    decreases values.len(),
{
    if values.len() > 0 {
        keys_are_few(values.drop_last());
    }
}

} // verus!
