//! Bounded counts of the most frequent keys.

use vstd::prelude::*;

use crate::counts::{add_count, add_counts, count_all, counted, summed};
use crate::ordered::{in_order, sorted, views, Ordered};
use crate::sorted_map::{ascending_map_binds, SortedMap};
use crate::text::{chars_of, text_is_before, text_of, text_precedes, trim, trimmed};

verus! {

/// Number of characters of a hot spot key that are retained.
pub const HOTSPOT_KEY_MAX_CHARS: usize = 240;

/// Count for one retained hot spot key.
#[derive(Debug, Clone, PartialEq, Eq)]
pub struct SwarmActivityHotspot {
    /// Retained key, truncated to a bounded length.
    pub key: String,
    /// Number of events observed for this key.
    pub count: u64,
}

/// The model of a [`SwarmActivityHotspot`].
pub struct HotspotView {
    pub key: Seq<char>,
    pub count: u64,
}

impl View for SwarmActivityHotspot {
    type V = HotspotView;

    open spec fn view(&self) -> HotspotView {
        HotspotView { key: self.key@, count: self.count }
    }
}

/// Hot spots stand in order of their counts, the greatest first, and by their keys where the
/// counts are equal.
impl Ordered for SwarmActivityHotspot {
    open spec fn precedes(a: HotspotView, b: HotspotView) -> bool {
        a.count > b.count || (a.count == b.count && text_precedes(a.key, b.key))
    }

    proof fn order_is_irreflexive(a: HotspotView) {
        String::order_is_irreflexive(a.key);
    }

    proof fn order_is_transitive(a: HotspotView, b: HotspotView, c: HotspotView) {
        if text_precedes(a.key, b.key) && text_precedes(b.key, c.key) {
            String::order_is_transitive(a.key, b.key, c.key);
        }
    }

    proof fn order_is_total(a: HotspotView, b: HotspotView) {
        String::order_is_total(a.key, b.key);
    }

    fn is_before(&self, other: &Self) -> (r: bool) {
        self.count > other.count || (self.count == other.count && text_is_before(
            self.key.as_str(),
            other.key.as_str(),
        ))
    }
}

/// The hot spot of a key.
pub open spec fn hotspot(counts: Map<Seq<char>, u64>, key: Seq<char>) -> HotspotView {
    HotspotView { key, count: counts[key] }
}

/// The keys that rank ahead of a key.
pub open spec fn hotter(counts: Map<Seq<char>, u64>, key: Seq<char>) -> Set<Seq<char>> {
    counts.dom().filter(
        |other: Seq<char>|
            SwarmActivityHotspot::precedes(hotspot(counts, other), hotspot(counts, key)),
    )
}

/// The rank of a key: the number of keys with a greater count, or with an equal count and an
/// earlier key.
pub open spec fn rank(counts: Map<Seq<char>, u64>, key: Seq<char>) -> nat {
    hotter(counts, key).len()
}

/// The counts of the first `capacity` keys in rank.
pub open spec fn pruned(counts: Map<Seq<char>, u64>, capacity: nat) -> Map<Seq<char>, u64> {
    Map::new(
        |key: Seq<char>| counts.contains_key(key) && rank(counts, key) < capacity,
        |key: Seq<char>| counts[key],
    )
}

/// Whether a sequence lists the first `capacity` keys in rank, in order of their rank.
pub open spec fn is_top(
    counts: Map<Seq<char>, u64>,
    capacity: nat,
    top: Seq<HotspotView>,
) -> bool {
    &&& top.len() == if counts.len() < capacity {
        counts.len()
    } else {
        capacity
    }
    &&& forall|i: int|
        0 <= i < top.len() ==> {
            &&& counts.contains_key((#[trigger] top[i]).key)
            &&& top[i].count == counts[top[i].key]
            &&& rank(counts, top[i].key) == i
        }
}

/// The first `capacity` hot spots in rank.
pub open spec fn top_of(counts: Map<Seq<char>, u64>, capacity: nat) -> Seq<HotspotView> {
    choose|top: Seq<HotspotView>| is_top(counts, capacity, top)
}

/// The key under which a value is counted: the value, or its beginning and three dots where it
/// is too long.
pub open spec fn bounded_key(value: Seq<char>) -> Seq<char> {
    if value.len() <= HOTSPOT_KEY_MAX_CHARS {
        value
    } else {
        value.take(HOTSPOT_KEY_MAX_CHARS as int) + "..."@
    }
}

/// The counts with one more for a value; blank values are not counted, and without capacity
/// nothing is kept.
pub open spec fn spotted(
    counts: Map<Seq<char>, u64>,
    value: Seq<char>,
    capacity: nat,
) -> Map<Seq<char>, u64> {
    let text = trimmed(value);
    if text.len() == 0 {
        counts
    } else if capacity == 0 {
        Map::empty()
    } else {
        pruned(counted(counts, bounded_key(text), 1), capacity)
    }
}

/// The counts of two sketches together, within the capacity.
pub open spec fn spots_merged(
    target: Map<Seq<char>, u64>,
    source: Map<Seq<char>, u64>,
    capacity: nat,
) -> Map<Seq<char>, u64> {
    if capacity == 0 {
        Map::empty()
    } else {
        pruned(summed(target, source), capacity)
    }
}

/// Of two keys, the one ahead has the smaller rank.
pub proof fn ranks_follow_order(
    counts: Map<Seq<char>, u64>,
    ahead: Seq<char>,
    behind: Seq<char>,
)
    requires
        counts.dom().finite(),
        counts.contains_key(ahead),
        counts.contains_key(behind),
        SwarmActivityHotspot::precedes(hotspot(counts, ahead), hotspot(counts, behind)),
    ensures
        rank(counts, ahead) < rank(counts, behind),
{
    let few = hotter(counts, ahead);
    let many = hotter(counts, behind);
    SwarmActivityHotspot::order_is_irreflexive(hotspot(counts, ahead));
    assert forall|k: Seq<char>| few.contains(k) implies #[trigger] many.contains(k) by {
        SwarmActivityHotspot::order_is_transitive(
            hotspot(counts, k),
            hotspot(counts, ahead),
            hotspot(counts, behind),
        );
    }
    vstd::set_lib::lemma_len_subset(few.insert(ahead), many);
}

/// Different keys have different ranks, each smaller than the number of keys.
pub proof fn ranks_differ(counts: Map<Seq<char>, u64>, a: Seq<char>, b: Seq<char>)
    requires
        counts.dom().finite(),
        counts.contains_key(a),
        counts.contains_key(b),
    ensures
        rank(counts, a) == rank(counts, b) ==> a == b,
        rank(counts, a) < counts.len(),
{
    if a != b {
        SwarmActivityHotspot::order_is_total(hotspot(counts, a), hotspot(counts, b));
        if SwarmActivityHotspot::precedes(hotspot(counts, a), hotspot(counts, b)) {
            ranks_follow_order(counts, a, b);
        } else {
            ranks_follow_order(counts, b, a);
        }
    }
    SwarmActivityHotspot::order_is_irreflexive(hotspot(counts, a));
    vstd::set_lib::lemma_len_subset(hotter(counts, a), counts.dom().remove(a));
}

/// There is only one list of the first keys in rank.
pub proof fn top_is_unique(
    counts: Map<Seq<char>, u64>,
    capacity: nat,
    a: Seq<HotspotView>,
    b: Seq<HotspotView>,
)
    requires
        counts.dom().finite(),
        is_top(counts, capacity, a),
        is_top(counts, capacity, b),
    ensures
        a == b,
{
    assert forall|i: int| 0 <= i < a.len() implies #[trigger] a[i] == b[i] by {
        ranks_differ(counts, a[i].key, b[i].key);
    }
}

/// In a sorted list of all hot spots, each stands at its rank.
proof fn sorted_hotspots_are_ranked(counts: Map<Seq<char>, u64>, list: Seq<HotspotView>)
    requires
        counts.dom().finite(),
        in_order::<SwarmActivityHotspot>(list),
        forall|i: int, j: int| 0 <= i < j < list.len() ==> (#[trigger] list[i]).key != (
        #[trigger] list[j]).key,
        forall|i: int|
            0 <= i < list.len() ==> counts.contains_key((#[trigger] list[i]).key) && list[i].count
                == counts[list[i].key],
        forall|k: Seq<char>| #[trigger]
            counts.contains_key(k) ==> exists|i: int|
                0 <= i < list.len() && (#[trigger] list[i]).key == k,
    ensures
        forall|i: int| 0 <= i < list.len() ==> rank(counts, (#[trigger] list[i]).key) == i,
{
    assert forall|i: int| 0 <= i < list.len() implies rank(counts, (#[trigger] list[i]).key) == i by {
        let ahead = list.take(i).map_values(|h: HotspotView| h.key);
        ahead.unique_seq_to_set();
        let mine = hotter(counts, list[i].key);
        assert forall|k: Seq<char>| #[trigger] mine.contains(k) <==> ahead.to_set().contains(k) by {
            if ahead.to_set().contains(k) {
                let x = choose|x: int| 0 <= x < ahead.len() && ahead[x] == k;
                SwarmActivityHotspot::order_is_total(list[x], list[i]);
            }
            if mine.contains(k) {
                let x = choose|x: int| 0 <= x < list.len() && (#[trigger] list[x]).key == k;
                SwarmActivityHotspot::order_is_irreflexive(list[i]);
                assert(ahead[x] == k);
            }
        }
        assert(mine =~= ahead.to_set());
    }
}

/// The most frequent keys, the most frequent first, keys of equal counts in their own order.
pub fn top_hotspots(counts: &SortedMap<String, u64>, capacity: usize) -> (r: Vec<SwarmActivityHotspot>)
    ensures
        is_top(counts@, capacity as nat, views(r@)),
        views(r@) == top_of(counts@, capacity as nat),
        counts@.dom().finite(),
{
    let n: usize = counts.len();
    let ghost pairs = counts.pairs();
    let mut all: Vec<SwarmActivityHotspot> = Vec::new();
    let mut i: usize = 0;
    while i < n
        invariant
            i <= n == pairs.len(),
            pairs == counts.pairs(),
            all@.len() == i,
            forall|j: int|
                0 <= j < i ==> (#[trigger] all@[j])@ == (HotspotView {
                    key: pairs[j].0,
                    count: pairs[j].1,
                }),
        decreases n - i,
    {
        all.push(
            SwarmActivityHotspot { key: counts.key_at(i).clone(), count: *counts.value_at(i) },
        );
        i += 1;
    }
    let ghost unsorted = views(all@);
    let mut top = sorted(all);
    proof {
        let list = views(top@);
        ascending_map_binds::<String, u64>(pairs);
        unsorted.to_multiset_ensures();
        list.to_multiset_ensures();
        unsorted.lemma_multiset_has_no_duplicates();
        list.lemma_multiset_has_no_duplicates_conv();
        assert forall|x: int| 0 <= x < list.len() implies counts@.contains_key(
            (#[trigger] list[x]).key,
        ) && list[x].count == counts@[list[x].key] by {
            assert(unsorted.to_multiset().count(list[x]) > 0);
        }
        assert forall|k: Seq<char>| #[trigger] counts@.contains_key(k) implies exists|x: int|
            0 <= x < list.len() && (#[trigger] list[x]).key == k by {
            let j = choose|j: int| 0 <= j < pairs.len() && (#[trigger] pairs[j]).0 == k;
            assert(list.to_multiset().count(unsorted[j]) > 0);
        }
        sorted_hotspots_are_ranked(counts@, list);
    }
    let ghost list = views(top@);
    if top.len() > capacity {
        top.truncate(capacity);
    }
    proof {
        let r = views(top@);
        assert(is_top(counts@, capacity as nat, r)) by {
            assert forall|x: int| 0 <= x < r.len() implies {
                &&& counts@.contains_key((#[trigger] r[x]).key)
                &&& r[x].count == counts@[r[x].key]
                &&& rank(counts@, r[x].key) == x
            } by {
                assert(r[x] == list[x]);
            }
        }
        top_is_unique(counts@, capacity as nat, r, top_of(counts@, capacity as nat));
    }
    top
}

/// Pruning keeps exactly the keys of the list of the first keys in rank.
pub proof fn pruning_keeps_top(
    counts: Map<Seq<char>, u64>,
    capacity: nat,
    top: Seq<HotspotView>,
    key: Seq<char>,
)
    requires
        counts.dom().finite(),
        is_top(counts, capacity, top),
    ensures
        pruned(counts, capacity).contains_key(key) <==> exists|i: int|
            0 <= i < top.len() && (#[trigger] top[i]).key == key,
{
    if pruned(counts, capacity).contains_key(key) {
        ranks_differ(counts, key, key);
        let i = rank(counts, key) as int;
        ranks_differ(counts, top[i].key, key);
    }
}

/// Keeps the most frequent keys only.
pub fn prune_count_map(counts: &mut SortedMap<String, u64>, capacity: usize)
    ensures
        final(counts)@ == pruned(old(counts)@, capacity as nat),
{
    let n: usize = counts.len();
    let ghost start = counts@;
    if n <= capacity {
        proof {
            assert forall|k: Seq<char>| #[trigger] start.contains_key(k) implies rank(start, k)
                < capacity by {
                ranks_differ(start, k, k);
            }
        }
        return;
    }
    let top = top_hotspots(counts, capacity);
    let ghost list = views(top@);
    let mut kept: SortedMap<String, u64> = SortedMap::new();
    let mut i: usize = 0;
    while i < top.len()
        invariant
            i <= top@.len(),
            list == views(top@),
            start.dom().finite(),
            is_top(start, capacity as nat, list),
            forall|k: Seq<char>| #[trigger]
                kept@.contains_key(k) <==> exists|j: int|
                    0 <= j < i && (#[trigger] list[j]).key == k,
            forall|k: Seq<char>| #[trigger] kept@.contains_key(k) ==> kept@[k] == start[k],
        decreases top@.len() - i,
    {
        assert(list[i as int] == top@[i as int]@);
        kept.put(top[i].key.clone(), top[i].count);
        i += 1;
    }
    proof {
        assert forall|k: Seq<char>| #[trigger]
            kept@.contains_key(k) <==> pruned(start, capacity as nat).contains_key(k) by {
            pruning_keeps_top(start, capacity as nat, list, k);
        }
    }
    *counts = kept;
}

/// The key under which a value is counted.
pub fn bounded_hotspot_key(value: &str) -> (r: String)
    ensures
        r@ == bounded_key(value@),
{
    let chars = chars_of(value);
    if chars.len() <= HOTSPOT_KEY_MAX_CHARS {
        value.to_owned()
    } else {
        let mut bounded = text_of(&chars, 0, HOTSPOT_KEY_MAX_CHARS);
        bounded.append("...");
        bounded
    }
}

/// The keys under which values are counted; blank values are not.
pub open spec fn spot_keys(values: Seq<Seq<char>>) -> Seq<Seq<char>>
    decreases values.len(),
{
    if values.len() == 0 {
        Seq::empty()
    } else {
        let others = spot_keys(values.drop_last());
        let text = trimmed(values.last());
        if text.len() == 0 {
            others
        } else {
            others.push(bounded_key(text))
        }
    }
}

/// The counts of all values, none left out for want of room.
pub open spec fn tallied(values: Seq<Seq<char>>) -> Map<Seq<char>, u64> {
    count_all(spot_keys(values))
}

/// The counts with one more value, whatever the number of keys.
pub open spec fn tallied_with(counts: Map<Seq<char>, u64>, value: Seq<char>) -> Map<Seq<char>, u64> {
    let text = trimmed(value);
    if text.len() == 0 {
        counts
    } else {
        counted(counts, bounded_key(text), 1)
    }
}

/// The counts of all values and one more.
pub proof fn tallying_one_more(values: Seq<Seq<char>>, value: Seq<char>)
    ensures
        tallied(values.push(value)) == tallied_with(tallied(values), value),
{
    let keys = spot_keys(values);
    let key = bounded_key(trimmed(value));
    assert(values.push(value).drop_last() =~= values);
    assert(keys.push(key).drop_last() =~= keys);
}

/// Counts one more value, whatever the number of keys.
pub fn tally_value(counts: &mut SortedMap<String, u64>, value: &str)
    ensures
        final(counts)@ == tallied_with(old(counts)@, value@),
{
    let text = trim(value);
    if text.as_str().is_empty() {
        return;
    }
    add_count(counts, bounded_hotspot_key(text.as_str()), 1);
}

/// Counts one more event for a value.
pub fn record_hotspot(counts: &mut SortedMap<String, u64>, value: &str, capacity: usize)
    ensures
        final(counts)@ == spotted(old(counts)@, value@, capacity as nat),
{
    let text = trim(value);
    if text.as_str().is_empty() {
        return;
    }
    if capacity == 0 {
        *counts = SortedMap::new();
        return;
    }
    let key = bounded_hotspot_key(text.as_str());
    add_count(counts, key, 1);
    prune_count_map(counts, capacity);
}

/// Counts one more event for a value, where there is one.
pub fn record_optional_hotspot(
    counts: &mut SortedMap<String, u64>,
    value: &Option<String>,
    capacity: usize,
)
    ensures
        final(counts)@ == match value {
            Some(text) => spotted(old(counts)@, text@, capacity as nat),
            None => old(counts)@,
        },
{
    if let Some(text) = value {
        record_hotspot(counts, text.as_str(), capacity);
    }
}

/// Adds the counts of `source` to those of `target`.
pub fn merge_count_map(
    target: &mut SortedMap<String, u64>,
    source: &SortedMap<String, u64>,
    capacity: usize,
)
    ensures
        final(target)@ == spots_merged(old(target)@, source@, capacity as nat),
{
    if capacity == 0 {
        *target = SortedMap::new();
        return;
    }
    add_counts(target, source);
    prune_count_map(target, capacity);
}

} // verus!
