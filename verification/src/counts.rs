//! Saturating counts of keys.

use vstd::prelude::*;

use crate::sorted_map::{ascending_map_binds, ascends, map_of, Key, SortedMap};

verus! {

/// The count of a key, zero where it has none.
pub open spec fn count_of<A>(m: Map<A, u64>, key: A) -> u64 {
    if m.contains_key(key) {
        m[key]
    } else {
        0
    }
}

/// The counts with `amount` more for one key.
pub open spec fn counted<A>(m: Map<A, u64>, key: A, amount: u64) -> Map<A, u64> {
    m.insert(key, count_of(m, key).saturating_add(amount))
}

/// The sums of two counts, key by key.
pub open spec fn summed<A>(a: Map<A, u64>, b: Map<A, u64>) -> Map<A, u64> {
    Map::new(
        |k: A| a.contains_key(k) || b.contains_key(k),
        |k: A| count_of(a, k).saturating_add(count_of(b, k)),
    )
}

/// The sum of all counts.
pub open spec fn weight<A>(m: Map<A, u64>) -> nat
    decreases m.len(),
    when m.dom().finite()
{
    if m.len() == 0 {
        0
    } else {
        let key = m.dom().choose();
        m[key] as nat + weight(m.remove(key))
    }
}

/// The sum of all counts is that of one key and that of the others.
pub proof fn weight_without<A>(m: Map<A, u64>, key: A)
    requires
        m.dom().finite(),
        m.contains_key(key),
    ensures
        weight(m) == m[key] + weight(m.remove(key)),
    decreases m.len(),
{
    let first = m.dom().choose();
    if first != key {
        weight_without(m.remove(first), key);
        weight_without(m.remove(key), first);
        assert(m.remove(first).remove(key) =~= m.remove(key).remove(first));
    }
}

/// Counting adds to the sum of all counts, unless the count of the key is at its limit.
pub proof fn counting_adds_weight<A>(m: Map<A, u64>, key: A, amount: u64)
    requires
        m.dom().finite(),
        count_of(m, key) + amount <= u64::MAX,
    ensures
        weight(counted(m, key, amount)) == weight(m) + amount,
{
    let after = counted(m, key, amount);
    weight_without(after, key);
    assert(after.remove(key) =~= m.remove(key));
    if m.contains_key(key) {
        weight_without(m, key);
    } else {
        assert(m.remove(key) =~= m);
    }
}

/// No count exceeds the sum of all.
pub proof fn count_within_weight<A>(m: Map<A, u64>, key: A)
    requires
        m.dom().finite(),
    ensures
        count_of(m, key) <= weight(m),
{
    if m.contains_key(key) {
        weight_without(m, key);
    }
}

/// The sum of two counts weighs as much as both, while that fits the type of a count.
pub proof fn summing_adds_weight<A>(a: Map<A, u64>, b: Map<A, u64>)
    requires
        a.dom().finite(),
        b.dom().finite(),
        weight(a) + weight(b) <= u64::MAX,
    ensures
        summed(a, b).dom().finite(),
        weight(summed(a, b)) == weight(a) + weight(b),
    decreases b.len(),
{
    if b.len() == 0 {
        assert(summed(a, b) =~= a);
    } else {
        let key = b.dom().choose();
        let rest = b.remove(key);
        weight_without(b, key);
        summing_adds_weight(a, rest);
        assert(summed(a, b) =~= counted(summed(a, rest), key, b[key]));
        count_within_weight(a, key);
        counting_adds_weight(summed(a, rest), key, b[key]);
    }
}

/// The sum of two counts weighs as much as both, or at least the greatest count.
pub proof fn summing_weighs_both<A>(a: Map<A, u64>, b: Map<A, u64>)
    requires
        a.dom().finite(),
        b.dom().finite(),
    ensures
        summed(a, b).dom().finite(),
        weight(summed(a, b)) <= weight(a) + weight(b),
        weight(summed(a, b)) >= u64::MAX || weight(summed(a, b)) == weight(a) + weight(b),
    decreases b.len(),
{
    if b.len() == 0 {
        assert(summed(a, b) =~= a);
    } else {
        let key = b.dom().choose();
        let rest = b.remove(key);
        let before = summed(a, rest);
        weight_without(b, key);
        summing_weighs_both(a, rest);
        assert(summed(a, b) =~= counted(before, key, b[key]));
        weight_without(summed(a, b), key);
        assert(summed(a, b).remove(key) =~= before.remove(key));
        if before.contains_key(key) {
            weight_without(before, key);
        } else {
            assert(before.remove(key) =~= before);
        }
    }
}

/// The counts of some items, each as often as it stands there, up to the greatest count.
pub open spec fn count_all<A>(items: Seq<A>) -> Map<A, u64>
    decreases items.len(),
{
    if items.len() == 0 {
        Map::empty()
    } else {
        counted(count_all(items.drop_last()), items.last(), 1)
    }
}

/// What is counted of some items: each of them and nothing else, exactly as often as it stands
/// there, up to the greatest count.
pub proof fn counts_are_exact<A>(items: Seq<A>, item: A)
    ensures
        count_all(items).dom() == items.to_set(),
        count_all(items).dom().finite(),
        items.to_multiset().count(item) <= u64::MAX ==> count_of(count_all(items), item)
            == items.to_multiset().count(item),
        items.to_multiset().count(item) > u64::MAX ==> count_of(count_all(items), item) == u64::MAX,
    decreases items.len(),
{
    broadcast use vstd::seq_lib::group_to_multiset_ensures;

    if items.len() == 0 {
        assert(items.to_set() =~= Set::empty());
    } else {
        let init = items.drop_last();
        let last = items.last();
        counts_are_exact(init, item);
        counts_are_exact(init, last);
        assert(items =~= init.push(last));
        pushing_adds_to_set(init, last);
    }
}

/// The items of a sequence with one more are those of the sequence and the one more.
pub proof fn pushing_adds_to_set<A>(items: Seq<A>, item: A)
    ensures
        items.push(item).to_set() == items.to_set().insert(item),
{
    let more = items.push(item);
    assert forall|x: A| more.to_set().contains(x) == items.to_set().insert(item).contains(x) by {
        if items.contains(x) {
            let at = choose|at: int| 0 <= at < items.len() && items[at] == x;
            assert(more[at] == x);
        }
        assert(more[items.len() as int] == item);
    }
    assert(more.to_set() =~= items.to_set().insert(item));
}

/// The items of two lists are among those of both.
pub proof fn parts_are_subsets<A>(a: Seq<A>, b: Seq<A>)
    ensures
        a.to_set().subset_of((a + b).to_set()),
        b.to_set().subset_of((a + b).to_set()),
{
    let both = a + b;
    assert forall|x: A| a.to_set().contains(x) implies #[trigger] both.to_set().contains(x) by {
        let at = choose|at: int| 0 <= at < a.len() && a[at] == x;
        assert(both[at] == x);
    }
    assert forall|x: A| b.to_set().contains(x) implies #[trigger] both.to_set().contains(x) by {
        let at = choose|at: int| 0 <= at < b.len() && b[at] == x;
        assert(both[a.len() + at] == x);
    }
}

/// The counts of two lists of items are the sums of the counts of each.
pub proof fn counts_add_up<A>(a: Seq<A>, b: Seq<A>)
    ensures
        count_all(a + b) == summed(count_all(a), count_all(b)),
    decreases b.len(),
{
    if b.len() == 0 {
        assert(a + b =~= a);
        assert(summed(count_all(a), count_all(b)) =~= count_all(a));
    } else {
        let init = b.drop_last();
        counts_add_up(a, init);
        assert((a + b).drop_last() =~= a + init);
        assert(counted(summed(count_all(a), count_all(init)), b.last(), 1) =~= summed(
            count_all(a),
            counted(count_all(init), b.last(), 1),
        ));
    }
}

/// Counts `amount` more for one key.
pub fn add_count<K: Key>(counts: &mut SortedMap<K, u64>, key: K, amount: u64)
    ensures
        final(counts)@ == counted(old(counts)@, key@, amount),
{
    let current: u64 = match counts.find(&key) {
        Some(n) => *n,
        None => 0,
    };
    counts.put(key, current.saturating_add(amount));
}

/// Adds the counts of `source` to those of `target`.
pub fn add_counts<K: Key>(target: &mut SortedMap<K, u64>, source: &SortedMap<K, u64>)
    ensures
        final(target)@ == summed(old(target)@, source@),
{
    let n: usize = source.len();
    let ghost pairs = source.pairs();
    let ghost start = target@;
    let mut i: usize = 0;
    while i < n
        invariant
            i <= n == pairs.len(),
            pairs == source.pairs(),
            ascends::<K, u64>(pairs),
            target@ == summed(start, map_of(pairs.take(i as int))),
        decreases n - i,
    {
        add_count(target, source.key_at(i).duplicate(), *source.value_at(i));
        proof {
            let done = pairs.take(i as int);
            let (k, v) = pairs[i as int];
            assert(pairs.take(i + 1).drop_last() =~= done);
            ascending_map_binds::<K, u64>(done);
            ascending_map_binds::<K, u64>(pairs);
        }
        i += 1;
    }
    assert(pairs.take(n as int) =~= pairs);
}

} // verus!
