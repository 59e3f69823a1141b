//! A map that keeps its keys in ascending order.

use vstd::prelude::*;

use crate::ordered::Ordered;

verus! {

/// The map that a sequence of pairs writes, a later pair replacing an earlier one of its key.
pub open spec fn map_of<A, B>(pairs: Seq<(A, B)>) -> Map<A, B>
    decreases pairs.len(),
{
    if pairs.len() == 0 {
        Map::empty()
    } else {
        map_of(pairs.drop_last()).insert(pairs.last().0, pairs.last().1)
    }
}

/// Whether each key of the sequence comes before the next.
pub open spec fn ascends<K: Ordered, B>(pairs: Seq<(K::V, B)>) -> bool {
    forall|i: int, j: int|
        0 <= i < j < pairs.len() ==> K::precedes((#[trigger] pairs[i]).0, (#[trigger] pairs[j]).0)
}

/// The pairs of a map in ascending order of their keys.
pub open spec fn ascending<K: Ordered, B>(m: Map<K::V, B>) -> Seq<(K::V, B)> {
    choose|pairs: Seq<(K::V, B)>| #[trigger] ascends::<K, B>(pairs) && map_of(pairs) == m
}

/// What `map_of` binds: the keys are those of the pairs, and where no key stands twice each key
/// is bound to the value that stands beside it.
pub proof fn map_of_binds<A, B>(pairs: Seq<(A, B)>)
    ensures
        map_of(pairs).dom().finite(),
        forall|k: A|
            map_of(pairs).contains_key(k) <==> exists|i: int|
                0 <= i < pairs.len() && (#[trigger] pairs[i]).0 == k,
        (forall|i: int, j: int|
            0 <= i < j < pairs.len() ==> (#[trigger] pairs[i]).0 != (#[trigger] pairs[j]).0) ==> {
            &&& forall|i: int|
                0 <= i < pairs.len() ==> map_of(pairs)[(#[trigger] pairs[i]).0] == pairs[i].1
            &&& map_of(pairs).len() == pairs.len()
        },
    decreases pairs.len(),
{
    if pairs.len() > 0 {
        let init = pairs.drop_last();
        map_of_binds(init);
        assert forall|k: A|
            map_of(pairs).contains_key(k) <==> exists|i: int|
                0 <= i < pairs.len() && (#[trigger] pairs[i]).0 == k by {
            if k == pairs.last().0 {
            } else if map_of(init).contains_key(k) {
            } else if exists|i: int| 0 <= i < pairs.len() && (#[trigger] pairs[i]).0 == k {
                let i = choose|i: int| 0 <= i < pairs.len() && (#[trigger] pairs[i]).0 == k;
                assert(init[i].0 == k);
            }
        }
        if forall|i: int, j: int|
            0 <= i < j < pairs.len() ==> (#[trigger] pairs[i]).0 != (#[trigger] pairs[j]).0 {
            assert forall|i: int| 0 <= i < pairs.len() implies map_of(pairs)[(
            #[trigger] pairs[i]).0] == pairs[i].1 by {
                if i < init.len() {
                    assert(init[i] == pairs[i]);
                }
            }
        }
    }
}

/// In an ascending sequence no key stands twice, so the map binds each key to the value beside
/// it.
pub proof fn ascending_map_binds<K: Ordered, B>(pairs: Seq<(K::V, B)>)
    requires
        ascends::<K, B>(pairs),
    ensures
        map_of(pairs).dom().finite(),
        map_of(pairs).len() == pairs.len(),
        forall|i: int, j: int|
            0 <= i < j < pairs.len() ==> (#[trigger] pairs[i]).0 != (#[trigger] pairs[j]).0,
        forall|k: K::V|
            map_of(pairs).contains_key(k) <==> exists|i: int|
                0 <= i < pairs.len() && (#[trigger] pairs[i]).0 == k,
        forall|i: int|
            0 <= i < pairs.len() ==> {
                &&& map_of(pairs).contains_key((#[trigger] pairs[i]).0)
                &&& map_of(pairs)[pairs[i].0] == pairs[i].1
            },
{
    assert forall|i: int, j: int| 0 <= i < j < pairs.len() implies (#[trigger] pairs[i]).0 != (
    #[trigger] pairs[j]).0 by {
        K::order_is_irreflexive(pairs[i].0);
    }
    map_of_binds(pairs);
}

/// The ascending sequence of a map is unique.
pub proof fn ascending_is_unique<K: Ordered, B>(a: Seq<(K::V, B)>, b: Seq<(K::V, B)>)
    requires
        ascends::<K, B>(a),
        ascends::<K, B>(b),
        map_of(a) == map_of(b),
    ensures
        a == b,
    decreases a.len(),
{
    ascending_map_binds::<K, B>(a);
    ascending_map_binds::<K, B>(b);
    if a.len() > 0 {
        let m = a.len() - 1;
        let j = choose|j: int| 0 <= j < b.len() && (#[trigger] b[j]).0 == a[m].0;
        let i = choose|i: int| 0 <= i < a.len() && (#[trigger] a[i]).0 == b[m].0;
        if j < m && i < m {
            K::order_is_transitive(a[i].0, a[m].0, b[m].0);
            K::order_is_irreflexive(a[i].0);
        }
        assert(map_of(a.drop_last()) =~= map_of(a).remove(a[m].0)) by {
            ascending_map_binds::<K, B>(a.drop_last());
        }
        assert(map_of(b.drop_last()) =~= map_of(b).remove(b[m].0)) by {
            ascending_map_binds::<K, B>(b.drop_last());
        }
        ascending_is_unique::<K, B>(a.drop_last(), b.drop_last());
        assert(a =~= a.drop_last().push(a[m]));
    }
}

/// An ascending sequence is the ascending sequence of its map.
pub proof fn ascending_of_map<K: Ordered, B>(pairs: Seq<(K::V, B)>)
    requires
        ascends::<K, B>(pairs),
    ensures
        ascending::<K, B>(map_of(pairs)) == pairs,
{
    ascending_is_unique::<K, B>(ascending::<K, B>(map_of(pairs)), pairs);
}

/// Whether `at` is the place of `key` in an ascending sequence: the keys ahead of it come before
/// `key`, and none of the others does.
pub open spec fn is_place<K: Ordered, B>(pairs: Seq<(K::V, B)>, key: K::V, at: int) -> bool {
    &&& 0 <= at <= pairs.len()
    &&& forall|i: int| 0 <= i < at ==> K::precedes((#[trigger] pairs[i]).0, key)
    &&& forall|i: int| at <= i < pairs.len() ==> !K::precedes((#[trigger] pairs[i]).0, key)
}

/// The sequence with `key` bound to `value`, where `at` is the place of `key`.
pub open spec fn bound_at<K: Ordered, B>(
    pairs: Seq<(K::V, B)>,
    key: K::V,
    value: B,
    at: int,
) -> Seq<(K::V, B)> {
    if at < pairs.len() && pairs[at].0 == key {
        pairs.update(at, (key, value))
    } else {
        pairs.insert(at, (key, value))
    }
}

/// Binding a key at its place keeps the order and binds the key in the map.
pub proof fn binding_keeps_order<K: Ordered, B>(
    pairs: Seq<(K::V, B)>,
    key: K::V,
    value: B,
    at: int,
)
    requires
        ascends::<K, B>(pairs),
        is_place::<K, B>(pairs, key, at),
    ensures
        ascends::<K, B>(bound_at::<K, B>(pairs, key, value, at)),
        map_of(bound_at::<K, B>(pairs, key, value, at)) == map_of(pairs).insert(key, value),
        map_of(pairs).contains_key(key) <==> at < pairs.len() && pairs[at].0 == key,
{
    let after = bound_at::<K, B>(pairs, key, value, at);
    let here = at < pairs.len() && pairs[at].0 == key;
    ascending_map_binds::<K, B>(pairs);
    assert forall|i: int| 0 <= i < pairs.len() && !(here && i == at) implies (
    #[trigger] pairs[i]).0 != key by {
        K::order_is_irreflexive(key);
        if here && i > at {
            K::order_is_irreflexive(pairs[at].0);
        }
    }
    if !here {
        assert forall|i: int| at <= i < pairs.len() implies K::precedes(
            key,
            (#[trigger] pairs[i]).0,
        ) by {
            K::order_is_total(key, pairs[i].0);
        }
    }
    ascending_map_binds::<K, B>(after);
    let goal = map_of(pairs).insert(key, value);
    assert(after[at] == (key, value));
    assert forall|k: K::V| #[trigger] map_of(after).contains_key(k) <==> goal.contains_key(k) by {
        if goal.contains_key(k) && k != key {
            let i = choose|i: int| 0 <= i < pairs.len() && (#[trigger] pairs[i]).0 == k;
            let new_i = if here || i < at { i } else { i + 1 };
            assert(after[new_i] == pairs[i]);
        }
    }
}

/// Taking a pair out keeps the order and takes its key out of the map.
pub proof fn removing_unbinds<K: Ordered, B>(pairs: Seq<(K::V, B)>, at: int)
    requires
        ascends::<K, B>(pairs),
        0 <= at < pairs.len(),
    ensures
        ascends::<K, B>(pairs.remove(at)),
        map_of(pairs.remove(at)) == map_of(pairs).remove(pairs[at].0),
{
    let after = pairs.remove(at);
    ascending_map_binds::<K, B>(pairs);
    ascending_map_binds::<K, B>(after);
    let goal = map_of(pairs).remove(pairs[at].0);
    assert forall|k: K::V| #[trigger] map_of(after).contains_key(k) <==> goal.contains_key(k) by {
        if goal.contains_key(k) {
            let i = choose|i: int| 0 <= i < pairs.len() && (#[trigger] pairs[i]).0 == k;
            let new_i = if i < at { i } else { i - 1 };
            assert(after[new_i] == pairs[i]);
        }
    }
}

/// Every key has a place in an ascending sequence.
proof fn place_exists<K: Ordered, B>(pairs: Seq<(K::V, B)>, key: K::V) -> (at: int)
    requires
        ascends::<K, B>(pairs),
    ensures
        is_place::<K, B>(pairs, key, at),
    decreases pairs.len(),
{
    if pairs.len() == 0 {
        0
    } else {
        let last = pairs.len() - 1;
        let init = pairs.drop_last();
        if K::precedes(pairs[last].0, key) {
            assert forall|i: int| 0 <= i < pairs.len() implies K::precedes(
                (#[trigger] pairs[i]).0,
                key,
            ) by {
                if i < last {
                    K::order_is_transitive(pairs[i].0, pairs[last].0, key);
                }
            }
            pairs.len() as int
        } else {
            let at = place_exists::<K, B>(init, key);
            assert forall|i: int| 0 <= i < at implies K::precedes((#[trigger] pairs[i]).0, key) by {
                assert(init[i] == pairs[i]);
            }
            assert forall|i: int| at <= i < pairs.len() implies !K::precedes(
                (#[trigger] pairs[i]).0,
                key,
            ) by {
                if i < last {
                    assert(init[i] == pairs[i]);
                }
            }
            at
        }
    }
}

/// Every finite map has an ascending sequence.
pub proof fn ascending_exists<K: Ordered, B>(m: Map<K::V, B>)
    requires
        m.dom().finite(),
    ensures
        ascends::<K, B>(ascending::<K, B>(m)),
        map_of(ascending::<K, B>(m)) == m,
    decreases m.dom().len(),
{
    if m.dom().len() == 0 {
        let pairs = Seq::<(K::V, B)>::empty();
        assert(ascends::<K, B>(pairs) && map_of(pairs) == m);
    } else {
        let key = m.dom().choose();
        let rest = m.remove(key);
        ascending_exists::<K, B>(rest);
        let pairs = ascending::<K, B>(rest);
        let at = place_exists::<K, B>(pairs, key);
        binding_keeps_order::<K, B>(pairs, key, m[key], at);
        assert(rest.insert(key, m[key]) =~= m);
    }
}

/// A key that can be copied.
pub trait Key: Ordered {
    fn duplicate(&self) -> (r: Self)
        ensures
            r@ == self@,
    ;
}

impl Key for u64 {
    fn duplicate(&self) -> (r: Self) {
        *self
    }
}

impl Key for String {
    fn duplicate(&self) -> (r: Self) {
        self.clone()
    }
}

/// A map from ordered keys to values.
#[derive(Debug, PartialEq, Eq)]
pub struct SortedMap<K: Ordered, V: View> {
    items: Vec<(K, V)>,
}

impl<K: Ordered, V: View> SortedMap<K, V> {
    /// The pairs in the order in which they are kept.
    pub closed spec fn pairs(&self) -> Seq<(K::V, V::V)> {
        self.items@.map_values(|p: (K, V)| (p.0@, p.1@))
    }

    #[verifier::type_invariant]
    spec fn keys_ascend(&self) -> bool {
        ascends::<K, V::V>(self.pairs())
    }

    /// A map without entries.
    pub(crate) fn new() -> (r: Self)
        ensures
            r@ == Map::<K::V, V::V>::empty(),
    {
        let r = SortedMap { items: Vec::new() };
        r
    }

    /// The number of entries.
    pub fn len(&self) -> (r: usize)
        ensures
            r == self@.len(),
            r == self.pairs().len(),
            ascends::<K, V::V>(self.pairs()),
            self.pairs() == ascending::<K, V::V>(self@),
            self@.dom().finite(),
    {
        proof {
            use_type_invariant(self);
            ascending_map_binds::<K, V::V>(self.pairs());
            ascending_of_map::<K, V::V>(self.pairs());
        }
        self.items.len()
    }

    /// Whether there are no entries.
    pub fn is_empty(&self) -> (r: bool)
        ensures
            r == (self@ == Map::<K::V, V::V>::empty()),
    {
        let n: usize = self.len();
        n == 0
    }

    /// The key of the entry at the given position.
    pub fn key_at(&self, at: usize) -> (r: &K)
        requires
            at < self.pairs().len(),
        ensures
            r@ == self.pairs()[at as int].0,
    {
        &self.items[at].0
    }

    /// The value of the entry at the given position.
    pub fn value_at(&self, at: usize) -> (r: &V)
        requires
            at < self.pairs().len(),
        ensures
            r@ == self.pairs()[at as int].1,
    {
        &self.items[at].1
    }

    /// The place of a key.
    fn place(&self, key: &K) -> (r: usize)
        ensures
            is_place::<K, V::V>(self.pairs(), key@, r as int),
    {
        proof {
            use_type_invariant(self);
        }
        let mut at: usize = 0;
        while at < self.items.len() && self.items[at].0.is_before(key)
            invariant
                at <= self.items@.len(),
                forall|i: int| 0 <= i < at ==> K::precedes((#[trigger] self.pairs()[i]).0, key@),
            decreases self.items@.len() - at,
        {
            at += 1;
        }
        proof {
            let pairs = self.pairs();
            assert forall|i: int| at <= i < pairs.len() implies !K::precedes(
                (#[trigger] pairs[i]).0,
                key@,
            ) by {
                if i > at && K::precedes(pairs[i].0, key@) {
                    K::order_is_transitive(pairs[at as int].0, pairs[i].0, key@);
                }
            }
        }
        at
    }

    /// The value bound to a key.
    pub fn find(&self, key: &K) -> (r: Option<&V>)
        ensures
            r matches Some(v) ==> self@.contains_key(key@) && v@ == self@[key@],
            r is None ==> !self@.contains_key(key@),
    {
        let at: usize = self.place(key);
        proof {
            use_type_invariant(self);
            ascending_map_binds::<K, V::V>(self.pairs());
            K::order_is_irreflexive(key@);
            if at < self.pairs().len() {
                binding_keeps_order::<K, V::V>(
                    self.pairs(),
                    key@,
                    self.pairs()[at as int].1,
                    at as int,
                );
                K::order_is_total(key@, self.pairs()[at as int].0);
            }
        }
        if at < self.items.len() && !key.is_before(&self.items[at].0) {
            Some(&self.items[at].1)
        } else {
            None
        }
    }

    /// Binds a key to a value, in place of the value that it had.
    pub(crate) fn put(&mut self, key: K, value: V)
        ensures
            final(self)@ == old(self)@.insert(key@, value@),
    {
        proof {
            use_type_invariant(&*self);
        }
        let at: usize = self.place(&key);
        let ghost before = self.pairs();
        let ghost k = key@;
        let ghost v = value@;
        proof {
            binding_keeps_order::<K, V::V>(before, k, v, at as int);
        }
        let mut items: Vec<(K, V)> = Vec::new();
        std::mem::swap(&mut items, &mut self.items);
        let here = at < items.len() && !key.is_before(&items[at].0);
        proof {
            K::order_is_irreflexive(k);
            if at < before.len() {
                K::order_is_total(k, before[at as int].0);
            }
        }
        if here {
            items.set(at, (key, value));
        } else {
            items.insert(at, (key, value));
        }
        assert(items@.map_values(|p: (K, V)| (p.0@, p.1@)) =~= bound_at::<K, V::V>(
            before,
            k,
            v,
            at as int,
        ));
        self.items = items;
    }

    /// Takes a key, and the value bound to it, out of the map.
    pub(crate) fn remove(&mut self, key: &K)
        ensures
            final(self)@ == old(self)@.remove(key@),
    {
        proof {
            use_type_invariant(&*self);
        }
        let at: usize = self.place(key);
        let ghost before = self.pairs();
        proof {
            ascending_map_binds::<K, V::V>(before);
            K::order_is_irreflexive(key@);
            if at < before.len() {
                binding_keeps_order::<K, V::V>(before, key@, before[at as int].1, at as int);
                K::order_is_total(key@, before[at as int].0);
            }
        }
        if at < self.items.len() && !key.is_before(&self.items[at].0) {
            let mut items: Vec<(K, V)> = Vec::new();
            std::mem::swap(&mut items, &mut self.items);
            items.remove(at);
            proof {
                let after = items@.map_values(|p: (K, V)| (p.0@, p.1@));
                assert(after =~= before.remove(at as int));
                removing_unbinds::<K, V::V>(before, at as int);
            }
            self.items = items;
        }
    }
}

/// The models of a list of pairs.
pub open spec fn pair_views<K: View, V: View>(pairs: Seq<(K, V)>) -> Seq<(K::V, V::V)> {
    pairs.map_values(|p: (K, V)| (p.0@, p.1@))
}

impl<K: Key, V: Key> SortedMap<K, V> {
    /// The map that a list of pairs writes, a later pair replacing an earlier one of its key.
    pub fn from_pairs(pairs: &[(K, V)]) -> (r: Self)
        ensures
            r@ == map_of(pair_views(pairs@)),
    {
        let ghost all = pair_views(pairs@);
        let mut map = SortedMap::new();
        let mut i: usize = 0;
        while i < pairs.len()
            invariant
                i <= pairs@.len(),
                all == pair_views(pairs@),
                map@ == map_of(all.take(i as int)),
            decreases pairs@.len() - i,
        {
            map.put(pairs[i].0.duplicate(), pairs[i].1.duplicate());
            assert(all.take(i + 1).drop_last() =~= all.take(i as int));
            i += 1;
        }
        assert(all.take(pairs@.len() as int) =~= all);
        map
    }
}

impl<K: Key, V: Key> Clone for SortedMap<K, V> {
    fn clone(&self) -> (r: Self)
        ensures
            r@ == self@,
    {
        proof {
            use_type_invariant(self);
        }
        let mut items: Vec<(K, V)> = Vec::new();
        let mut i: usize = 0;
        while i < self.items.len()
            invariant
                i <= self.items@.len(),
                items@.map_values(|p: (K, V)| (p.0@, p.1@)) == self.pairs().take(i as int),
            decreases self.items@.len() - i,
        {
            let ghost before = items@.map_values(|p: (K, V)| (p.0@, p.1@));
            items.push((self.items[i].0.duplicate(), self.items[i].1.duplicate()));
            assert(items@.map_values(|p: (K, V)| (p.0@, p.1@)) =~= before.push(
                self.pairs()[i as int],
            ));
            i += 1;
        }
        assert(self.pairs().take(self.items@.len() as int) =~= self.pairs());
        SortedMap { items }
    }
}

impl<K: Ordered, V: View> View for SortedMap<K, V> {
    type V = Map<K::V, V::V>;

    open spec fn view(&self) -> Map<K::V, V::V> {
        map_of(self.pairs())
    }
}

} // verus!
