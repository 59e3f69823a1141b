//! Values with a strict total order, and sorting by it.

use vstd::prelude::*;

use crate::text::{text_is_before, text_precedes};

verus! {

/// A type whose values, taken by their views, stand in a strict total order.
pub trait Ordered: View + Sized {
    /// Whether `a` comes before `b`.
    spec fn precedes(a: Self::V, b: Self::V) -> bool;

    proof fn order_is_irreflexive(a: Self::V)
        ensures
            !Self::precedes(a, a),
    ;

    proof fn order_is_transitive(a: Self::V, b: Self::V, c: Self::V)
        requires
            Self::precedes(a, b),
            Self::precedes(b, c),
        ensures
            Self::precedes(a, c),
    ;

    proof fn order_is_total(a: Self::V, b: Self::V)
        ensures
            a == b || Self::precedes(a, b) || Self::precedes(b, a),
    ;

    fn is_before(&self, other: &Self) -> (r: bool)
        ensures
            r == Self::precedes(self@, other@),
    ;
}

impl Ordered for u64 {
    open spec fn precedes(a: u64, b: u64) -> bool {
        a < b
    }

    proof fn order_is_irreflexive(a: u64) {
    }

    proof fn order_is_transitive(a: u64, b: u64, c: u64) {
    }

    proof fn order_is_total(a: u64, b: u64) {
    }

    fn is_before(&self, other: &Self) -> (r: bool) {
        *self < *other
    }
}

impl Ordered for String {
    open spec fn precedes(a: Seq<char>, b: Seq<char>) -> bool {
        text_precedes(a, b)
    }

    proof fn order_is_irreflexive(a: Seq<char>)
        decreases a.len(),
    {
        if a.len() > 0 {
            Self::order_is_irreflexive(a.skip(1));
        }
    }

    proof fn order_is_transitive(a: Seq<char>, b: Seq<char>, c: Seq<char>)
        decreases a.len(),
    {
        if a.len() > 0 && a[0] == b[0] && b[0] == c[0] {
            Self::order_is_transitive(a.skip(1), b.skip(1), c.skip(1));
        }
    }

    proof fn order_is_total(a: Seq<char>, b: Seq<char>)
        decreases a.len(),
    {
        if a.len() == 0 || b.len() == 0 {
            assert(a.len() == b.len() ==> a =~= b);
        } else if a[0] == b[0] {
            Self::order_is_total(a.skip(1), b.skip(1));
            if a.skip(1) == b.skip(1) {
                assert(a =~= seq![a[0]] + a.skip(1));
                assert(b =~= seq![b[0]] + b.skip(1));
            }
        }
    }

    fn is_before(&self, other: &Self) -> (r: bool) {
        text_is_before(self.as_str(), other.as_str())
    }
}

/// The views of the items of a sequence.
pub open spec fn views<T: View>(s: Seq<T>) -> Seq<T::V> {
    s.map_values(|x: T| x@)
}

/// Whether no item of the sequence comes before one that stands ahead of it.
pub open spec fn in_order<T: Ordered>(s: Seq<T::V>) -> bool {
    forall|i: int, j: int| 0 <= i < j < s.len() ==> !T::precedes(#[trigger] s[j], #[trigger] s[i])
}

/// Only one sequence has given items in order.
pub proof fn order_is_unique<T: Ordered>(a: Seq<T::V>, b: Seq<T::V>)
    requires
        in_order::<T>(a),
        in_order::<T>(b),
        a.to_multiset() == b.to_multiset(),
    ensures
        a == b,
    decreases a.len(),
{
    broadcast use vstd::seq_lib::group_to_multiset_ensures;

    assert(a.to_multiset().len() == a.len() && b.to_multiset().len() == b.len());
    if a.len() > 0 {
        let m = a.len() - 1;
        assert(b.to_multiset().contains(a[m]));
        assert(a.to_multiset().contains(b[m]));
        T::order_is_total(a[m], b[m]);
        assert(a =~= a.drop_last().push(a[m]));
        assert(b =~= b.drop_last().push(b[m]));
        assert(a.drop_last().to_multiset() =~= a.to_multiset().remove(a[m]));
        assert(b.drop_last().to_multiset() =~= b.to_multiset().remove(b[m]));
        order_is_unique::<T>(a.drop_last(), b.drop_last());
    }
}

/// Every sequence can be put in order.
pub proof fn order_exists<T: Ordered>(s: Seq<T::V>) -> (t: Seq<T::V>)
    ensures
        in_order::<T>(t),
        t.to_multiset() == s.to_multiset(),
{
    let leq = |a: T::V, b: T::V| !T::precedes(b, a);
    assert(vstd::relations::total_ordering(leq)) by {
        assert forall|x: T::V, y: T::V| #[trigger] leq(x, y) && #[trigger] leq(y, x) implies x == y by {
            T::order_is_total(x, y);
        }
        assert forall|x: T::V, y: T::V, z: T::V| #[trigger] leq(x, y) && #[trigger] leq(y, z) implies leq(
            x,
            z,
        ) by {
            T::order_is_total(x, y);
            T::order_is_total(y, z);
            if T::precedes(z, x) {
                if T::precedes(x, y) {
                    T::order_is_transitive(z, x, y);
                }
            }
        }
        assert forall|x: T::V, y: T::V| #[trigger] leq(x, y) || #[trigger] leq(y, x) by {
            if T::precedes(x, y) && T::precedes(y, x) {
                T::order_is_transitive(x, y, x);
                T::order_is_irreflexive(x);
            }
        }
    }
    s.lemma_sort_by_ensures(leq);
    let t = s.sort_by(leq);
    assert forall|i: int, j: int| 0 <= i < j < t.len() implies !T::precedes(
        #[trigger] t[j],
        #[trigger] t[i],
    ) by {
        assert(leq(t[i], t[j]));
    }
    t
}

/// Merges two sorted sequences into one.
fn merged<T: Ordered>(left: Vec<T>, right: Vec<T>) -> (r: Vec<T>)
    requires
        in_order::<T>(views(left@)),
        in_order::<T>(views(right@)),
    ensures
        in_order::<T>(views(r@)),
        views(r@).to_multiset() == views(left@).to_multiset().add(views(right@).to_multiset()),
{
    let mut a = left;
    let mut b = right;
    // The merged items, greatest first.
    let mut out: Vec<T> = Vec::new();
    let ghost all = views(a@).to_multiset().add(views(b@).to_multiset());
    proof {
        broadcast use vstd::seq_lib::group_to_multiset_ensures;
    }
    while a.len() > 0 || b.len() > 0
        invariant
            in_order::<T>(views(a@)),
            in_order::<T>(views(b@)),
            in_order::<T>(views(out@).reverse()),
            forall|i: int, j: int|
                0 <= i < a@.len() && 0 <= j < out@.len() ==> !T::precedes(
                    #[trigger] out@[j]@,
                    #[trigger] a@[i]@,
                ),
            forall|i: int, j: int|
                0 <= i < b@.len() && 0 <= j < out@.len() ==> !T::precedes(
                    #[trigger] out@[j]@,
                    #[trigger] b@[i]@,
                ),
            all == views(a@).to_multiset().add(views(b@).to_multiset()).add(
                views(out@).to_multiset(),
            ),
        decreases a@.len() + b@.len(),
    {
        broadcast use vstd::seq_lib::group_to_multiset_ensures;
        let ghost a0 = views(a@);
        let ghost b0 = views(b@);
        let ghost out0 = views(out@);
        let from_left = if a.len() == 0 {
            false
        } else if b.len() == 0 {
            true
        } else {
            b[b.len() - 1].is_before(&a[a.len() - 1])
        };
        let item = if from_left {
            a.pop()
        } else {
            b.pop()
        };
        if let Some(x) = item {
            proof {
                if from_left {
                    assert(x@ == a0.last());
                    assert(a0 =~= views(a@).push(x@));
                    assert(views(a@) =~= a0.drop_last());
                    assert forall|j: int| 0 <= j < b@.len() implies !T::precedes(x@, #[trigger] b@[j]@) by {
                        if T::precedes(x@, b@[j]@) {
                            T::order_is_transitive(b0.last(), x@, b0[j]);
                            if j == b0.len() - 1 {
                                T::order_is_irreflexive(b0.last());
                            }
                        }
                    }
                    assert forall|j: int| 0 <= j < a@.len() implies !T::precedes(x@, #[trigger] a@[j]@) by {
                        assert(a0[j] == a@[j]@);
                    }
                } else {
                    assert(x@ == b0.last());
                    assert(b0 =~= views(b@).push(x@));
                    assert(views(b@) =~= b0.drop_last());
                    assert forall|j: int| 0 <= j < a@.len() implies !T::precedes(x@, #[trigger] a@[j]@) by {
                        let top = a0.last();
                        if T::precedes(x@, a0[j]) {
                            T::order_is_total(top, a0[j]);
                            if a0[j] != top {
                                T::order_is_transitive(x@, a0[j], top);
                            }
                        }
                    }
                    assert forall|j: int| 0 <= j < b@.len() implies !T::precedes(x@, #[trigger] b@[j]@) by {
                        assert(b0[j] == b@[j]@);
                    }
                }
            }
            out.push(x);
            proof {
                assert(views(out@) =~= out0.push(x@));
                assert(views(out@).reverse() =~= seq![x@] + out0.reverse());
            }
        }
    }
    let mut r: Vec<T> = Vec::new();
    let ghost full = views(out@);
    while out.len() > 0
        invariant
            views(r@) + views(out@).reverse() == full.reverse(),
        decreases out@.len(),
    {
        if let Some(x) = out.pop() {
            r.push(x);
        }
    }
    proof {
        broadcast use vstd::seq_lib::group_to_multiset_ensures;

        full.lemma_reverse_to_multiset();
    }
    r
}

/// The given items, sorted.
pub fn sorted<T: Ordered>(items: Vec<T>) -> (r: Vec<T>)
    ensures
        in_order::<T>(views(r@)),
        views(r@).to_multiset() == views(items@).to_multiset(),
    decreases items@.len(),
{
    if items.len() <= 1 {
        return items;
    }
    let ghost whole = views(items@);
    let mut left = items;
    let middle: usize = left.len() / 2;
    let right = left.split_off(middle);
    proof {
        broadcast use vstd::seq_lib::group_to_multiset_ensures;

        assert(whole =~= views(left@) + views(right@));
        vstd::seq_lib::lemma_multiset_commutative(views(left@), views(right@));
    }
    let low = sorted(left);
    let high = sorted(right);
    merged(low, high)
}

/// Sequences that hold the same items still do when each item is replaced in the same way.
pub proof fn mapping_keeps_items<A, B>(s: Seq<A>, t: Seq<A>, f: spec_fn(A) -> B)
    requires
        s.to_multiset() == t.to_multiset(),
    ensures
        s.map_values(f).to_multiset() == t.map_values(f).to_multiset(),
    decreases s.len(),
{
    broadcast use vstd::seq_lib::group_to_multiset_ensures;

    assert(s.to_multiset().len() == s.len() && t.to_multiset().len() == t.len());
    if s.len() > 0 {
        let x = s.last();
        assert(t.to_multiset().contains(x));
        let j = choose|j: int| 0 <= j < t.len() && t[j] == x;
        let rest = t.remove(j);
        assert(s =~= s.drop_last().push(x));
        assert(s.drop_last().to_multiset() =~= s.to_multiset().remove(x));
        mapping_keeps_items(s.drop_last(), rest, f);
        assert(s.map_values(f) =~= s.drop_last().map_values(f).push(f(x)));
        assert(t.map_values(f).remove(j) =~= rest.map_values(f));
    }
}

/// Of the items of a sequence, those that are kept are kept as often as they stand there.
pub proof fn keeping_counts<A>(s: Seq<A>, keep: spec_fn(A) -> bool, item: A)
    ensures
        s.filter(keep).to_multiset().count(item) == if keep(item) {
            s.to_multiset().count(item)
        } else {
            0
        },
    decreases s.len(),
{
    broadcast use vstd::seq_lib::group_to_multiset_ensures;

    reveal(Seq::filter);
    if s.len() > 0 {
        keeping_counts(s.drop_last(), keep, item);
        assert(s =~= s.drop_last().push(s.last()));
    }
}

/// Sequences that hold the same items hold as many of those that are kept.
pub proof fn keeping_as_many<A>(s: Seq<A>, t: Seq<A>, keep: spec_fn(A) -> bool)
    requires
        s.to_multiset() == t.to_multiset(),
    ensures
        s.filter(keep).to_multiset() == t.filter(keep).to_multiset(),
        s.filter(keep).len() == t.filter(keep).len(),
{
    broadcast use vstd::seq_lib::group_to_multiset_ensures;

    assert forall|item: A| #[trigger]
        s.filter(keep).to_multiset().count(item) == t.filter(keep).to_multiset().count(item) by {
        keeping_counts(s, keep, item);
        keeping_counts(t, keep, item);
    }
    assert(s.filter(keep).to_multiset() =~= t.filter(keep).to_multiset());
    assert(s.filter(keep).to_multiset().len() == s.filter(keep).len());
    assert(t.filter(keep).to_multiset().len() == t.filter(keep).len());
}

} // verus!
