//! A stable sort, and what holds of its result.

use vstd::prelude::*;
use crate::lua_cats::views_of;

verus! {

/// Values that are put in order by a rank, which several values may share.
pub trait Ranked: View + Sized {
    /// Whether `a` may stand before `b`: the rank of `a` is at most that of
    /// `b`.
    spec fn before(a: Self::V, b: Self::V) -> bool;

    /// Of two values one may stand before the other.
    proof fn lemma_before_total(a: Self::V, b: Self::V)
        ensures
            Self::before(a, b) || Self::before(b, a),
    ;

    /// What may stand before a value may stand before all that this value
    /// may stand before.
    proof fn lemma_before_transitive(a: Self::V, b: Self::V, c: Self::V)
        requires
            Self::before(a, b),
            Self::before(b, c),
        ensures
            Self::before(a, c),
    ;

    /// Whether `self` may stand before `other`.
    fn precedes(&self, other: &Self) -> (yes: bool)
        ensures
            yes == Self::before(self@, other@),
    ;
}

/// `sorted` with `x` put behind the last item that may stand before it.
pub open spec fn inserted<T: Ranked>(sorted: Seq<T::V>, x: T::V) -> Seq<T::V>
    decreases sorted.len(),
{
    if sorted.len() == 0 {
        seq![x]
    } else if T::before(sorted.last(), x) {
        sorted.push(x)
    } else {
        inserted::<T>(sorted.drop_last(), x).push(sorted.last())
    }
}

/// The items in the order of their ranks, items of one rank in the order
/// in which they came.
pub open spec fn stable_sorted<T: Ranked>(items: Seq<T::V>) -> Seq<T::V>
    decreases items.len(),
{
    if items.len() == 0 {
        Seq::empty()
    } else {
        inserted::<T>(stable_sorted::<T>(items.drop_last()), items.last())
    }
}

/// Whether each item may stand before all that follow it.
pub open spec fn ordered<T: Ranked>(items: Seq<T::V>) -> bool {
    forall|i: int, j: int| 0 <= i < j < items.len() ==> T::before(items[i], items[j])
}

/// Where `inserted` puts `x`: behind item `at - 1`, which may stand before
/// it, and before every later item, none of which may.
pub proof fn lemma_inserted_at<T: Ranked>(sorted: Seq<T::V>, x: T::V, at: int)
    requires
        0 <= at <= sorted.len(),
        at > 0 ==> T::before(sorted[at - 1], x),
        forall|k: int| at <= k < sorted.len() ==> !T::before(sorted[k], x),
    ensures
        inserted::<T>(sorted, x) == sorted.insert(at, x),
    decreases sorted.len(),
{
    if sorted.len() == 0 {
        assert(sorted.insert(at, x) =~= seq![x]);
    } else if at == sorted.len() {
        assert(sorted.insert(at, x) =~= sorted.push(x));
    } else {
        lemma_inserted_at::<T>(sorted.drop_last(), x, at);
        assert(sorted.drop_last().insert(at, x).push(sorted.last()) =~= sorted.insert(at, x));
    }
}

/// Inserting into an ordered sequence leaves it ordered, and adds one
/// item to what it holds.
pub proof fn lemma_inserted<T: Ranked>(sorted: Seq<T::V>, x: T::V)
    requires
        ordered::<T>(sorted),
    ensures
        ordered::<T>(inserted::<T>(sorted, x)),
        inserted::<T>(sorted, x).to_multiset() == sorted.to_multiset().insert(x),
        inserted::<T>(sorted, x).len() == sorted.len() + 1,
    decreases sorted.len(),
{
    broadcast use vstd::seq_lib::group_to_multiset_ensures;

    let out = inserted::<T>(sorted, x);
    if sorted.len() == 0 {
        assert(sorted =~= Seq::empty());
        assert(out =~= Seq::<T::V>::empty().push(x));
    } else if T::before(sorted.last(), x) {
        assert forall|i: int, j: int| 0 <= i < j < out.len() implies T::before(out[i], out[j]) by {
            if j == sorted.len() && i < sorted.len() - 1 {
                T::lemma_before_transitive(sorted[i], sorted.last(), x);
            }
        }
    } else {
        let rest = sorted.drop_last();
        let inner = inserted::<T>(rest, x);
        lemma_inserted::<T>(rest, x);
        T::lemma_before_total(sorted.last(), x);
        assert(sorted =~= rest.push(sorted.last()));
        assert forall|i: int, j: int| 0 <= i < j < out.len() implies T::before(out[i], out[j]) by {
            if j == inner.len() {
                // Every item of `inner` is `x` or an item of `rest`.
                assert(inner.to_multiset().count(inner[i]) > 0);
                if inner[i] != x {
                    assert(rest.to_multiset().count(inner[i]) > 0);
                    let k = choose|k: int| 0 <= k < rest.len() && rest[k] == inner[i];
                    assert(T::before(sorted[k], sorted[sorted.len() - 1]));
                }
            }
        }
        assert(out.to_multiset() =~= sorted.to_multiset().insert(x));
    }
}

/// The sorted sequence is ordered and holds what the items hold, each as
/// often.
pub proof fn lemma_stable_sorted<T: Ranked>(items: Seq<T::V>)
    ensures
        ordered::<T>(stable_sorted::<T>(items)),
        stable_sorted::<T>(items).to_multiset() == items.to_multiset(),
        stable_sorted::<T>(items).len() == items.len(),
    decreases items.len(),
{
    broadcast use vstd::seq_lib::group_to_multiset_ensures;

    if items.len() > 0 {
        lemma_stable_sorted::<T>(items.drop_last());
        lemma_inserted::<T>(stable_sorted::<T>(items.drop_last()), items.last());
        assert(items =~= items.drop_last().push(items.last()));
    } else {
        assert(items =~= Seq::empty());
    }
}

/// Whether two values have one rank: each may stand before the other.
pub open spec fn same_rank<T: Ranked>(a: T::V, b: T::V) -> bool {
    T::before(a, b) && T::before(b, a)
}

/// The items that have the rank of `x`, in their order.
pub open spec fn of_rank<T: Ranked>(items: Seq<T::V>, x: T::V) -> Seq<T::V>
    decreases items.len(),
{
    if items.len() == 0 {
        Seq::empty()
    } else if same_rank::<T>(items.last(), x) {
        of_rank::<T>(items.drop_last(), x).push(items.last())
    } else {
        of_rank::<T>(items.drop_last(), x)
    }
}

/// Inserting `y` puts it behind the items of its own rank, and leaves the
/// items of every other rank as they stand.
pub proof fn lemma_inserted_of_rank<T: Ranked>(sorted: Seq<T::V>, y: T::V, x: T::V)
    ensures
        of_rank::<T>(inserted::<T>(sorted, y), x) == if same_rank::<T>(y, x) {
            of_rank::<T>(sorted, x).push(y)
        } else {
            of_rank::<T>(sorted, x)
        },
    decreases sorted.len(),
{
    let out = inserted::<T>(sorted, y);
    if sorted.len() == 0 {
        assert(out.drop_last() =~= sorted);
    } else if T::before(sorted.last(), y) {
        assert(out.drop_last() =~= sorted);
    } else {
        let rest = sorted.drop_last();
        let last = sorted.last();
        lemma_inserted_of_rank::<T>(rest, y, x);
        assert(out.drop_last() =~= inserted::<T>(rest, y));
        assert(out.last() == last);
        if same_rank::<T>(y, x) && same_rank::<T>(last, x) {
            T::lemma_before_transitive(last, x, y);
        }
    }
}

/// The sort is stable: the items of one rank stand in the sorted sequence
/// in the order in which they came.
pub proof fn lemma_stable_sorted_keeps_order<T: Ranked>(items: Seq<T::V>, x: T::V)
    ensures
        of_rank::<T>(stable_sorted::<T>(items), x) == of_rank::<T>(items, x),
    decreases items.len(),
{
    if items.len() > 0 {
        lemma_stable_sorted_keeps_order::<T>(items.drop_last(), x);
        lemma_inserted_of_rank::<T>(stable_sorted::<T>(items.drop_last()), items.last(), x);
    }
}

/// Sorts the items by rank, keeping items of one rank in their order.
pub fn stable_sort<T: Ranked>(items: Vec<T>) -> (sorted: Vec<T>)
    ensures
        views_of(sorted@) == stable_sorted::<T>(views_of(items@)),
{
    let ghost all = views_of(items@);
    let mut out: Vec<T> = Vec::new();
    assert(all.take(0) =~= Seq::<T::V>::empty());
    assert(views_of(out@) =~= Seq::<T::V>::empty());
    for x in it: items
        invariant
            it.seq() == items@,
            all == views_of(items@),
            views_of(out@) == stable_sorted::<T>(all.take(it.index() as int)),
    {
        let ghost before = views_of(out@);
        let mut at: usize = out.len();
        while at > 0 && !out[at - 1].precedes(&x)
            invariant
                at <= out.len(),
                before == views_of(out@),
                forall|k: int| at <= k < out.len() ==> !T::before(before[k], x@),
            decreases at,
        {
            at -= 1;
        }
        proof {
            lemma_inserted_at::<T>(before, x@, at as int);
            assert(all.take(it.index() + 1).drop_last() =~= all.take(it.index() as int));
            assert(all.take(it.index() + 1).last() == x@);
        }
        out.insert(at, x);
        assert(views_of(out@) =~= before.insert(at as int, x@));
    }
    assert(all.take(items@.len() as int) =~= all);
    out
}

} // verus!
