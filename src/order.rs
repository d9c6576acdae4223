//! Sorting by a total order that a type states over its view.
use vstd::prelude::*;
use vstd::relations::{sorted_by, total_ordering};

verus! {

broadcast use vstd::seq_lib::group_to_multiset_ensures, vstd::multiset::group_multiset_axioms;

/// A type whose values are ordered by a total order on their views.
pub trait Ordered: View + Sized {
    /// Whether `a` may stand before `b`.
    spec fn le(a: Self::V, b: Self::V) -> bool;

    /// `le` is a total order.
    proof fn lemma_le_total()
        ensures
            total_ordering(|a: Self::V, b: Self::V| Self::le(a, b)),
    ;

    /// Whether `self` may stand before `other`.
    fn precedes(&self, other: &Self) -> (r: bool)
        ensures
            r == Self::le(self@, other@),
    ;
}

/// The order of `T` as a closure.
pub open spec fn order_of<T: Ordered>() -> spec_fn(T::V, T::V) -> bool {
    |a: T::V, b: T::V| T::le(a, b)
}

/// The views of a sequence of values.
pub open spec fn views<T: View>(s: Seq<T>) -> Seq<T::V> {
    s.map_values(|x: T| x@)
}

/// Sorts `v` by the order of `T`; values that compare equal keep no
/// particular order, but the order is total, so the result is unique.
pub fn sort_values<T: Ordered>(v: Vec<T>) -> (r: Vec<T>)
    ensures
        views(r@) == views(v@).sort_by(order_of::<T>()),
{
    let ghost to_sort = views(v@);
    let mut pending = v;
    let mut sorted: Vec<T> = Vec::new();
    proof {
        T::lemma_le_total();
    }
    assert(views(sorted@).to_multiset().add(views(pending@).to_multiset()) =~= to_sort.to_multiset());
    while pending.len() > 0
        invariant
            total_ordering(order_of::<T>()),
            sorted_by(views(sorted@), order_of::<T>()),
            views(sorted@).to_multiset().add(views(pending@).to_multiset())
                == to_sort.to_multiset(),
        decreases pending.len(),
    {
        let ghost pending_before = views(pending@);
        let e = pending.remove(0);
        assert(views(pending@) =~= pending_before.remove(0));
        let mut pos: usize = 0;
        while pos < sorted.len() && sorted[pos].precedes(&e)
            invariant
                pos <= sorted.len(),
                forall|j: int| 0 <= j < pos ==> T::le(sorted@[j]@, e@),
            decreases sorted.len() - pos,
        {
            pos = pos + 1;
        }
        let ghost old_sorted = views(sorted@);
        let ghost ord = order_of::<T>();
        proof {
            if pos < sorted.len() {
                assert(ord(e@, old_sorted[pos as int]) || ord(old_sorted[pos as int], e@));
            }
        }
        sorted.insert(pos, e);
        assert(views(sorted@) =~= old_sorted.insert(pos as int, e@));
        proof {
            vstd::seq_lib::to_multiset_insert(old_sorted, pos as int, e@);
            let s = views(sorted@);
            assert forall|i: int, j: int| 0 <= i < j < s.len() implies #[trigger] ord(s[i], s[j]) by {
                if j < pos {
                    assert(s[i] == old_sorted[i] && s[j] == old_sorted[j]);
                    assert(ord(old_sorted[i], old_sorted[j]));
                } else if i < pos && j == pos {
                    assert(s[i] == old_sorted[i]);
                    assert(T::le(sorted@[i]@, e@));
                } else if i < pos {
                    assert(s[i] == old_sorted[i] && s[j] == old_sorted[j - 1]);
                    assert(ord(old_sorted[i], old_sorted[j - 1]));
                } else if i == pos {
                    assert(s[j] == old_sorted[j - 1]);
                    assert(ord(e@, old_sorted[pos as int]));
                    if j - 1 > pos {
                        assert(ord(old_sorted[pos as int], old_sorted[j - 1]));
                        assert(ord(e@, old_sorted[j - 1]));
                    }
                } else {
                    assert(s[i] == old_sorted[i - 1] && s[j] == old_sorted[j - 1]);
                    assert(ord(old_sorted[i - 1], old_sorted[j - 1]));
                }
            }
        }
        assert(views(sorted@).to_multiset().add(views(pending@).to_multiset())
            =~= to_sort.to_multiset()) by {
            vstd::seq_lib::to_multiset_remove(pending_before, 0);
            assert(pending_before[0] == e@);
            assert(views(sorted@).to_multiset() =~= old_sorted.to_multiset().insert(e@));
            assert(pending_before.to_multiset().contains(e@));
        }
    }
    proof {
        to_sort.lemma_sort_by_ensures(order_of::<T>());
        assert(views(pending@) =~= Seq::<T::V>::empty());
        assert(views(sorted@).to_multiset() =~= to_sort.to_multiset());
        vstd::seq_lib::lemma_sorted_unique(
            views(sorted@),
            to_sort.sort_by(order_of::<T>()),
            order_of::<T>(),
        );
    }
    sorted
}

} // verus!
