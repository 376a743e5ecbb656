//! Sums over observations: how often something was observed, and what the
//! observations weigh together. Such a sum does not depend on the order of
//! the observations.
use vstd::prelude::*;

verus! {

/// The sum of `f` over `items`.
pub open spec fn sum_over<A>(items: Seq<A>, f: spec_fn(A) -> int) -> int
    decreases items.len(),
{
    if items.len() == 0 {
        0
    } else {
        sum_over(items.drop_last(), f) + f(items.last())
    }
}

/// Taking one item out of a sum takes its share out.
pub proof fn lemma_sum_over_remove<A>(items: Seq<A>, f: spec_fn(A) -> int, i: int)
    requires
        0 <= i < items.len(),
    ensures
        sum_over(items, f) == sum_over(items.remove(i), f) + f(items[i]),
    decreases items.len(),
{
    if i == items.len() - 1 {
        assert(items.remove(i) =~= items.drop_last());
    } else {
        lemma_sum_over_remove(items.drop_last(), f, i);
        assert(items.remove(i).drop_last() =~= items.drop_last().remove(i));
        assert(items.remove(i).last() == items.last());
    }
}

/// A sum over items does not depend on their order.
pub proof fn lemma_sum_over_reordered<A>(a: Seq<A>, b: Seq<A>, f: spec_fn(A) -> int)
    requires
        a.to_multiset() == b.to_multiset(),
    ensures
        sum_over(a, f) == sum_over(b, f),
    decreases a.len(),
{
    broadcast use vstd::seq_lib::group_to_multiset_ensures;

    a.to_multiset_ensures();
    b.to_multiset_ensures();
    if a.len() == 0 {
        assert(b.len() == 0);
    } else {
        let x = a.last();
        assert(a.to_multiset().count(x) > 0);
        assert(b.to_multiset().contains(x));
        assert(b.contains(x));
        let j = choose|j: int| 0 <= j < b.len() && b[j] == x;
        let a2 = a.drop_last();
        let b2 = b.remove(j);
        assert(a2 =~= a.remove(a.len() - 1));
        vstd::seq_lib::to_multiset_remove(a, a.len() - 1);
        vstd::seq_lib::to_multiset_remove(b, j);
        assert(a2.to_multiset() =~= b2.to_multiset());
        lemma_sum_over_reordered(a2, b2, f);
        lemma_sum_over_remove(b, f, j);
    }
}

} // verus!
