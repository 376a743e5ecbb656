//! Stable ordering: the places of a list put in the order of their keys, with
//! equal keys left in the order in which they came.
use vstd::prelude::*;

verus! {

/// The place `a` comes before the place `b`: its key is smaller, or the keys
/// are equal and it came first.
pub open spec fn comes_before(keys: Seq<u64>, a: int, b: int) -> bool {
    keys[a] < keys[b] || (keys[a] == keys[b] && a < b)
}

/// `order` lists every place of `keys` once, by rising key, and places of
/// equal keys as they came.
pub open spec fn is_stable_order(keys: Seq<u64>, order: Seq<usize>) -> bool {
    &&& order.len() == keys.len()
    &&& forall|i: int| 0 <= i < order.len() ==> (#[trigger] order[i]) < keys.len()
    &&& forall|i: int, j: int|
        0 <= i < j < order.len() ==> comes_before(keys, order[i] as int, order[j] as int)
    &&& forall|k: usize| k < keys.len() ==> #[trigger] order.contains(k)
}

/// The places of `keys` in stable order.
pub open spec fn stable_order(keys: Seq<u64>) -> Seq<usize> {
    choose|order: Seq<usize>| is_stable_order(keys, order)
}

/// The items in the stable order of their keys.
pub open spec fn arranged<T>(items: Seq<T>, keys: Seq<u64>) -> Seq<T> {
    Seq::new(items.len(), |i: int| items[stable_order(keys)[i] as int])
}

proof fn lemma_same_up_to(keys: Seq<u64>, a: Seq<usize>, b: Seq<usize>, n: int)
    requires
        is_stable_order(keys, a),
        is_stable_order(keys, b),
        0 <= n <= keys.len(),
    ensures
        forall|i: int| 0 <= i < n ==> a[i] == b[i],
    decreases n,
{
    if n > 0 {
        lemma_same_up_to(keys, a, b, n - 1);
        let i = n - 1;
        let x = a[i];
        let y = b[i];
        if x != y {
            assert(b.contains(x));
            let j = choose|j: int| 0 <= j < b.len() && b[j] == x;
            if j < i {
                assert(a[j] == b[j]);
                assert(comes_before(keys, a[j] as int, a[i] as int));
            }
            assert(j > i);
            assert(comes_before(keys, b[i] as int, b[j] as int));
            assert(a.contains(y));
            let k = choose|k: int| 0 <= k < a.len() && a[k] == y;
            if k < i {
                assert(a[k] == b[k]);
                assert(comes_before(keys, b[k] as int, b[i] as int));
            }
            assert(k > i);
            assert(comes_before(keys, a[i] as int, a[k] as int));
        }
    }
}

/// Keys have one stable order.
pub proof fn lemma_stable_order_unique(keys: Seq<u64>, order: Seq<usize>)
    requires
        is_stable_order(keys, order),
    ensures
        stable_order(keys) == order,
{
    lemma_same_up_to(keys, stable_order(keys), order, keys.len() as int);
    assert(stable_order(keys) =~= order);
}

/// No place occurs twice in a stable order.
pub proof fn lemma_stable_order_distinct(keys: Seq<u64>, order: Seq<usize>)
    requires
        is_stable_order(keys, order),
    ensures
        forall|i: int, j: int| 0 <= i < j < order.len() ==> order[i] != order[j],
{
    assert forall|i: int, j: int| 0 <= i < j < order.len() implies order[i] != order[j] by {
        assert(comes_before(keys, order[i] as int, order[j] as int));
    }
}

/// The places of `keys` in stable order.
pub fn sorted_order(keys: &Vec<u64>) -> (order: Vec<usize>)
    ensures
        is_stable_order(keys@, order@),
        order@ == stable_order(keys@),
{
    let mut order: Vec<usize> = Vec::new();
    let mut k: usize = 0;
    while k < keys.len()
        invariant
            k <= keys@.len(),
            order@.len() == k,
            forall|i: int| 0 <= i < order@.len() ==> (#[trigger] order@[i]) < k,
            forall|i: int, j: int|
                0 <= i < j < order@.len() ==> comes_before(
                    keys@,
                    order@[i] as int,
                    order@[j] as int,
                ),
            forall|x: usize| x < k ==> #[trigger] order@.contains(x),
        decreases keys@.len() - k,
    {
        let mut p: usize = 0;
        while p < order.len() && keys[order[p]] <= keys[k]
            invariant
                p <= order@.len(),
                k < keys@.len(),
                forall|i: int| 0 <= i < order@.len() ==> (#[trigger] order@[i]) < k,
                forall|i: int| 0 <= i < p ==> keys@[order@[i] as int] <= keys@[k as int],
            decreases order@.len() - p,
        {
            p += 1;
        }
        let ghost before = order@;
        order.insert(p, k);
        proof {
            let after = order@;
            assert forall|i: int, j: int| 0 <= i < j < after.len() implies comes_before(
                keys@,
                after[i] as int,
                after[j] as int,
            ) by {
                if j < p {
                    assert(after[i] == before[i] && after[j] == before[j]);
                } else if j == p {
                    assert(after[i] == before[i]);
                } else if i < p {
                    assert(after[i] == before[i] && after[j] == before[j - 1]);
                } else if i == p {
                    assert(after[j] == before[j - 1]);
                    assert(comes_before(keys@, before[p as int] as int, before[j - 1] as int)
                        || j - 1 == p);
                } else {
                    assert(after[i] == before[i - 1] && after[j] == before[j - 1]);
                }
            }
            assert forall|x: usize| x < k + 1 implies #[trigger] after.contains(x) by {
                if x == k {
                    assert(after[p as int] == k);
                } else {
                    assert(before.contains(x));
                    let i = choose|i: int| 0 <= i < before.len() && before[i] == x;
                    if i < p {
                        assert(after[i] == x);
                    } else {
                        assert(after[i + 1] == x);
                    }
                }
            }
            assert forall|i: int| 0 <= i < after.len() implies (#[trigger] after[i]) < k + 1 by {
                if i < p {
                    assert(after[i] == before[i]);
                } else if i > p {
                    assert(after[i] == before[i - 1]);
                }
            }
        }
        k += 1;
    }
    proof {
        lemma_stable_order_unique(keys@, order@);
    }
    order
}

/// Puts the items in the stable order of their keys.
pub fn arrange<T>(items: Vec<T>, keys: &Vec<u64>) -> (r: Vec<T>)
    requires
        items@.len() == keys@.len(),
    ensures
        r@ == arranged(items@, keys@),
        is_stable_order(keys@, stable_order(keys@)),
{
    let order = sorted_order(keys);
    proof {
        lemma_stable_order_distinct(keys@, order@);
    }
    let mut held: Vec<Option<T>> = Vec::new();
    for item in it: items
        invariant
            it.seq() == items@,
            held@.len() == it.index(),
            forall|i: int| 0 <= i < held@.len() ==> (#[trigger] held@[i]) == Some(items@[i]),
    {
        held.push(Some(item));
    }
    let mut out: Vec<T> = Vec::new();
    let mut k: usize = 0;
    while k < order.len()
        invariant
            k <= order@.len(),
            order@.len() == items@.len(),
            held@.len() == items@.len(),
            forall|i: int| 0 <= i < order@.len() ==> (#[trigger] order@[i]) < items@.len(),
            forall|i: int, j: int| 0 <= i < j < order@.len() ==> order@[i] != order@[j],
            out@.len() == k,
            forall|i: int| 0 <= i < k ==> (#[trigger] out@[i]) == items@[order@[i] as int],
            forall|i: int|
                k <= i < order@.len() ==> (#[trigger] held@[order@[i] as int]) == Some(
                    items@[order@[i] as int],
                ),
        decreases order@.len() - k,
    {
        let at: usize = order[k];
        let ghost before = held@;
        let taken = held[at].take();
        proof {
            assert forall|i: int| k < i < order@.len() implies (#[trigger] held@[order@[i] as int])
                == Some(items@[order@[i] as int]) by {
                assert(order@[k as int] != order@[i]);
                assert(before[order@[i] as int] == Some(items@[order@[i] as int]));
            }
        }
        match taken {
            Some(item) => {
                out.push(item);
            },
            None => {},
        }
        k += 1;
    }
    assert(out@ =~= arranged(items@, keys@));
    out
}

} // verus!
