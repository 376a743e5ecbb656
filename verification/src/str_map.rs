//! A map from strings to values that keeps its entries in the order in which
//! their keys first came.
use vstd::prelude::*;
use vstd::string::*;

verus! {

/// The index of the first entry of `m` whose key is `k`.
pub open spec fn position<V>(m: Seq<(Seq<char>, V)>, k: Seq<char>) -> Option<int>
    decreases m.len(),
{
    if m.len() == 0 {
        None
    } else {
        match position(m.drop_last(), k) {
            Some(i) => Some(i),
            None => if m.last().0 == k {
                Some(m.len() - 1)
            } else {
                None
            },
        }
    }
}

/// The value that `m` holds for `k`.
pub open spec fn lookup<V>(m: Seq<(Seq<char>, V)>, k: Seq<char>) -> Option<V> {
    match position(m, k) {
        Some(i) => Some(m[i].1),
        None => None,
    }
}

/// `m` with `v` held for `k`: in the place of the value held before, or as a
/// new last entry.
pub open spec fn with_entry<V>(m: Seq<(Seq<char>, V)>, k: Seq<char>, v: V) -> Seq<(Seq<char>, V)> {
    match position(m, k) {
        Some(i) => m.update(i, (k, v)),
        None => m.push((k, v)),
    }
}

/// No key occurs twice in `m`.
pub open spec fn distinct_keys<V>(m: Seq<(Seq<char>, V)>) -> bool {
    forall|i: int, j: int| 0 <= i < j < m.len() ==> m[i].0 != m[j].0
}

/// `position` finds the first entry with the key, and finds none only where
/// no entry has it.
pub proof fn lemma_position<V>(m: Seq<(Seq<char>, V)>, k: Seq<char>)
    ensures
        match position(m, k) {
            Some(i) => 0 <= i < m.len() && m[i].0 == k && forall|j: int|
                0 <= j < i ==> m[j].0 != k,
            None => forall|j: int| 0 <= j < m.len() ==> m[j].0 != k,
        },
    decreases m.len(),
{
    if m.len() > 0 {
        let front = m.drop_last();
        lemma_position(front, k);
        assert(forall|j: int| 0 <= j < front.len() ==> front[j] == m[j]);
    }
}

/// An entry with the key and none before it is what `position` finds.
pub proof fn lemma_position_is<V>(m: Seq<(Seq<char>, V)>, k: Seq<char>, i: int)
    requires
        0 <= i < m.len(),
        m[i].0 == k,
        forall|j: int| 0 <= j < i ==> m[j].0 != k,
    ensures
        position(m, k) == Some(i),
        lookup(m, k) == Some(m[i].1),
{
    lemma_position(m, k);
}

/// Where no entry has the key, `position` finds none.
pub proof fn lemma_position_none<V>(m: Seq<(Seq<char>, V)>, k: Seq<char>)
    requires
        forall|j: int| 0 <= j < m.len() ==> m[j].0 != k,
    ensures
        position(m, k) is None,
        lookup(m, k) is None,
{
    lemma_position(m, k);
}

/// The entries that a list of keys with values stands for.
pub open spec fn entries_of<V>(items: Seq<(String, V)>) -> Seq<(Seq<char>, V)> {
    Seq::new(items.len(), |i: int| (items[i].0@, items[i].1))
}

/// A map keyed by strings, in the order of first insertion.
#[derive(Debug, Clone, PartialEq)]
pub struct StrMap<V> {
    items: Vec<(String, V)>,
}

impl<V> View for StrMap<V> {
    type V = Seq<(Seq<char>, V)>;

    closed spec fn view(&self) -> Seq<(Seq<char>, V)> {
        Seq::new(self.items@.len(), |i: int| (self.items@[i].0@, self.items@[i].1))
    }
}

impl<V> StrMap<V> {
    /// No key occurs twice: what `new` establishes and `insert` keeps.
    pub open spec fn wf(&self) -> bool {
        distinct_keys(self@)
    }

    /// The value held for `k`.
    pub open spec fn spec_get(&self, k: Seq<char>) -> Option<V> {
        lookup(self@, k)
    }

    /// Whether a value is held for `k`.
    pub open spec fn has(&self, k: Seq<char>) -> bool {
        position(self@, k) is Some
    }

    /// The map without entries.
    pub fn new() -> (r: Self)
        ensures
            r@ == Seq::<(Seq<char>, V)>::empty(),
            r.wf(),
    {
        let r = StrMap { items: Vec::new() };
        assert(r@ =~= Seq::<(Seq<char>, V)>::empty());
        r
    }

    /// The number of entries.
    pub fn len(&self) -> (n: usize)
        ensures
            n == self@.len(),
    {
        self.items.len()
    }

    /// Whether the map has no entry.
    pub fn is_empty(&self) -> (r: bool)
        ensures
            r == (self@.len() == 0),
    {
        self.items.len() == 0
    }

    /// The key of the entry at `i`.
    pub fn key_at(&self, i: usize) -> (k: &String)
        requires
            i < self@.len(),
        ensures
            k@ == self@[i as int].0,
    {
        &self.items[i].0
    }

    /// The value of the entry at `i`.
    pub fn value_at(&self, i: usize) -> (v: &V)
        requires
            i < self@.len(),
        ensures
            *v == self@[i as int].1,
    {
        &self.items[i].1
    }

    /// The index of the entry with key `k`.
    pub fn position(&self, k: &str) -> (r: Option<usize>)
        ensures
            match r {
                Some(i) => position(self@, k@) == Some(i as int) && i < self@.len(),
                None => position(self@, k@) is None,
            },
    {
        let mut i: usize = 0;
        while i < self.items.len()
            invariant
                i <= self.items@.len(),
                self@.len() == self.items@.len(),
                forall|j: int| 0 <= j < i ==> self@[j].0 != k@,
            decreases self.items@.len() - i,
        {
            if self.items[i].0.as_str().eq(k) {
                proof {
                    lemma_position_is(self@, k@, i as int);
                }
                return Some(i);
            }
            i += 1;
        }
        proof {
            lemma_position_none(self@, k@);
        }
        None
    }

    /// The value held for `k`.
    pub fn get(&self, k: &str) -> (r: Option<&V>)
        ensures
            match r {
                Some(v) => self.spec_get(k@) == Some(*v),
                None => self.spec_get(k@) is None,
            },
    {
        match self.position(k) {
            Some(i) => Some(&self.items[i].1),
            None => None,
        }
    }

    /// Whether a value is held for `k`.
    pub fn contains_key(&self, k: &str) -> (r: bool)
        ensures
            r == self.has(k@),
    {
        self.position(k).is_some()
    }

    /// Replaces the value of the entry at `i`.
    pub fn set_value(&mut self, i: usize, v: V)
        requires
            i < old(self)@.len(),
        ensures
            final(self)@ == old(self)@.update(i as int, (old(self)@[i as int].0, v)),
            old(self).wf() ==> final(self).wf(),
    {
        self.items[i].1 = v;
        assert(self@ =~= old(self)@.update(i as int, (old(self)@[i as int].0, v)));
    }

    /// The value of the entry at `i`, to be changed in place.
    pub fn value_mut(&mut self, i: usize) -> (v: &mut V)
        requires
            i < old(self)@.len(),
        ensures
            *v == old(self)@[i as int].1,
            final(self)@ == old(self)@.update(i as int, (old(self)@[i as int].0, *final(v))),
            old(self).wf() ==> final(self).wf(),
    {
        let v = &mut self.items[i].1;
        proof {
            assert(Seq::new(
                after_borrow(self.items)@.len(),
                |j: int| (after_borrow(self.items)@[j].0@, after_borrow(self.items)@[j].1),
            ) =~= old(self)@.update(i as int, (old(self)@[i as int].0, *final(v))));
        }
        v
    }

    /// Holds `v` for `k` from now on: in the place of the value held before,
    /// or as a new last entry.
    pub fn insert(&mut self, k: String, v: V)
        ensures
            final(self)@ == with_entry(old(self)@, k@, v),
            old(self).wf() ==> final(self).wf(),
    {
        proof {
            lemma_position(self@, k@);
        }
        match self.position(k.as_str()) {
            Some(i) => {
                self.items[i].1 = v;
                assert(self@ =~= old(self)@.update(i as int, (k@, v)));
                assert(forall|j: int| 0 <= j < self@.len() ==> self@[j].0 == old(self)@[j].0);
            },
            None => {
                self.items.push((k, v));
                assert(self@ =~= old(self)@.push((k@, v)));
            },
        }
    }

    /// Adds an entry behind all others. Where the key is held already, the
    /// entry is never found: the map is meant to hold each key once.
    pub fn push(&mut self, k: String, v: V)
        ensures
            final(self)@ == old(self)@.push((k@, v)),
            old(self).wf() && !old(self).has(k@) ==> final(self).wf(),
    {
        proof {
            lemma_position(self@, k@);
        }
        self.items.push((k, v));
        assert(self@ =~= old(self)@.push((k@, v)));
    }

    /// The entries of the map, in their order.
    pub fn into_items(self) -> (r: Vec<(String, V)>)
        ensures
            entries_of(r@) == self@,
    {
        assert(entries_of(self.items@) =~= self@);
        self.items
    }

    /// Takes the entry at `i` out of the map.
    pub fn remove_at(&mut self, i: usize) -> (r: (String, V))
        requires
            i < old(self)@.len(),
        ensures
            final(self)@ == old(self)@.remove(i as int),
            r.0@ == old(self)@[i as int].0,
            r.1 == old(self)@[i as int].1,
            old(self).wf() ==> final(self).wf(),
    {
        let r = self.items.remove(i);
        assert(self@ =~= old(self)@.remove(i as int));
        r
    }
}

/// After `insert`, the key holds the new value and every other key what it
/// held before.
pub proof fn lemma_lookup_insert<V>(m: Seq<(Seq<char>, V)>, k: Seq<char>, v: V, q: Seq<char>)
    ensures
        lookup(with_entry(m, k, v), q) == (if q == k {
            Some(v)
        } else {
            lookup(m, q)
        }),
        distinct_keys(m) ==> distinct_keys(with_entry(m, k, v)),
{
    lemma_position(m, k);
    lemma_position(m, q);
    match position(m, k) {
        Some(i) => {
            let m2 = m.update(i, (k, v));
            assert(forall|j: int| 0 <= j < m.len() ==> m2[j].0 == m[j].0);
            match position(m, q) {
                Some(p) => {
                    lemma_position_is(m2, q, p);
                },
                None => {
                    lemma_position_none(m2, q);
                },
            }
        },
        None => {
            let m2 = m.push((k, v));
            assert(m2.drop_last() =~= m);
        },
    }
}

/// Finding a key takes no notice of the values: two maps with the same keys
/// in the same places find it in the same place.
pub proof fn lemma_position_same_keys<V, W>(
    a: Seq<(Seq<char>, V)>,
    b: Seq<(Seq<char>, W)>,
    k: Seq<char>,
)
    requires
        a.len() == b.len(),
        forall|i: int| 0 <= i < a.len() ==> a[i].0 == b[i].0,
    ensures
        position(a, k) == position(b, k),
{
    lemma_position(a, k);
    lemma_position(b, k);
}

/// The map with each value seen through `f`.
pub open spec fn mapped<V, W>(m: Seq<(Seq<char>, V)>, f: spec_fn(V) -> W) -> Seq<(Seq<char>, W)> {
    Seq::new(m.len(), |i: int| (m[i].0, f(m[i].1)))
}

/// Setting a value and seeing the map through `f` is seeing the map through
/// `f` and setting what the value is seen as.
pub proof fn lemma_with_entry_mapped<V, W>(
    m: Seq<(Seq<char>, V)>,
    k: Seq<char>,
    v: V,
    f: spec_fn(V) -> W,
)
    ensures
        mapped(with_entry(m, k, v), f) == with_entry(mapped(m, f), k, f(v)),
        position(mapped(m, f), k) == position(m, k),
{
    lemma_position_same_keys(mapped(m, f), m, k);
    lemma_position(m, k);
    assert(mapped(with_entry(m, k, v), f) =~= with_entry(mapped(m, f), k, f(v)));
}

} // verus!
