//! Small associative containers that keep their insertion order.
//!
//! Lookups compare keys with [`KeyEq::same`], which decides equality of the
//! whole key, so a container is a finite map (or set) whose walk order is the
//! order in which the keys first arrived.

use vstd::prelude::*;

verus! {

/// Keys that can be compared for equality of all their fields.
pub trait KeyEq: Copy {
    /// Whether the two keys are the same key.
    fn same(&self, other: &Self) -> (r: bool)
        ensures
            r == (*self == *other),
    ;
}

impl KeyEq for u16 {
    fn same(&self, other: &Self) -> (r: bool) {
        *self == *other
    }
}

/// `s` with every occurrence of `k` left out.
pub open spec fn without<K>(s: Seq<K>, k: K) -> Seq<K> {
    s.filter(|x: K| x != k)
}

proof fn lemma_without_absent<K>(s: Seq<K>, k: K)
    requires
        !s.contains(k),
    ensures
        without(s, k) == s,
    decreases s.len(),
{
    reveal(Seq::filter);
    if s.len() > 0 {
        assert forall|i: int| 0 <= i < s.drop_last().len() implies s.drop_last()[i] != k by {
            assert(s.contains(s[i]));
        }
        lemma_without_absent(s.drop_last(), k);
        assert(s.contains(s.last()));
        assert(s.drop_last().push(s.last()) =~= s);
    }
}

proof fn lemma_without_at<K>(s: Seq<K>, i: int)
    requires
        s.no_duplicates(),
        0 <= i < s.len(),
    ensures
        without(s, s[i]) == s.remove(i),
    decreases s.len(),
{
    reveal(Seq::filter);
    let k = s[i];
    if i == s.len() - 1 {
        assert(!s.drop_last().contains(k));
        lemma_without_absent(s.drop_last(), k);
        assert(s.remove(i) =~= s.drop_last());
    } else {
        lemma_without_at(s.drop_last(), i);
        assert(s.last() != k);
        assert(s.remove(i) =~= s.drop_last().remove(i).push(s.last()));
    }
}

/// A finite map with unique keys, walked in insertion order.
pub struct KeyedMap<K: KeyEq, V> {
    entries: Vec<(K, V)>,
}

impl<K: KeyEq, V> View for KeyedMap<K, V> {
    type V = Map<K, V>;

    closed spec fn view(&self) -> Map<K, V> {
        Map::new(
            |k: K| exists|i: int| 0 <= i < self.entries@.len() && #[trigger] self.entries@[i].0 == k,
            |k: K|
                self.entries@[choose|i: int|
                    0 <= i < self.entries@.len() && #[trigger] self.entries@[i].0 == k].1,
        )
    }
}

impl<K: KeyEq, V> KeyedMap<K, V> {
    #[verifier::type_invariant]
    spec fn wf(self) -> bool {
        forall|i: int, j: int|
            0 <= i < self.entries@.len() && 0 <= j < self.entries@.len() && i != j
                ==> self.entries@[i].0 != self.entries@[j].0
    }

    /// The keys in the order in which they were first inserted.
    pub closed spec fn order(&self) -> Seq<K> {
        Seq::new(self.entries@.len(), |i: int| self.entries@[i].0)
    }

    /// Every key of the map stands in the order exactly once.
    pub open spec fn valid(&self) -> bool {
        &&& self.order().no_duplicates()
        &&& self@.dom().finite()
        &&& self@.dom().len() == self.order().len()
        &&& forall|k: K| #[trigger] self@.contains_key(k) <==> self.order().contains(k)
    }

    proof fn lemma_entry(&self, i: int)
        requires
            self.wf(),
            0 <= i < self.entries@.len(),
        ensures
            self.order()[i] == self.entries@[i].0,
            self@.contains_key(self.entries@[i].0),
            self@[self.entries@[i].0] == self.entries@[i].1,
    {
    }

    proof fn lemma_valid(&self)
        requires
            self.wf(),
        ensures
            self.valid(),
    {
        let order = self.order();
        assert forall|k: K| #[trigger] self@.contains_key(k) implies order.contains(k) by {
            let i = choose|i: int| 0 <= i < self.entries@.len() && #[trigger] self.entries@[i].0 == k;
            assert(order[i] == k);
        }
        assert forall|k: K| order.contains(k) implies #[trigger] self@.contains_key(k) by {
            let i = choose|i: int| 0 <= i < order.len() && order[i] == k;
            assert(self.entries@[i].0 == k);
        }
        order.unique_seq_to_set();
        assert(order.to_set() =~= self@.dom());
    }

    /// An empty map.
    pub fn new() -> (r: Self)
        ensures
            r@ == Map::<K, V>::empty(),
            r.order() == Seq::<K>::empty(),
            r.valid(),
    {
        let r = KeyedMap { entries: Vec::new() };
        proof {
            r.lemma_valid();
            assert(r@ =~= Map::<K, V>::empty());
        }
        r
    }

    /// Number of keys.
    pub fn len(&self) -> (r: usize)
        ensures
            r == self.order().len(),
            r == self@.dom().len(),
            self.valid(),
    {
        proof {
            use_type_invariant(self);
            self.lemma_valid();
        }
        self.entries.len()
    }

    /// The `i`-th key of the walk order.
    pub fn key_at(&self, i: usize) -> (r: K)
        requires
            i < self.order().len(),
        ensures
            r == self.order()[i as int],
            self@.contains_key(r),
            self.valid(),
    {
        proof {
            use_type_invariant(self);
            self.lemma_valid();
            self.lemma_entry(i as int);
        }
        self.entries[i].0
    }

    /// The value stored under the `i`-th key of the walk order.
    pub fn value_at(&self, i: usize) -> (r: &V)
        requires
            i < self.order().len(),
        ensures
            *r == self@[self.order()[i as int]],
            self@.contains_key(self.order()[i as int]),
            self.valid(),
    {
        proof {
            use_type_invariant(self);
            self.lemma_valid();
            self.lemma_entry(i as int);
        }
        &self.entries[i].1
    }

    fn find(&self, k: &K) -> (r: Option<usize>)
        ensures
            self.wf(),
            match r {
                Some(i) => i < self.entries@.len() && self.entries@[i as int].0 == *k,
                None => !self@.contains_key(*k),
            },
    {
        proof {
            use_type_invariant(self);
        }
        let mut i: usize = 0;
        while i < self.entries.len()
            invariant
                self.wf(),
                i <= self.entries@.len(),
                forall|j: int| 0 <= j < i ==> (#[trigger] self.entries@[j]).0 != *k,
            decreases self.entries@.len() - i,
        {
            if self.entries[i].0.same(k) {
                return Some(i);
            }
            i += 1;
        }
        None
    }

    /// Whether `k` is a key of the map.
    pub fn contains_key(&self, k: &K) -> (r: bool)
        ensures
            r == self@.contains_key(*k),
            self.valid(),
    {
        match self.find(k) {
            Some(i) => {
                proof {
                    self.lemma_valid();
                    self.lemma_entry(i as int);
                }
                true
            },
            None => {
                proof {
                    self.lemma_valid();
                }
                false
            },
        }
    }

    /// The value stored under `k`.
    pub fn get(&self, k: &K) -> (r: Option<&V>)
        ensures
            match r {
                Some(v) => self@.contains_key(*k) && *v == self@[*k],
                None => !self@.contains_key(*k),
            },
            self.valid(),
    {
        match self.find(k) {
            Some(i) => {
                proof {
                    self.lemma_valid();
                    self.lemma_entry(i as int);
                }
                Some(&self.entries[i].1)
            },
            None => {
                proof {
                    self.lemma_valid();
                }
                None
            },
        }
    }

    /// Stores `v` under `k`, replacing the value that was there. A new key goes
    /// to the end of the walk order.
    pub fn insert(&mut self, k: K, v: V)
        ensures
            final(self)@ == old(self)@.insert(k, v),
            final(self).order() == if old(self)@.contains_key(k) {
                old(self).order()
            } else {
                old(self).order().push(k)
            },
            old(self).valid(),
            final(self).valid(),
    {
        let found = self.find(&k);
        proof {
            self.lemma_valid();
        }
        let ghost before = *self;
        let mut entries: Vec<(K, V)> = Vec::new();
        std::mem::swap(&mut entries, &mut self.entries);
        match found {
            Some(i) => {
                proof {
                    before.lemma_entry(i as int);
                }
                entries[i] = (k, v);
            },
            None => {
                proof {
                    assert forall|j: int| 0 <= j < entries@.len() implies (
                    #[trigger] entries@[j]).0 != k by {
                        before.lemma_entry(j);
                    }
                }
                entries.push((k, v));
            },
        }
        self.entries = entries;
        proof {
            self.lemma_valid();
            let after = *self;
            assert forall|q: K| after@.contains_key(q) == before@.insert(k, v).contains_key(q) by {
                if after@.contains_key(q) {
                    let j = choose|j: int|
                        0 <= j < after.entries@.len() && #[trigger] after.entries@[j].0 == q;
                    if q != k {
                        before.lemma_entry(j);
                    }
                }
                if before@.contains_key(q) {
                    let j = choose|j: int|
                        0 <= j < before.entries@.len() && #[trigger] before.entries@[j].0 == q;
                    assert(after.entries@[j].0 == q);
                }
                if q == k {
                    if found is Some {
                        assert(after.entries@[found->0 as int].0 == k);
                    } else {
                        assert(after.entries@[after.entries@.len() - 1].0 == k);
                    }
                }
            }
            assert forall|q: K| #[trigger] after@.contains_key(q) implies after@[q] == before@.insert(
                k,
                v,
            )[q] by {
                let j = choose|j: int|
                    0 <= j < after.entries@.len() && #[trigger] after.entries@[j].0 == q;
                after.lemma_entry(j);
                if q != k {
                    before.lemma_entry(j);
                }
            }
            assert(after@ =~= before@.insert(k, v));
            if found is Some {
                assert(after.order() =~= before.order());
            } else {
                assert(after.order() =~= before.order().push(k));
            }
        }
    }

    /// Takes `k` out of the map and returns the value that was stored under it.
    pub fn remove(&mut self, k: &K) -> (r: Option<V>)
        ensures
            final(self)@ == old(self)@.remove(*k),
            final(self).order() == without(old(self).order(), *k),
            match r {
                Some(v) => old(self)@.contains_key(*k) && v == old(self)@[*k],
                None => !old(self)@.contains_key(*k),
            },
            old(self).valid(),
            final(self).valid(),
    {
        let found = self.find(k);
        proof {
            self.lemma_valid();
        }
        let ghost before = *self;
        match found {
            None => {
                proof {
                    lemma_without_absent(before.order(), *k);
                    assert(before@.remove(*k) =~= before@);
                }
                None
            },
            Some(i) => {
                proof {
                    before.lemma_entry(i as int);
                    lemma_without_at(before.order(), i as int);
                }
                let mut entries: Vec<(K, V)> = Vec::new();
                std::mem::swap(&mut entries, &mut self.entries);
                let (_, v) = entries.remove(i);
                self.entries = entries;
                proof {
                    self.lemma_valid();
                    let after = *self;
                    assert(after.order() =~= before.order().remove(i as int));
                    assert forall|q: K|
                        after@.contains_key(q) == before@.remove(*k).contains_key(q) by {
                        if after@.contains_key(q) {
                            let j = choose|j: int|
                                0 <= j < after.entries@.len() && #[trigger] after.entries@[j].0 == q;
                            before.lemma_entry(
                                if j < i {
                                    j
                                } else {
                                    j + 1
                                },
                            );
                        }
                        if before@.contains_key(q) && q != *k {
                            let j = choose|j: int|
                                0 <= j < before.entries@.len() && #[trigger] before.entries@[j].0
                                    == q;
                            assert(after.entries@[if j < i {
                                j
                            } else {
                                j - 1
                            }].0 == q);
                        }
                    }
                    assert forall|q: K| #[trigger] after@.contains_key(q) implies after@[q]
                        == before@[q] by {
                        let j = choose|j: int|
                            0 <= j < after.entries@.len() && #[trigger] after.entries@[j].0 == q;
                        after.lemma_entry(j);
                        before.lemma_entry(
                            if j < i {
                                j
                            } else {
                                j + 1
                            },
                        );
                    }
                    assert(after@ =~= before@.remove(*k));
                }
                Some(v)
            },
        }
    }
}

impl<K: KeyEq, V> Default for KeyedMap<K, V> {
    fn default() -> (r: Self)
        ensures
            r@ == Map::<K, V>::empty(),
            r.order() == Seq::<K>::empty(),
            r.valid(),
    {
        KeyedMap::new()
    }
}

/// A finite set, walked in insertion order.
pub struct KeySet<K: KeyEq> {
    items: KeyedMap<K, ()>,
}

impl<K: KeyEq> View for KeySet<K> {
    type V = Set<K>;

    closed spec fn view(&self) -> Set<K> {
        self.items@.dom()
    }
}

impl<K: KeyEq> KeySet<K> {
    /// The members in the order in which they were first inserted.
    pub closed spec fn order(&self) -> Seq<K> {
        self.items.order()
    }

    /// Every member stands in the order exactly once.
    pub open spec fn valid(&self) -> bool {
        &&& self.order().no_duplicates()
        &&& self@.finite()
        &&& self@.len() == self.order().len()
        &&& forall|k: K| #[trigger] self@.contains(k) <==> self.order().contains(k)
    }

    /// An empty set.
    pub fn new() -> (r: Self)
        ensures
            r@ == Set::<K>::empty(),
            r.order() == Seq::<K>::empty(),
            r.valid(),
    {
        let r = KeySet { items: KeyedMap::new() };
        assert(r@ =~= Set::<K>::empty());
        proof {
            assert forall|k: K| #[trigger] r@.contains(k) <==> r.order().contains(k) by {
                assert(r.items@.contains_key(k) <==> r.items.order().contains(k));
            }
        }
        r
    }

    /// Number of members.
    pub fn len(&self) -> (r: usize)
        ensures
            r == self@.len(),
            self.valid(),
    {
        let r: usize = self.items.len();
        proof {
            assert forall|k: K| #[trigger] self@.contains(k) <==> self.order().contains(k) by {
                assert(self.items@.contains_key(k) <==> self.items.order().contains(k));
            }
        }
        r
    }

    /// The `i`-th member of the walk order.
    pub fn at(&self, i: usize) -> (r: K)
        requires
            i < self.order().len(),
        ensures
            r == self.order()[i as int],
            self@.contains(r),
    {
        self.items.key_at(i)
    }

    /// Whether `k` is a member.
    pub fn contains(&self, k: &K) -> (r: bool)
        ensures
            r == self@.contains(*k),
    {
        self.items.contains_key(k)
    }

    /// Adds `k`; returns whether it was new.
    pub fn insert(&mut self, k: K) -> (r: bool)
        ensures
            final(self)@ == old(self)@.insert(k),
            final(self).order() == if old(self)@.contains(k) {
                old(self).order()
            } else {
                old(self).order().push(k)
            },
            r == !old(self)@.contains(k),
    {
        let fresh: bool = !self.items.contains_key(&k);
        self.items.insert(k, ());
        assert(self@ =~= old(self)@.insert(k));
        fresh
    }

    /// Adds every member of `more`.
    pub fn extend(&mut self, more: &KeySet<K>)
        ensures
            final(self)@ == old(self)@.union(more@),
    {
        let n: usize = more.len();
        let ghost order = more.order();
        let mut i: usize = 0;
        assert(self@ =~= old(self)@.union(order.take(0).to_set()));
        while i < n
            invariant
                n == order.len(),
                order == more.order(),
                i <= n,
                self@ == old(self)@.union(order.take(i as int).to_set()),
            decreases n - i,
        {
            let k: K = more.at(i);
            self.insert(k);
            proof {
                let (seen, next) = (order.take(i as int), order.take(i + 1));
                assert(next =~= seen.push(k));
                assert forall|x: K| next.to_set().contains(x) <==> seen.to_set().contains(x) || x
                    == k by {
                    if seen.contains(x) {
                        let j = choose|j: int| 0 <= j < seen.len() && seen[j] == x;
                        assert(next[j] == x);
                    }
                    assert(next[i as int] == k);
                }
                assert(self@ =~= old(self)@.union(next.to_set()));
            }
            i += 1;
        }
        proof {
            assert(order.take(i as int) =~= order);
            assert forall|x: K| order.to_set().contains(x) <==> more@.contains(x) by {
                assert(more@.contains(x) <==> order.contains(x));
            }
            assert(self@ =~= old(self)@.union(more@));
        }
    }

    /// Takes `k` out; returns whether it was a member.
    pub fn remove(&mut self, k: &K) -> (r: bool)
        ensures
            final(self)@ == old(self)@.remove(*k),
            final(self).order() == without(old(self).order(), *k),
            r == old(self)@.contains(*k),
    {
        let found = self.items.remove(k);
        assert(self@ =~= old(self)@.remove(*k));
        found.is_some()
    }
}

impl<K: KeyEq> Default for KeySet<K> {
    fn default() -> (r: Self)
        ensures
            r@ == Set::<K>::empty(),
            r.order() == Seq::<K>::empty(),
            r.valid(),
    {
        KeySet::new()
    }
}

/// Taking a key out of an order closes the gap and leaves the rest in place; an
/// order without the key stays as it is.
pub proof fn law_without_closes_the_gap<K>(a: Seq<K>, k: K, b: Seq<K>)
    requires
        !a.contains(k),
        !b.contains(k),
    ensures
        without(a + seq![k] + b, k) == a + b,
        without(a, k) == a,
{
    let s = a + seq![k] + b;
    let p = |x: K| x != k;
    lemma_without_absent(a, k);
    lemma_without_absent(b, k);
    Seq::filter_distributes_over_add(a + seq![k], b, p);
    Seq::filter_distributes_over_add(a, seq![k], p);
    assert(seq![k].filter(p) =~= Seq::empty()) by {
        reveal_with_fuel(Seq::filter, 2);
        assert(seq![k].drop_last() =~= Seq::empty());
    }
    assert(a + Seq::<K>::empty() =~= a);
}

} // verus!
