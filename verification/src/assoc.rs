//! A small association list: keys compared by their abstract value, at most
//! one entry per key, entries kept in insertion order.
use vstd::prelude::*;

use crate::types::{Address, Asset, PoolIdentifier, H256};

verus! {

/// Keys whose equality is decided on their abstract value.
pub trait ModelEq: View + Sized {
    fn model_eq(&self, other: &Self) -> (r: bool)
        ensures
            r == (self@ == other@),
    ;

    fn model_clone(&self) -> (r: Self)
        ensures
            r@ == self@,
    ;
}

impl ModelEq for Address {
    fn model_eq(&self, other: &Address) -> (r: bool) {
        self.same(other)
    }

    fn model_clone(&self) -> (r: Address) {
        *self
    }
}

impl ModelEq for H256 {
    fn model_eq(&self, other: &H256) -> (r: bool) {
        self.same(other)
    }

    fn model_clone(&self) -> (r: H256) {
        *self
    }
}

impl ModelEq for Asset {
    fn model_eq(&self, other: &Asset) -> (r: bool) {
        self.same(other)
    }

    fn model_clone(&self) -> (r: Asset) {
        self.clone()
    }
}

impl ModelEq for PoolIdentifier {
    fn model_eq(&self, other: &PoolIdentifier) -> (r: bool) {
        self.same(other)
    }

    fn model_clone(&self) -> (r: PoolIdentifier) {
        self.clone()
    }
}

impl ModelEq for i32 {
    fn model_eq(&self, other: &i32) -> (r: bool) {
        *self == *other
    }

    fn model_clone(&self) -> (r: i32) {
        *self
    }
}

/// Entries `(key, value)`; no two keys share an abstract value.
#[derive(Debug)]
pub struct AssocList<K, V> {
    pub keys: Vec<K>,
    pub vals: Vec<V>,
}

impl<K: ModelEq, V> AssocList<K, V> {
    pub open spec fn wf(&self) -> bool {
        &&& self.keys@.len() == self.vals@.len()
        &&& forall|i: int, j: int|
            0 <= i < self.key_seq().len() && 0 <= j < self.key_seq().len() && i != j
                ==> self.key_seq()[i] != self.key_seq()[j]
    }

    pub open spec fn has(&self, k: K::V) -> bool {
        exists|i: int| 0 <= i < self.key_seq().len() && self.key_seq()[i] == k
    }

    pub open spec fn index_of(&self, k: K::V) -> int {
        choose|i: int| 0 <= i < self.key_seq().len() && self.key_seq()[i] == k
    }

    /// The entries as a map from abstract keys to values.
    pub open spec fn map(&self) -> Map<K::V, V> {
        Map::new(|k: K::V| self.has(k), |k: K::V| self.vals@[self.index_of(k)])
    }

    /// The keys' abstract values in insertion order.
    pub open spec fn key_seq(&self) -> Seq<K::V> {
        self.keys@.map_values(|k: K| k@)
    }

    pub proof fn lemma_key_seq(&self)
        ensures
            self.key_seq().len() == self.keys@.len(),
            forall|i: int| 0 <= i < self.keys@.len() ==> #[trigger] self.key_seq()[i] == self.keys@[i]@,
    {
    }

    pub proof fn lemma_index_unique(&self, k: K::V, i: int)
        requires
            self.wf(),
            0 <= i < self.keys@.len(),
            self.keys@[i]@ == k,
        ensures
            self.has(k),
            self.index_of(k) == i,
    {
        self.lemma_key_seq();
        assert(0 <= i < self.key_seq().len() && self.key_seq()[i] == k);
        assert(self.has(k));
        let j = self.index_of(k);
        assert(0 <= j < self.key_seq().len() && self.key_seq()[j] == k);
        if j != i {
            assert(self.key_seq()[i] != self.key_seq()[j]);
        }
    }

    /// A copy with the same keys and values in the same order.
    pub fn duplicate(&self) -> (r: Self) where V: Copy
        ensures
            r.key_seq() == self.key_seq(),
            r.vals@ == self.vals@,
            r.map() == self.map(),
            self.wf() ==> r.wf(),
    {
        let mut keys: Vec<K> = Vec::new();
        let mut i: usize = 0;
        while i < self.keys.len()
            invariant
                i <= self.keys@.len(),
                keys@.len() == i,
                forall|j: int| 0 <= j < i ==> keys@[j]@ == self.keys@[j]@,
            decreases self.keys@.len() - i,
        {
            keys.push(self.keys[i].model_clone());
            i = i + 1;
        }
        let mut vals: Vec<V> = Vec::new();
        let mut i: usize = 0;
        while i < self.vals.len()
            invariant
                i <= self.vals@.len(),
                vals@ == self.vals@.subrange(0, i as int),
            decreases self.vals@.len() - i,
        {
            vals.push(self.vals[i]);
            i = i + 1;
            assert(vals@ =~= self.vals@.subrange(0, i as int));
        }
        assert(vals@ =~= self.vals@);
        let r = AssocList { keys, vals };
        assert(r.key_seq() =~= self.key_seq());
        assert(r.map() =~= self.map());
        r
    }

    pub fn new() -> (r: Self)
        ensures
            r.wf(),
            r.map() == Map::<K::V, V>::empty(),
            r.keys@.len() == 0,
    {
        let r = AssocList { keys: Vec::new(), vals: Vec::new() };
        assert(r.map() =~= Map::<K::V, V>::empty());
        r
    }

    pub fn len(&self) -> (r: usize)
        ensures
            r == self.keys@.len(),
    {
        self.keys.len()
    }

    /// The position of the entry for `k`, if any.
    pub fn find(&self, k: &K) -> (r: Option<usize>)
        requires
            self.wf(),
        ensures
            r is Some <==> self.has(k@),
            r matches Some(i) ==> i < self.keys@.len() && self.keys@[i as int]@ == k@ && i
                == self.index_of(k@),
    {
        let mut i: usize = 0;
        proof {
            self.lemma_key_seq();
        }
        while i < self.keys.len()
            invariant
                self.wf(),
                self.key_seq().len() == self.keys@.len(),
                i <= self.keys@.len(),
                forall|j: int| 0 <= j < i ==> self.key_seq()[j] != k@,
            decreases self.keys@.len() - i,
        {
            assert(self.key_seq()[i as int] == self.keys@[i as int]@);
            if self.keys[i].model_eq(k) {
                proof {
                    self.lemma_index_unique(k@, i as int);
                }
                return Some(i);
            }
            i = i + 1;
        }
        None
    }

    pub fn get(&self, k: &K) -> (r: Option<&V>)
        requires
            self.wf(),
        ensures
            r is Some <==> self.map().contains_key(k@),
            r matches Some(v) ==> *v == self.map()[k@],
    {
        match self.find(k) {
            Some(i) => Some(&self.vals[i]),
            None => None,
        }
    }

    pub fn key_at(&self, i: usize) -> (r: &K)
        requires
            i < self.keys@.len(),
        ensures
            *r == self.keys@[i as int],
    {
        &self.keys[i]
    }

    pub fn value_at(&self, i: usize) -> (r: &V)
        requires
            i < self.vals@.len(),
        ensures
            *r == self.vals@[i as int],
    {
        &self.vals[i]
    }

    /// Sets the value for `k`; an existing entry keeps its position, a new
    /// one goes last.
    pub fn insert(&mut self, k: K, v: V)
        requires
            old(self).wf(),
        ensures
            final(self).wf(),
            final(self).map() == old(self).map().insert(k@, v),
            old(self).has(k@) ==> final(self).keys@.len() == old(self).keys@.len()
                && final(self).key_seq() == old(self).key_seq(),
            !old(self).has(k@) ==> final(self).key_seq() == old(self).key_seq().push(k@),
    {
        match self.find(&k) {
            Some(i) => {
                self.vals.set(i, v);
                proof {
                    old(self).lemma_key_seq();
                    (*self).lemma_key_seq();
                    assert forall|kk: K::V| #[trigger] (*self).has(kk) == old(self).has(kk) by {
                    }
                    assert forall|kk: K::V| old(self).has(kk) implies (*self).index_of(kk)
                        == old(self).index_of(kk) by {
                        let j = old(self).index_of(kk);
                        (*self).lemma_index_unique(kk, j);
                    }
                    assert((*self).map() =~= old(self).map().insert(k@, v));
                    assert((*self).key_seq() =~= old(self).key_seq());
                }
            },
            None => {
                let ghost n = self.keys@.len();
                self.keys.push(k);
                self.vals.push(v);
                proof {
                    old(self).lemma_key_seq();
                    (*self).lemma_key_seq();
                    assert((*self).key_seq() =~= old(self).key_seq().push(k@));
                    assert forall|kk: K::V| old(self).has(kk) implies (*self).index_of(kk)
                        == old(self).index_of(kk) && (*self).has(kk) by {
                        let j = old(self).index_of(kk);
                        (*self).lemma_index_unique(kk, j);
                    }
                    (*self).lemma_index_unique(k@, n as int);
                    assert forall|kk: K::V| #[trigger] (*self).has(kk) implies old(self).has(kk)
                        || kk == k@ by {
                        let j = (*self).index_of(kk);
                        if j < n {
                            assert(old(self).keys@[j]@ == kk);
                        }
                    }
                    assert((*self).map() =~= old(self).map().insert(k@, v));
                    assert((*self).key_seq() =~= old(self).key_seq().push(k@));
                }
            },
        }
    }

    /// Removes the entry for `k`, if any; the other entries keep their order.
    pub fn remove(&mut self, k: &K)
        requires
            old(self).wf(),
        ensures
            final(self).wf(),
            final(self).map() == old(self).map().remove(k@),
    {
        match self.find(k) {
            Some(i) => {
                self.keys.remove(i);
                self.vals.remove(i);
                proof {
                    let o = *old(self);
                    let f = *self;
                    o.lemma_key_seq();
                    f.lemma_key_seq();
                    assert forall|a: int, b: int|
                        0 <= a < f.key_seq().len() && 0 <= b < f.key_seq().len() && a != b implies f.key_seq()[a]
                        != f.key_seq()[b] by {
                        let oa = if a < i {
                            a
                        } else {
                            a + 1
                        };
                        let ob = if b < i {
                            b
                        } else {
                            b + 1
                        };
                        assert(f.keys@[a] == o.keys@[oa]);
                        assert(f.keys@[b] == o.keys@[ob]);
                        assert(o.key_seq()[oa] != o.key_seq()[ob]);
                    }
                    assert forall|kk: K::V| kk != k@ && o.has(kk) implies f.has(kk) && f.vals@[f.index_of(kk)]
                        == o.vals@[o.index_of(kk)] by {
                        let j = o.index_of(kk);
                        let fj = if j < i {
                            j
                        } else {
                            j - 1
                        };
                        assert(o.key_seq()[j] == kk);
                        assert(f.keys@[fj] == o.keys@[j]);
                        f.lemma_index_unique(kk, fj);
                    }
                    assert forall|kk: K::V| #[trigger] f.has(kk) implies o.has(kk) && kk != k@ by {
                        let j = f.index_of(kk);
                        let oj = if j < i {
                            j
                        } else {
                            j + 1
                        };
                        assert(f.key_seq()[j] == kk);
                        assert(f.keys@[j] == o.keys@[oj]);
                        assert(o.key_seq()[oj] == kk);
                        assert(o.key_seq()[i as int] == k@);
                    }
                    assert(f.map() =~= o.map().remove(k@));
                }
            },
            None => {
                assert(self.map() =~= self.map().remove(k@));
            },
        }
    }
}

} // verus!
