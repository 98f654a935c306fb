//! Dictionaries that remember the order in which their keys came in.
//!
//! A dictionary keeps its keys and values in two vectors and finds a key through a hash table
//! from keys to positions.
use vstd::prelude::*;

use crate::tables::{KeyTable, MemberTable, NameTable, SlotTable};

verus! {

/// The models of a sequence of values.
pub open spec fn views<T: View>(s: Seq<T>) -> Seq<T::V> {
    s.map_values(|x: T| x@)
}

/// Machine numbers as mathematical integers.
pub open spec fn ints(s: Seq<usize>) -> Seq<int> {
    s.map_values(|x: usize| x as int)
}

pub broadcast proof fn lemma_views_push<T: View>(s: Seq<T>, x: T)
    ensures
        #[trigger] views(s.push(x)) == views(s).push(x@),
{
    assert(views(s.push(x)) =~= views(s).push(x@));
}

pub broadcast proof fn lemma_views_update<T: View>(s: Seq<T>, i: int, x: T)
    requires
        0 <= i < s.len(),
    ensures
        #[trigger] views(s.update(i, x)) == views(s).update(i, x@),
{
    assert(views(s.update(i, x)) =~= views(s).update(i, x@));
}

pub broadcast proof fn lemma_views_empty<T: View>()
    ensures
        #[trigger] views(Seq::<T>::empty()) == Seq::<T::V>::empty(),
{
    assert(views(Seq::<T>::empty()) =~= Seq::<T::V>::empty());
}

pub broadcast proof fn lemma_ints_push(s: Seq<usize>, x: usize)
    ensures
        #[trigger] ints(s.push(x)) == ints(s).push(x as int),
{
    assert(ints(s.push(x)) =~= ints(s).push(x as int));
}

pub broadcast proof fn lemma_ints_empty()
    ensures
        #[trigger] ints(Seq::<usize>::empty()) == Seq::<int>::empty(),
{
    assert(ints(Seq::<usize>::empty()) =~= Seq::<int>::empty());
}

pub broadcast group group_views {
    lemma_views_push,
    lemma_views_update,
    lemma_views_empty,
    lemma_ints_push,
    lemma_ints_empty,
}

/// The model of a dictionary: distinct keys, each with the value at the same position.
#[verifier::ext_equal]
pub struct DictV<K, V> {
    pub keys: Seq<K>,
    pub vals: Seq<V>,
}

impl<K, V> DictV<K, V> {
    pub open spec fn empty() -> Self {
        DictV { keys: Seq::empty(), vals: Seq::empty() }
    }

    pub open spec fn wf(self) -> bool {
        &&& self.keys.no_duplicates()
        &&& self.keys.len() == self.vals.len()
    }

    pub open spec fn has(self, k: K) -> bool {
        self.keys.contains(k)
    }

    /// The value under a key that is there.
    pub open spec fn at(self, k: K) -> V {
        self.vals[self.keys.index_of(k)]
    }

    pub open spec fn get(self, k: K) -> Option<V> {
        if self.has(k) {
            Some(self.at(k))
        } else {
            None
        }
    }

    /// The position of a key: where it is, or where it would be added.
    pub open spec fn slot(self, k: K) -> int {
        if self.has(k) {
            self.keys.index_of(k)
        } else {
            self.keys.len() as int
        }
    }

    /// The dictionary with `v` under `k`. A new key goes to the end, a known one keeps its place.
    pub open spec fn put(self, k: K, v: V) -> Self {
        if self.has(k) {
            DictV { keys: self.keys, vals: self.vals.update(self.keys.index_of(k), v) }
        } else {
            DictV { keys: self.keys.push(k), vals: self.vals.push(v) }
        }
    }

    /// What was put under a key is what is found under it, and nothing else moves.
    pub proof fn lemma_put(self, k: K, v: V)
        requires
            self.wf(),
        ensures
            self.put(k, v).wf(),
            self.put(k, v).get(k) == Some(v),
            self.put(k, v).slot(k) == self.slot(k),
            forall|j: K| j != k ==> #[trigger] self.put(k, v).get(j) == self.get(j),
            forall|j: K| j != k ==> (#[trigger] self.put(k, v).has(j) <==> self.has(j)),
            forall|j: K| self.has(j) ==> #[trigger] self.put(k, v).slot(j) == self.slot(j),
    {
        let d = self.put(k, v);
        if !self.has(k) {
            assert(d.keys[self.keys.len() as int] == k);
            assert forall|j: K| self.has(j) implies #[trigger] d.slot(j) == self.slot(j) by {
                let i = self.keys.index_of(j);
                assert(d.keys[i] == j);
            }
        }
        assert forall|j: K| j != k implies (#[trigger] d.has(j) <==> self.has(j)) && d.get(j)
            == self.get(j) by {
            if self.has(j) {
                let i = self.keys.index_of(j);
                assert(d.keys[i] == j);
            }
            if d.has(j) {
                let i = d.keys.index_of(j);
                assert(self.keys[i] == j);
            }
        }
    }
}

/// Whether a hash table gives for each key its position in a sequence.
pub open spec fn indexes<K>(table: Map<K, int>, keys: Seq<K>) -> bool {
    &&& forall|k: K| #[trigger]
        table.dom().contains(k) ==> 0 <= table[k] < keys.len() && keys[table[k]] == k
    &&& forall|i: int|
        0 <= i < keys.len() ==> table.dom().contains(#[trigger] keys[i]) && table[keys[i]] == i
}

/// A dictionary whose keys are found through a hash table.
pub struct Dict<T: KeyTable, V: View> {
    table: T,
    keys: Vec<T::Key>,
    vals: Vec<V>,
}

/// A dictionary keyed by names.
pub type NameDict<V> = Dict<NameTable, V>;

/// A dictionary keyed by members.
pub type MemberDict<V> = Dict<MemberTable, V>;

/// A dictionary keyed by numbers.
pub type SlotDict<V> = Dict<SlotTable, V>;

impl<T: KeyTable, V: View> View for Dict<T, V> {
    type V = DictV<<T::Key as View>::V, V::V>;

    closed spec fn view(&self) -> Self::V {
        DictV { keys: views(self.keys@), vals: views(self.vals@) }
    }
}

impl<T: KeyTable, V: View> Dict<T, V> {
    #[verifier::type_invariant]
    spec fn inv(self) -> bool {
        &&& self.keys.len() == self.vals.len()
        &&& indexes(self.table.entries(), views(self.keys@))
    }

    proof fn lemma_wf(&self)
        requires
            self.inv(),
        ensures
            self@.wf(),
    {
        assert forall|i: int, j: int|
            0 <= i < self@.keys.len() && 0 <= j < self@.keys.len() && i != j implies self@.keys[i]
            != self@.keys[j] by {
            assert(self.table.entries()[self@.keys[i]] == i);
        }
    }

    pub fn new() -> (d: Self)
        ensures
            d@ == DictV::<<T::Key as View>::V, V::V>::empty(),
    {
        let d = Dict { table: T::empty(), keys: Vec::new(), vals: Vec::new() };
        assert(d@ =~= DictV::<<T::Key as View>::V, V::V>::empty());
        d
    }

    pub fn len(&self) -> (n: usize)
        ensures
            self@.wf(),
            n == self@.keys.len(),
    {
        proof {
            use_type_invariant(self);
            self.lemma_wf();
        }
        self.keys.len()
    }

    /// The position of a key.
    pub fn find(&self, key: &T::Key) -> (at: Option<usize>)
        ensures
            self@.wf(),
            at is Some <==> self@.has(key@),
            at matches Some(i) ==> i == self@.slot(key@) && i < self@.keys.len(),
    {
        proof {
            use_type_invariant(self);
            self.lemma_wf();
        }
        let at = self.table.find(key);
        proof {
            if let Some(i) = at {
                assert(self@.keys[i as int] == key@);
            } else if self@.has(key@) {
                let i = self@.keys.index_of(key@);
                assert(self@.keys[i] == key@);
            }
        }
        at
    }

    /// The value under a key.
    pub fn get(&self, key: &T::Key) -> (v: Option<&V>)
        ensures
            self@.wf(),
            v is Some <==> self@.has(key@),
            v matches Some(x) ==> x@ == self@.at(key@),
    {
        match self.find(key) {
            Some(i) => {
                proof {
                    use_type_invariant(self);
                }
                Some(&self.vals[i])
            },
            None => None,
        }
    }

    pub fn key_at(&self, i: usize) -> (k: &T::Key)
        requires
            i < self@.keys.len(),
        ensures
            k@ == self@.keys[i as int],
    {
        &self.keys[i]
    }

    pub fn val_at(&self, i: usize) -> (v: &V)
        requires
            i < self@.keys.len(),
        ensures
            v@ == self@.vals[i as int],
    {
        proof {
            use_type_invariant(self);
        }
        &self.vals[i]
    }

    /// Puts a value under a key and returns the key's position.
    pub fn insert(&mut self, key: T::Key, val: V) -> (at: usize)
        ensures
            old(self)@.wf(),
            final(self)@.wf(),
            final(self)@ == old(self)@.put(key@, val@),
            at == old(self)@.slot(key@),
    {
        broadcast use group_views;

        let at = self.find(&key);
        let mut taken = Self::new();
        std::mem::swap(self, &mut taken);
        proof {
            use_type_invariant(&taken);
        }
        let Dict { mut table, mut keys, mut vals } = taken;
        let at: usize = match at {
            Some(i) => {
                vals.set(i, val);
                i
            },
            None => {
                let i: usize = keys.len();
                table.put(&key, i);
                keys.push(key);
                vals.push(val);
                i
            },
        };
        *self = Dict { table, keys, vals };
        proof {
            self.lemma_wf();
        }
        at
    }

    /// Puts a value at a position and returns the one that was there.
    pub fn replace(&mut self, i: usize, val: V) -> (was: V)
        requires
            i < old(self)@.keys.len(),
        ensures
            old(self)@.wf(),
            was@ == old(self)@.vals[i as int],
            final(self)@.keys == old(self)@.keys,
            final(self)@.vals == old(self)@.vals.update(i as int, val@),
    {
        broadcast use group_views;

        let mut taken = Self::new();
        std::mem::swap(self, &mut taken);
        proof {
            use_type_invariant(&taken);
            taken.lemma_wf();
        }
        let Dict { table, keys, mut vals } = taken;
        let mut val = val;
        std::mem::swap(&mut vals[i], &mut val);
        *self = Dict { table, keys, vals };
        val
    }
}

} // verus!
