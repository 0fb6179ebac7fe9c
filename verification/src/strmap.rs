//! An insertion-ordered map from strings to values.
//!
//! The map is a pair of equally long sequences, keys and values, in which no
//! key occurs twice. Entries keep the order in which their keys were first
//! inserted; removing an entry closes the gap.

use vstd::prelude::*;

verus! {

/// Insertion-ordered association from string keys to values of type `V`.
#[derive(Debug)]
pub struct StrMap<V> {
    inner: Entries<V>,
}

#[derive(Debug)]
struct Entries<V> {
    keys: Vec<String>,
    vals: Vec<V>,
}

impl<V> View for StrMap<V> {
    type V = Map<Seq<char>, V>;

    /// The finite map that sends each key to its value.
    open spec fn view(&self) -> Map<Seq<char>, V> {
        Map::new(|k: Seq<char>| self.contains(k), |k: Seq<char>| self.spec_get(k))
    }
}

impl<V> StrMap<V> {
    #[verifier::type_invariant]
    spec fn inv(self) -> bool {
        &&& self.inner.keys@.len() == self.inner.vals@.len()
        &&& forall|i: int, j: int|
            0 <= i < j < self.inner.keys@.len() ==> self.inner.keys@[i]@ != self.inner.keys@[j]@
    }

    /// The keys, by position.
    pub closed spec fn spec_keys(self) -> Seq<Seq<char>> {
        Seq::new(self.inner.keys@.len(), |i: int| self.inner.keys@[i]@)
    }

    /// The values, by position: `spec_values()[i]` belongs to `spec_keys()[i]`.
    pub closed spec fn spec_values(self) -> Seq<V> {
        self.inner.vals@
    }

    /// Keys and values line up and no key occurs twice.
    pub open spec fn wf(self) -> bool {
        &&& self.spec_keys().len() == self.spec_values().len()
        &&& self.spec_keys().no_duplicates()
    }

    /// Number of entries.
    pub open spec fn spec_len(self) -> nat {
        self.spec_keys().len()
    }

    /// Whether `k` is a key of the map.
    pub open spec fn contains(self, k: Seq<char>) -> bool {
        self.spec_keys().contains(k)
    }

    /// The position of key `k`; meaningful only when `contains(k)`.
    pub open spec fn spec_index_of(self, k: Seq<char>) -> int {
        self.spec_keys().index_of(k)
    }

    /// The value stored under `k`; meaningful only when `contains(k)`.
    pub open spec fn spec_get(self, k: Seq<char>) -> V {
        self.spec_values()[self.spec_index_of(k)]
    }

    proof fn lemma_inv_wf(self)
        requires
            self.inv(),
        ensures
            self.wf(),
    {
        assert forall|i: int, j: int|
            0 <= i < self.spec_keys().len() && 0 <= j < self.spec_keys().len() && i != j implies self.spec_keys()[i]
            != self.spec_keys()[j] by {
            if i < j {
                assert(self.inner.keys@[i]@ != self.inner.keys@[j]@);
            } else {
                assert(self.inner.keys@[j]@ != self.inner.keys@[i]@);
            }
        }
    }

    /// In a well-formed map the key at position `i` is found at position `i`.
    pub proof fn lemma_index_of(self, i: int)
        requires
            self.wf(),
            0 <= i < self.spec_len(),
        ensures
            self.contains(self.spec_keys()[i]),
            self.spec_index_of(self.spec_keys()[i]) == i,
            self.spec_get(self.spec_keys()[i]) == self.spec_values()[i],
            self@.contains_key(self.spec_keys()[i]),
            self@[self.spec_keys()[i]] == self.spec_values()[i],
    {
        let k = self.spec_keys()[i];
        assert(self.spec_keys().contains(k));
        let j = self.spec_keys().index_of(k);
        assert(0 <= j < self.spec_keys().len() && self.spec_keys()[j] == k);
    }

    /// A key of the map sits at its position, and the view agrees.
    pub proof fn lemma_contains(self, k: Seq<char>)
        requires
            self.wf(),
            self.contains(k),
        ensures
            0 <= self.spec_index_of(k) < self.spec_len(),
            self.spec_keys()[self.spec_index_of(k)] == k,
            self@.contains_key(k),
            self@[k] == self.spec_values()[self.spec_index_of(k)],
    {
        let j = self.spec_keys().index_of(k);
        assert(0 <= j < self.spec_keys().len() && self.spec_keys()[j] == k);
    }

    /// Every map is well formed.
    pub fn check_wf(&self)
        ensures
            self.wf(),
    {
        proof {
            use_type_invariant(self);
            self.lemma_inv_wf();
        }
    }

    /// Replacing the value at position `i` is inserting under the key at `i`.
    pub proof fn lemma_update_at(self, after: Self, i: int, v: V)
        requires
            self.wf(),
            0 <= i < self.spec_len(),
            after.spec_keys() == self.spec_keys(),
            after.spec_values() == self.spec_values().update(i, v),
        ensures
            after.wf(),
            after@ == self@.insert(self.spec_keys()[i], v),
    {
        let k0 = self.spec_keys()[i];
        self.lemma_index_of(i);
        assert forall|k: Seq<char>| after@.contains_key(k) implies #[trigger] after@[k]
            == self@.insert(k0, v)[k] by {
            self.lemma_contains(k);
        }
        assert(after@ =~= self@.insert(k0, v));
    }

    /// A map with the keys of a well-formed map and as many values is well
    /// formed.
    pub proof fn lemma_inherit_wf(self, other: Self)
        requires
            other.wf(),
            self.spec_keys() == other.spec_keys(),
            self.spec_values().len() == other.spec_values().len(),
        ensures
            self.wf(),
    {
    }

    /// Maps with the same keys and values, position by position, have the
    /// same view.
    pub proof fn lemma_same_view(self, other: Self)
        requires
            other.spec_keys() == self.spec_keys(),
            other.spec_values() == self.spec_values(),
        ensures
            other@ == self@,
            other.wf() == self.wf(),
    {
        assert(other@ =~= self@);
    }

    /// An empty map.
    pub fn new() -> (m: Self)
        ensures
            m.spec_keys() == Seq::<Seq<char>>::empty(),
            m.spec_values() == Seq::<V>::empty(),
            m.wf(),
            m@ == Map::<Seq<char>, V>::empty(),
    {
        let m = StrMap { inner: Entries { keys: Vec::new(), vals: Vec::new() } };
        assert(m.spec_keys() =~= Seq::<Seq<char>>::empty());
        assert(m@ =~= Map::<Seq<char>, V>::empty());
        m
    }

    /// Number of entries.
    pub fn len(&self) -> (n: usize)
        ensures
            n == self.spec_len(),
            self.wf(),
    {
        self.check_wf();
        self.inner.keys.len()
    }

    /// Whether the map has no entry.
    pub fn is_empty(&self) -> (r: bool)
        ensures
            r == (self.spec_len() == 0),
            r == (forall|k: Seq<char>| !self@.contains_key(k)),
            self.wf(),
    {
        self.check_wf();
        proof {
            if self.spec_len() > 0 {
                self.lemma_index_of(0);
            }
        }
        self.inner.keys.len() == 0
    }

    /// The position of `key`, if it is a key of the map.
    pub fn position(&self, key: &str) -> (r: Option<usize>)
        ensures
            self.wf(),
            match r {
                Some(i) => self.contains(key@) && i == self.spec_index_of(key@) && i
                    < self.spec_len() && self.spec_keys()[i as int] == key@,
                None => !self.contains(key@),
            },
    {
        self.check_wf();
        let mut i: usize = 0;
        while i < self.inner.keys.len()
            invariant
                0 <= i <= self.inner.keys@.len(),
                self.wf(),
                forall|j: int| 0 <= j < i ==> self.spec_keys()[j] != key@,
            decreases self.inner.keys@.len() - i,
        {
            if self.inner.keys[i].as_str().eq(key) {
                proof {
                    assert(self.spec_keys()[i as int] == key@);
                    self.lemma_index_of(i as int);
                }
                return Some(i);
            }
            i += 1;
        }
        None
    }

    /// Whether `key` is a key of the map.
    pub fn contains_key(&self, key: &str) -> (r: bool)
        ensures
            r == self.contains(key@),
            r == self@.contains_key(key@),
    {
        self.position(key).is_some()
    }

    /// The value stored under `key`, if any.
    pub fn get(&self, key: &str) -> (r: Option<&V>)
        ensures
            self.wf(),
            match r {
                Some(v) => self.contains(key@) && *v == self.spec_get(key@) && *v == self@[key@],
                None => !self.contains(key@),
            },
    {
        proof {
            use_type_invariant(self);
        }
        match self.position(key) {
            Some(i) => Some(&self.inner.vals[i]),
            None => None,
        }
    }

    /// The key at position `i`.
    pub fn key_at(&self, i: usize) -> (k: &String)
        requires
            i < self.spec_len(),
        ensures
            k@ == self.spec_keys()[i as int],
    {
        &self.inner.keys[i]
    }

    /// The value at position `i`.
    pub fn value_at(&self, i: usize) -> (v: &V)
        requires
            i < self.spec_len(),
        ensures
            *v == self.spec_values()[i as int],
    {
        proof {
            use_type_invariant(self);
        }
        &self.inner.vals[i]
    }

    /// Mutable access to the value at position `i`; keys are untouched.
    pub fn value_at_mut(&mut self, i: usize) -> (v: &mut V)
        requires
            i < old(self).spec_len(),
        ensures
            *v == old(self).spec_values()[i as int],
            final(self).spec_keys() == old(self).spec_keys(),
            final(self).spec_values() == old(self).spec_values().update(i as int, *final(v)),
    {
        proof {
            use_type_invariant(&*self);
        }
        &mut self.inner.vals[i]
    }

    /// Stores `value` under `key`. An existing entry keeps its position and
    /// hands back its former value; a new entry goes to the end.
    pub fn insert(&mut self, key: String, value: V) -> (r: Option<V>)
        ensures
            final(self).wf(),
            final(self)@ == old(self)@.insert(key@, value),
            match r {
                Some(prev) => {
                    &&& old(self).contains(key@)
                    &&& prev == old(self).spec_get(key@)
                    &&& final(self).spec_keys() == old(self).spec_keys()
                    &&& final(self).spec_values() == old(self).spec_values().update(
                        old(self).spec_index_of(key@),
                        value,
                    )
                },
                None => {
                    &&& !old(self).contains(key@)
                    &&& final(self).spec_keys() == old(self).spec_keys().push(key@)
                    &&& final(self).spec_values() == old(self).spec_values().push(value)
                },
            },
    {
        self.check_wf();
        proof {
            use_type_invariant(&*self);
        }
        let ghost before = *self;
        match self.position(key.as_str()) {
            Some(i) => {
                let mut value = value;
                let slot = &mut self.inner.vals[i];
                core::mem::swap(slot, &mut value);
                proof {
                    assert(self.spec_keys() == before.spec_keys());
                    assert(self.inv());
                    self.lemma_inv_wf();
                    assert forall|k: Seq<char>| #[trigger]
                        self@.contains_key(k) == before@.insert(key@, self.inner.vals@[i as int]).contains_key(
                            k,
                        ) by {}
                    assert forall|k: Seq<char>| self@.contains_key(k) implies #[trigger] self@[k]
                        == before@.insert(key@, self.inner.vals@[i as int])[k] by {
                        before.lemma_contains(k);
                    }
                    assert(self@ =~= before@.insert(key@, self.inner.vals@[i as int]));
                }
                Some(value)
            },
            None => {
                let ghost k0 = key@;
                proof {
                    assert forall|a: int| 0 <= a < before.inner.keys@.len() implies before.inner.keys@[a]@
                        != k0 by {
                        assert(before.spec_keys()[a] == before.inner.keys@[a]@);
                    }
                }
                let mut e = Entries { keys: Vec::new(), vals: Vec::new() };
                core::mem::swap(&mut e, &mut self.inner);
                e.keys.push(key);
                e.vals.push(value);
                self.inner = e;
                proof {
                    assert(self.spec_keys() =~= before.spec_keys().push(k0));
                    assert forall|a: int, b: int|
                        0 <= a < b < self.inner.keys@.len() implies self.inner.keys@[a]@ != self.inner.keys@[b]@ by {
                        if b == before.inner.keys@.len() {
                            assert(before.spec_keys()[a] == self.inner.keys@[a]@);
                        } else {
                            assert(before.inner.keys@[a]@ != before.inner.keys@[b]@);
                        }
                    }
                }
                proof {
                    assert(self.inv());
                    self.lemma_inv_wf();
                    let n = before.spec_len() as int;
                    assert forall|k: Seq<char>| #[trigger]
                        self@.contains_key(k) == before@.insert(k0, value).contains_key(k) by {
                        if before.contains(k) {
                            before.lemma_contains(k);
                            assert(self.spec_keys()[before.spec_index_of(k)] == k);
                        }
                        if k == k0 {
                            assert(self.spec_keys()[n] == k0);
                        }
                    }
                    assert forall|k: Seq<char>| self@.contains_key(k) implies #[trigger] self@[k]
                        == before@.insert(k0, value)[k] by {
                        self.lemma_contains(k);
                        let j = self.spec_index_of(k);
                        if j < n {
                            assert(before.spec_keys()[j] == k);
                            before.lemma_index_of(j);
                        } else {
                            assert(k == k0);
                        }
                    }
                    assert(self@ =~= before@.insert(k0, value));
                }
                None
            },
        }
    }

    /// Removes the entry of `key`, if there is one, and hands back its value.
    /// Later entries move up by one position.
    pub fn remove(&mut self, key: &str) -> (r: Option<V>)
        ensures
            final(self).wf(),
            final(self)@ == old(self)@.remove(key@),
            match r {
                Some(prev) => {
                    &&& old(self).contains(key@)
                    &&& prev == old(self).spec_get(key@)
                    &&& final(self).spec_keys() == old(self).spec_keys().remove(
                        old(self).spec_index_of(key@),
                    )
                    &&& final(self).spec_values() == old(self).spec_values().remove(
                        old(self).spec_index_of(key@),
                    )
                },
                None => !old(self).contains(key@) && *final(self) == *old(self),
            },
    {
        self.check_wf();
        proof {
            use_type_invariant(&*self);
        }
        let ghost before = *self;
        match self.position(key) {
            Some(i) => {
                let mut e = Entries { keys: Vec::new(), vals: Vec::new() };
                core::mem::swap(&mut e, &mut self.inner);
                let _k = e.keys.remove(i);
                let v = e.vals.remove(i);
                proof {
                    assert forall|a: int, b: int| 0 <= a < b < e.keys@.len() implies e.keys@[a]@
                        != e.keys@[b]@ by {
                        let a0 = if a < i { a } else { a + 1 };
                        let b0 = if b < i { b } else { b + 1 };
                        assert(before.inner.keys@[a0]@ != before.inner.keys@[b0]@);
                    }
                }
                self.inner = e;
                proof {
                    let n = before.spec_len() as int;
                    assert(self.spec_keys() =~= before.spec_keys().remove(i as int));
                    assert forall|a: int, b: int|
                        0 <= a < b < self.inner.keys@.len() implies self.inner.keys@[a]@ != self.inner.keys@[b]@ by {
                        let a0 = if a < i { a } else { a + 1 };
                        let b0 = if b < i { b } else { b + 1 };
                        assert(before.inner.keys@[a0]@ != before.inner.keys@[b0]@);
                    }
                }
                proof {
                    assert(self.inv());
                    self.lemma_inv_wf();
                    assert forall|k: Seq<char>| #[trigger]
                        self@.contains_key(k) == before@.remove(key@).contains_key(k) by {
                        if self.contains(k) {
                            self.lemma_contains(k);
                            let j = self.spec_index_of(k);
                            let j0 = if j < i { j } else { j + 1 };
                            assert(before.spec_keys()[j0] == k);
                            before.lemma_index_of(j0);
                        }
                        if before.contains(k) && k != key@ {
                            before.lemma_contains(k);
                            let j0 = before.spec_index_of(k);
                            let j = if j0 < i { j0 } else { j0 - 1 };
                            assert(self.spec_keys()[j] == k);
                        }
                    }
                    assert forall|k: Seq<char>| self@.contains_key(k) implies #[trigger] self@[k]
                        == before@.remove(key@)[k] by {
                        self.lemma_contains(k);
                        let j = self.spec_index_of(k);
                        let j0 = if j < i { j } else { j + 1 };
                        assert(before.spec_keys()[j0] == k);
                        before.lemma_index_of(j0);
                    }
                    assert(self@ =~= before@.remove(key@));
                }
                Some(v)
            },
            None => {
                proof {
                    assert(self@ =~= before@.remove(key@));
                }
                None
            },
        }
    }
}

impl<V: Clone> Clone for StrMap<V> {
    /// A map with the same keys in the same order, each with a clone of its
    /// value.
    fn clone(&self) -> (r: Self)
        ensures
            r.spec_keys() == self.spec_keys(),
            r.spec_values().len() == self.spec_values().len(),
    {
        proof {
            use_type_invariant(self);
        }
        let mut e = Entries { keys: Vec::new(), vals: Vec::new() };
        let mut i: usize = 0;
        while i < self.inner.keys.len()
            invariant
                0 <= i <= self.inner.keys@.len(),
                self.inner.keys@.len() == self.inner.vals@.len(),
                e.keys@.len() == i,
                e.vals@.len() == i,
                forall|j: int| 0 <= j < i ==> e.keys@[j]@ == self.inner.keys@[j]@,
            decreases self.inner.keys@.len() - i,
        {
            e.keys.push(self.inner.keys[i].clone());
            e.vals.push(self.inner.vals[i].clone());
            i += 1;
        }
        let r = StrMap { inner: e };
        assert(r.spec_keys() =~= self.spec_keys());
        r
    }
}

impl<V: Copy> StrMap<V> {
    /// A map with the same keys and values in the same order.
    pub fn copied(&self) -> (r: Self)
        ensures
            r.spec_keys() == self.spec_keys(),
            r.spec_values() == self.spec_values(),
            r@ == self@,
    {
        proof {
            use_type_invariant(self);
        }
        let mut e = Entries { keys: Vec::new(), vals: Vec::new() };
        let mut i: usize = 0;
        while i < self.inner.keys.len()
            invariant
                0 <= i <= self.inner.keys@.len(),
                self.inner.keys@.len() == self.inner.vals@.len(),
                e.keys@.len() == i,
                e.vals@ == self.inner.vals@.take(i as int),
                forall|j: int| 0 <= j < i ==> e.keys@[j]@ == self.inner.keys@[j]@,
            decreases self.inner.keys@.len() - i,
        {
            e.keys.push(self.inner.keys[i].clone());
            e.vals.push(self.inner.vals[i]);
            proof {
                assert(e.vals@ =~= self.inner.vals@.take(i + 1));
            }
            i += 1;
        }
        proof {
            assert(self.inner.vals@.take(self.inner.vals@.len() as int) =~= self.inner.vals@);
        }
        let r = StrMap { inner: e };
        proof {
            assert(r.spec_keys() =~= self.spec_keys());
            self.lemma_same_view(r);
        }
        r
    }
}

/// An insertion-ordered set of strings.
#[derive(Debug, Clone)]
pub struct StrSet {
    map: StrMap<()>,
}

impl View for StrSet {
    type V = Set<Seq<char>>;

    /// The set of the members.
    open spec fn view(&self) -> Set<Seq<char>> {
        Set::new(|k: Seq<char>| self.spec_elems().contains(k))
    }
}

impl StrSet {
    /// The members, in insertion order, each once.
    pub closed spec fn spec_elems(self) -> Seq<Seq<char>> {
        self.map.spec_keys()
    }

    /// No member occurs twice.
    pub open spec fn wf(self) -> bool {
        self.spec_elems().no_duplicates()
    }

    /// Number of members.
    pub open spec fn spec_len(self) -> nat {
        self.spec_elems().len()
    }

    /// Every set is well formed.
    pub fn check_wf(&self)
        ensures
            self.wf(),
    {
        self.map.check_wf();
    }

    /// The empty set.
    pub fn new() -> (s: Self)
        ensures
            s.spec_elems() == Seq::<Seq<char>>::empty(),
            s@ == Set::<Seq<char>>::empty(),
    {
        let s = StrSet { map: StrMap::new() };
        assert(s@ =~= Set::<Seq<char>>::empty());
        s
    }

    /// Number of members.
    pub fn len(&self) -> (n: usize)
        ensures
            n == self.spec_len(),
            self.wf(),
    {
        self.map.len()
    }

    /// Whether the set has no member.
    pub fn is_empty(&self) -> (r: bool)
        ensures
            r == (self.spec_len() == 0),
            r == (self@ == Set::<Seq<char>>::empty()),
    {
        let r = self.map.is_empty();
        proof {
            if r {
                assert(self@ =~= Set::<Seq<char>>::empty());
            } else {
                assert(self.spec_elems().contains(self.spec_elems()[0]));
                assert(self@.contains(self.spec_elems()[0]));
            }
        }
        r
    }

    /// Whether `key` is a member.
    pub fn contains(&self, key: &str) -> (r: bool)
        ensures
            r == self@.contains(key@),
            r == self.spec_elems().contains(key@),
    {
        self.map.contains_key(key)
    }

    /// The member at position `i`.
    pub fn at(&self, i: usize) -> (k: &String)
        requires
            i < self.spec_len(),
        ensures
            k@ == self.spec_elems()[i as int],
    {
        self.map.key_at(i)
    }

    /// Adds `key`; a new member goes to the end. Tells whether it was new.
    pub fn insert(&mut self, key: String) -> (fresh: bool)
        ensures
            final(self).wf(),
            final(self)@ == old(self)@.insert(key@),
            fresh == !old(self)@.contains(key@),
            fresh ==> final(self).spec_elems() == old(self).spec_elems().push(key@),
            !fresh ==> final(self).spec_elems() == old(self).spec_elems(),
    {
        let ghost k = key@;
        let ghost before = *self;
        let r = self.map.insert(key, ());
        proof {
            assert forall|x: Seq<char>| self@.contains(x) == before@.insert(k).contains(x) by {
                assert(self.map@.contains_key(x) == before.map@.insert(k, ()).contains_key(x));
            }
            assert(self@ =~= before@.insert(k));
        }
        r.is_none()
    }

    /// Removes `key`; later members move up. Tells whether it was a member.
    pub fn remove(&mut self, key: &str) -> (found: bool)
        ensures
            final(self).wf(),
            final(self)@ == old(self)@.remove(key@),
            found == old(self)@.contains(key@),
            found ==> final(self).spec_elems() == old(self).spec_elems().remove(
                old(self).spec_elems().index_of(key@),
            ),
            !found ==> final(self).spec_elems() == old(self).spec_elems(),
    {
        let ghost before = *self;
        let r = self.map.remove(key);
        proof {
            assert forall|x: Seq<char>| self@.contains(x) == before@.remove(key@).contains(x) by {
                assert(self.map@.contains_key(x) == before.map@.remove(key@).contains_key(x));
            }
            assert(self@ =~= before@.remove(key@));
        }
        r.is_some()
    }
}

} // verus!
