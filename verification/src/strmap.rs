//! A small map from strings to values, kept as a vector in which no key
//! occurs twice.
//!
//! Its view is a `Map<Seq<char>, V>`; the order in which the keys were
//! entered is visible through [`StrMap::keys`] and is what the walks of the
//! other modules follow.

use vstd::prelude::*;
use crate::text::str_eq;

verus! {

/// One key with its value.
pub struct Slot<V> {
    key: String,
    value: V,
}

/// A map from strings to values.
pub struct StrMap<V> {
    slots: Vec<Slot<V>>,
}

/// No two slots hold the same key.
pub closed spec fn distinct_keys<V>(slots: Seq<Slot<V>>) -> bool {
    forall|i: int, j: int|
        0 <= i < slots.len() && 0 <= j < slots.len() && i != j ==> slots[i].key@ != slots[j].key@
}

/// Whether some slot holds `key`.
pub closed spec fn has_key<V>(slots: Seq<Slot<V>>, key: Seq<char>) -> bool {
    exists|i: int| 0 <= i < slots.len() && slots[i].key@ == key
}

/// A slot that holds `key`, where there is one.
pub closed spec fn slot_of<V>(slots: Seq<Slot<V>>, key: Seq<char>) -> int {
    choose|i: int| 0 <= i < slots.len() && slots[i].key@ == key
}

impl<V> View for StrMap<V> {
    type V = Map<Seq<char>, V>;

    closed spec fn view(&self) -> Map<Seq<char>, V> {
        Map::new(
            |k: Seq<char>| has_key(self.slots@, k),
            |k: Seq<char>| self.slots@[slot_of(self.slots@, k)].value,
        )
    }
}

impl<V> StrMap<V> {
    #[verifier::type_invariant]
    spec fn inv(self) -> bool {
        distinct_keys(self.slots@)
    }

    /// The keys, in the order in which they were entered.
    pub closed spec fn keys(&self) -> Seq<Seq<char>> {
        Seq::new(self.slots@.len(), |i: int| self.slots@[i].key@)
    }

    /// The keys are those of the view, each once.
    pub proof fn lemma_keys_are_domain(&self)
        ensures
            forall|k: Seq<char>| self@.contains_key(k) <==> self.keys().contains(k),
    {
        assert forall|k: Seq<char>| self@.contains_key(k) <==> self.keys().contains(k) by {
            if self@.contains_key(k) {
                let i = slot_of(self.slots@, k);
                assert(self.keys()[i] == k);
            }
            if self.keys().contains(k) {
                let i = choose|i: int| 0 <= i < self.keys().len() && self.keys()[i] == k;
                assert(self.slots@[i].key@ == k);
            }
        }
    }

    /// An empty map.
    pub fn new() -> (m: Self)
        ensures
            m@ == Map::<Seq<char>, V>::empty(),
            m.keys() == Seq::<Seq<char>>::empty(),
    {
        let m = StrMap { slots: Vec::new() };
        assert(m@ =~= Map::<Seq<char>, V>::empty());
        assert(m.keys() =~= Seq::<Seq<char>>::empty());
        m
    }

    /// The number of entries.
    pub fn len(&self) -> (n: usize)
        ensures
            n == self.keys().len(),
            n == self@.dom().len(),
            self@.dom().finite(),
            self.keys().no_duplicates(),
    {
        proof {
            use_type_invariant(self);
            self.lemma_keys_are_domain();
            assert(self.keys().no_duplicates());
            assert(self.keys().to_set() =~= self@.dom());
            self.keys().unique_seq_to_set();
        }
        self.slots.len()
    }

    /// Whether the map holds nothing.
    pub fn is_empty(&self) -> (b: bool)
        ensures
            b == (self@.dom().len() == 0),
            b == (self@ == Map::<Seq<char>, V>::empty()),
    {
        let n = self.len();
        proof {
            if n == 0 {
                assert(self@ =~= Map::<Seq<char>, V>::empty());
            } else {
                assert(self.keys()[0] == self.slots@[0].key@);
                assert(has_key(self.slots@, self.slots@[0].key@));
                assert(self@.contains_key(self.slots@[0].key@));
            }
        }
        n == 0
    }

    /// Where `key` stands among the keys, if it is one of them.
    pub fn position(&self, key: &str) -> (r: Option<usize>)
        ensures
            match r {
                Some(i) => i < self.keys().len() && self.keys()[i as int] == key@
                    && self@.contains_key(key@),
                None => !self@.contains_key(key@),
            },
    {
        let mut i: usize = 0;
        while i < self.slots.len()
            invariant
                i <= self.slots.len(),
                forall|j: int| 0 <= j < i ==> self.slots@[j].key@ != key@,
            decreases self.slots.len() - i,
        {
            if str_eq(self.slots[i].key.as_str(), key) {
                assert(has_key(self.slots@, key@));
                return Some(i);
            }
            i += 1;
        }
        None
    }

    /// Whether `key` is in the map.
    pub fn contains_key(&self, key: &str) -> (b: bool)
        ensures
            b == self@.contains_key(key@),
    {
        self.position(key).is_some()
    }

    /// The key in place `i`.
    pub fn key_at(&self, i: usize) -> (k: &str)
        requires
            i < self.keys().len(),
        ensures
            k@ == self.keys()[i as int],
            self@.contains_key(k@),
    {
        assert(has_key(self.slots@, self.slots@[i as int].key@));
        self.slots[i].key.as_str()
    }

    /// The value in place `i`.
    pub fn value_at(&self, i: usize) -> (v: &V)
        requires
            i < self.keys().len(),
        ensures
            self@.contains_key(self.keys()[i as int]),
            *v == self@[self.keys()[i as int]],
    {
        proof {
            use_type_invariant(self);
            let k = self.slots@[i as int].key@;
            assert(has_key(self.slots@, k));
            assert(slot_of(self.slots@, k) == i);
        }
        &self.slots[i].value
    }

    /// The value stored under `key`, if there is one.
    pub fn get(&self, key: &str) -> (r: Option<&V>)
        ensures
            match r {
                Some(v) => self@.contains_key(key@) && *v == self@[key@],
                None => !self@.contains_key(key@),
            },
    {
        match self.position(key) {
            Some(i) => Some(self.value_at(i)),
            None => None,
        }
    }

    /// Takes the entry for `key` out of the map and returns its value.
    pub fn remove(&mut self, key: &str) -> (r: Option<V>)
        ensures
            final(self)@ == old(self)@.remove(key@),
            match r {
                Some(v) => old(self)@.contains_key(key@) && v == old(self)@[key@],
                None => !old(self)@.contains_key(key@),
            },
    {
        proof {
            use_type_invariant(&*self);
        }
        match self.position(key) {
            Some(i) => {
                let ghost before = self.slots@;
                assert(has_key(before, key@));
                assert(slot_of(before, key@) == i);
                let mut slots: Vec<Slot<V>> = Vec::new();
                core::mem::swap(&mut self.slots, &mut slots);
                let slot = slots.remove(i);
                let ghost after = slots@;
                proof {
                    assert(after == before.remove(i as int));
                    assert forall|a: int, b: int|
                        0 <= a < after.len() && 0 <= b < after.len() && a != b implies after[a].key@
                        != after[b].key@ by {
                        let a0 = if a < i { a } else { a + 1 };
                        let b0 = if b < i { b } else { b + 1 };
                        assert(after[a] == before[a0]);
                        assert(after[b] == before[b0]);
                    }
                    assert forall|k: Seq<char>| has_key(after, k) <==> (has_key(before, k) && k
                        != key@) by {
                        if has_key(after, k) {
                            let a = slot_of(after, k);
                            let a0 = if a < i { a } else { a + 1 };
                            assert(after[a] == before[a0]);
                        }
                        if has_key(before, k) && k != key@ {
                            let b = slot_of(before, k);
                            let b1 = if b < i { b } else { b - 1 };
                            assert(after[b1] == before[b]);
                        }
                    }
                    assert forall|k: Seq<char>| has_key(after, k) implies after[slot_of(after, k)].value
                        == before[slot_of(before, k)].value by {
                        let a = slot_of(after, k);
                        let a0 = if a < i { a } else { a + 1 };
                        assert(after[a] == before[a0]);
                        assert(slot_of(before, k) == a0);
                    }
                }
                self.slots = slots;
                assert(self@ =~= old(self)@.remove(key@));
                Some(slot.value)
            },
            None => {
                assert(self@ =~= old(self)@.remove(key@));
                None
            },
        }
    }

    /// Stores `value` under `key`, and returns the value that it replaces.
    pub fn insert(&mut self, key: String, value: V) -> (r: Option<V>)
        ensures
            final(self)@ == old(self)@.insert(key@, value),
            match r {
                Some(v) => old(self)@.contains_key(key@) && v == old(self)@[key@],
                None => !old(self)@.contains_key(key@),
            },
    {
        let r = self.remove(key.as_str());
        proof {
            use_type_invariant(&*self);
        }
        let ghost before = self.slots@;
        let ghost mid = self@;
        let ghost k0 = key@;
        assert(mid == old(self)@.remove(k0));
        assert(!mid.contains_key(k0));
        assert(!has_key(before, k0));
        let mut slots: Vec<Slot<V>> = Vec::new();
        core::mem::swap(&mut self.slots, &mut slots);
        slots.push(Slot { key, value });
        let ghost after = slots@;
        proof {
            let n = before.len() as int;
            assert(after[n].key@ == k0);
            assert forall|a: int, b: int|
                0 <= a < after.len() && 0 <= b < after.len() && a != b implies after[a].key@
                != after[b].key@ by {
                if a < n {
                    assert(after[a] == before[a]);
                }
                if b < n {
                    assert(after[b] == before[b]);
                }
            }
            assert forall|k: Seq<char>| has_key(after, k) <==> (has_key(before, k) || k == k0) by {
                if has_key(after, k) {
                    let a = slot_of(after, k);
                    if a < n {
                        assert(after[a] == before[a]);
                    }
                }
                if has_key(before, k) {
                    let b = slot_of(before, k);
                    assert(after[b] == before[b]);
                }
            }
            assert forall|k: Seq<char>| has_key(before, k) implies after[slot_of(after, k)].value
                == before[slot_of(before, k)].value by {
                let b = slot_of(before, k);
                assert(after[b] == before[b]);
                assert(has_key(after, k));
                assert(slot_of(after, k) == b);
            }
            assert(has_key(after, k0));
            assert(slot_of(after, k0) == n);
        }
        self.slots = slots;
        assert(self@ =~= mid.insert(k0, value));
        assert(mid.insert(k0, value) =~= old(self)@.insert(k0, value));
        r
    }
}

} // verus!
