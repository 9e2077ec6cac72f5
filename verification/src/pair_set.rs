//! A finite set of ordered pairs of keys, with membership, insertion and
//! removal in constant expected time and its size at hand.
//!
//! The pairs lie in a vector, each of them once. An index of two levels, by
//! the first and then by the second key of a pair, gives the place of each
//! pair in the vector. A pair leaves the set by giving its place to the last
//! pair of the vector.

use std::collections::HashMap;
use std::hash::Hash;
use vstd::prelude::*;
use vstd::std_specs::hash::obeys_key_model;

verus! {

/// A map from ordered pairs of keys to places, held as a map of maps.
#[verifier::reject_recursive_types(T)]
pub struct PairIndex<T: Eq + Hash + Copy> {
    rows: HashMap<T, HashMap<T, usize>>,
}

impl<T: Eq + Hash + Copy> View for PairIndex<T> {
    type V = Map<(T, T), usize>;

    closed spec fn view(&self) -> Map<(T, T), usize> {
        Map::new(
            |p: (T, T)| self.rows@.contains_key(p.0) && self.rows@[p.0]@.contains_key(p.1),
            |p: (T, T)| self.rows@[p.0]@[p.1],
        )
    }
}

impl<T: Eq + Hash + Copy> PairIndex<T> {
    /// An index without entries.
    pub fn new() -> (index: Self)
        ensures
            index@ == Map::<(T, T), usize>::empty(),
    {
        PairIndex { rows: HashMap::new() }
    }

    /// The place recorded for the pair `(a, b)`, if there is one.
    pub fn get(&self, a: &T, b: &T) -> (place: Option<usize>)
        requires
            obeys_key_model::<T>(),
        ensures
            place == (if self@.contains_key((*a, *b)) {
                Some(self@[(*a, *b)])
            } else {
                None
            }),
    {
        match self.rows.get(a) {
            Some(row) => match row.get(b) {
                Some(place) => Some(*place),
                None => None,
            },
            None => None,
        }
    }

    /// Records `place` for the pair `(a, b)`, in place of what was recorded
    /// for it before.
    pub fn insert(&mut self, a: T, b: T, place: usize)
        requires
            obeys_key_model::<T>(),
        ensures
            final(self)@ == old(self)@.insert((a, b), place),
    {
        let mut row = match self.rows.remove(&a) {
            Some(row) => row,
            None => HashMap::new(),
        };
        row.insert(b, place);
        self.rows.insert(a, row);
    }

    /// Forgets the pair `(a, b)`.
    pub fn remove(&mut self, a: &T, b: &T)
        requires
            obeys_key_model::<T>(),
        ensures
            final(self)@ == old(self)@.remove((*a, *b)),
    {
        if let Some(mut row) = self.rows.remove(a) {
            row.remove(b);
            if !row.is_empty() {
                self.rows.insert(*a, row);
            }
        }
    }
}

/// A finite set of ordered pairs of keys.
#[verifier::reject_recursive_types(T)]
pub struct PairSet<T: Eq + Hash + Copy> {
    /// The pairs of the set, each of them once, in no particular order.
    pairs: Vec<(T, T)>,
    /// For each pair of the set, its place in `pairs`.
    places: PairIndex<T>,
}

impl<T: Eq + Hash + Copy> View for PairSet<T> {
    type V = Set<(T, T)>;

    closed spec fn view(&self) -> Set<(T, T)> {
        self.places@.dom()
    }
}

impl<T: Eq + Hash + Copy> PairSet<T> {
    /// The keys obey the model of hash table keys, and the index gives for
    /// each pair of the vector its place there, and holds no other pair.
    pub closed spec fn wf(&self) -> bool {
        &&& obeys_key_model::<T>()
        &&& forall|i: int|
            0 <= i < self.pairs@.len() ==> self.places@.contains_key(#[trigger] self.pairs@[i])
                && self.places@[self.pairs@[i]] == i
        &&& forall|p: (T, T)| #[trigger]
            self.places@.contains_key(p) ==> self.places@[p] < self.pairs@.len()
                && self.pairs@[self.places@[p] as int] == p
    }

    /// A set that is well formed is finite.
    pub proof fn lemma_finite(&self)
        requires
            self.wf(),
        ensures
            self@.finite(),
    {
        self.lemma_size();
    }

    /// The vector holds as many pairs as the set has members.
    proof fn lemma_size(&self)
        requires
            self.wf(),
        ensures
            self@.finite(),
            self@.len() == self.pairs@.len(),
    {
        let pairs = self.pairs@;
        assert(self@ =~= pairs.to_set());
        pairs.unique_seq_to_set();
    }

    /// The empty set.
    pub fn new() -> (set: Self)
        requires
            obeys_key_model::<T>(),
        ensures
            set.wf(),
            set@ == Set::<(T, T)>::empty(),
    {
        PairSet { pairs: Vec::new(), places: PairIndex::new() }
    }

    /// The number of pairs in the set.
    pub fn len(&self) -> (n: usize)
        requires
            self.wf(),
        ensures
            n == self@.len(),
    {
        proof {
            self.lemma_size();
        }
        self.pairs.len()
    }

    /// Whether the pair `(a, b)` is in the set.
    pub fn contains(&self, a: &T, b: &T) -> (found: bool)
        requires
            self.wf(),
        ensures
            found == self@.contains((*a, *b)),
    {
        self.places.get(a, b).is_some()
    }

    /// Puts the pair `(a, b)` into the set, and tells whether it was new.
    pub fn insert(&mut self, a: T, b: T) -> (added: bool)
        requires
            old(self).wf(),
        ensures
            final(self).wf(),
            final(self)@ == old(self)@.insert((a, b)),
            added == !old(self)@.contains((a, b)),
    {
        if self.places.get(&a, &b).is_some() {
            return false;
        }
        let place = self.pairs.len();
        self.pairs.push((a, b));
        self.places.insert(a, b, place);
        true
    }

    /// Takes the pair `(a, b)` out of the set, and tells whether it was
    /// there.
    pub fn remove(&mut self, a: &T, b: &T) -> (removed: bool)
        requires
            old(self).wf(),
        ensures
            final(self).wf(),
            final(self)@ == old(self)@.remove((*a, *b)),
            removed == old(self)@.contains((*a, *b)),
    {
        let place = match self.places.get(a, b) {
            Some(place) => place,
            None => return false,
        };
        self.places.remove(a, b);
        let last = self.pairs.pop().unwrap();
        if place < self.pairs.len() {
            self.pairs.set(place, last);
            self.places.insert(last.0, last.1, place);
        }
        true
    }
}

} // verus!
