//! A map from text to values that can also be walked.
//!
//! The pairs stand in a vector; a hash map says at which place the pair of a
//! key stands. Taking a pair out fills its place with the last one, so every
//! operation on one key takes constant time.

use crate::text::texts;
use vstd::hash_map::StringHashMap;
use vstd::prelude::*;

verus! {

/// A map from text to values of type `V`.
#[verifier::reject_recursive_types(V)]
pub struct Table<V> {
    pairs: Vec<(String, V)>,
    places: StringHashMap<usize>,
}

impl<V> View for Table<V> {
    type V = Map<Seq<char>, V>;

    closed spec fn view(&self) -> Map<Seq<char>, V> {
        self.places@.map_values(|i: usize| self.pairs@[i as int].1)
    }
}

impl<V> Table<V> {
    /// Each pair is found through its key, and each key leads to its pair.
    pub closed spec fn wf(&self) -> bool {
        &&& forall|i: int|
            0 <= i < self.pairs@.len() ==> {
                &&& self.places@.contains_key((#[trigger] self.pairs@[i]).0@)
                &&& self.places@[self.pairs@[i].0@] == i
            }
        &&& forall|k: Seq<char>| #[trigger]
            self.places@.contains_key(k) ==> {
                &&& self.places@[k] < self.pairs@.len()
                &&& self.pairs@[self.places@[k] as int].0@ == k
            }
    }

    /// The keys, in the order in which they can be walked.
    pub closed spec fn keys(&self) -> Seq<Seq<char>> {
        self.pairs@.map_values(|p: (String, V)| p.0@)
    }

    /// The walk meets each key once, and no other text.
    pub proof fn keys_are_the_domain(&self)
        requires
            self.wf(),
        ensures
            self.keys().no_duplicates(),
            self.keys().to_set() == self@.dom(),
            self@.dom().finite(),
            self@.len() == self.keys().len(),
    {
        let keys = self.keys();
        assert forall|k: Seq<char>| keys.to_set().contains(k) == self@.dom().contains(k) by {
            if self@.dom().contains(k) {
                let i = self.places@[k] as int;
                assert(keys[i] == k);
            }
        }
        keys.unique_seq_to_set();
    }

    /// A table that holds nothing.
    pub fn new() -> (t: Self)
        ensures
            t.wf(),
            t@ == Map::<Seq<char>, V>::empty(),
    {
        Table { pairs: Vec::new(), places: StringHashMap::new() }
    }

    /// How many keys the table holds.
    pub fn len(&self) -> (n: usize)
        requires
            self.wf(),
        ensures
            n == self@.len(),
            n == self.keys().len(),
    {
        proof {
            self.keys_are_the_domain();
        }
        self.pairs.len()
    }

    /// The key at place `i` of the walk.
    pub fn key(&self, i: usize) -> (k: &String)
        requires
            self.wf(),
            i < self.keys().len(),
        ensures
            k@ == self.keys()[i as int],
            self@.contains_key(k@),
    {
        &self.pairs[i].0
    }

    /// The value at place `i` of the walk.
    pub fn value(&self, i: usize) -> (v: &V)
        requires
            self.wf(),
            i < self.keys().len(),
        ensures
            self@.contains_key(self.keys()[i as int]),
            *v == self@[self.keys()[i as int]],
    {
        &self.pairs[i].1
    }

    /// All the keys, in the order of the walk.
    pub fn key_list(&self) -> (list: Vec<String>)
        requires
            self.wf(),
        ensures
            texts(list@) == self.keys(),
    {
        let mut list: Vec<String> = Vec::new();
        let mut i: usize = 0;
        while i < self.pairs.len()
            invariant
                i <= self.pairs.len(),
                list.len() == i,
                forall|j: int| 0 <= j < i ==> (#[trigger] list@[j])@ == self.pairs@[j].0@,
            decreases self.pairs.len() - i,
        {
            list.push(self.pairs[i].0.clone());
            i = i + 1;
        }
        list
    }

    /// Puts `value` under `key`, in place of what was there.
    pub fn insert(&mut self, key: String, value: V)
        requires
            old(self).wf(),
        ensures
            final(self).wf(),
            final(self)@ == old(self)@.insert(key@, value),
    {
        let place: Option<usize> = match self.places.get(key.as_str()) {
            Some(i) => Some(*i),
            None => None,
        };
        match place {
            Some(i) => {
                self.pairs.set(i, (key, value));
            },
            None => {
                let i: usize = self.pairs.len();
                self.places.insert(key.clone(), i);
                self.pairs.push((key, value));
            },
        }
    }

    /// Takes the value under `key` out.
    pub fn remove(&mut self, key: &str) -> (v: Option<V>)
        requires
            old(self).wf(),
        ensures
            final(self).wf(),
            final(self)@ == old(self)@.remove(key@),
            match v {
                Some(v) => old(self)@.contains_key(key@) && v == old(self)@[key@],
                None => !old(self)@.contains_key(key@),
            },
    {
        let place: Option<usize> = match self.places.get(key) {
            Some(i) => Some(*i),
            None => None,
        };
        match place {
            None => None,
            Some(i) => {
                let last: usize = self.pairs.len() - 1;
                let (_, value) = self.pairs.swap_remove(i);
                self.places.remove(key);
                if i < last {
                    let moved: String = self.pairs[i].0.clone();
                    self.places.insert(moved, i);
                }
                Some(value)
            },
        }
    }
}

} // verus!
