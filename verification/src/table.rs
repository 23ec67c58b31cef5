//! Association lists keyed by strings.
//!
//! [`Assoc`] is the mathematical model: a sequence of key/value pairs read as
//! a finite map in which the first pair with a given key is the one that
//! counts. [`Table`] is the executable container behind it; it never holds
//! the same key twice.

use crate::text::str_eq;
use vstd::prelude::*;

verus! {

/// A finite map from strings to `V` that remembers in which order its keys
/// were first inserted.
pub struct Assoc<V> {
    pub entries: Seq<(Seq<char>, V)>,
}

impl<V> Assoc<V> {
    /// The map without any key.
    pub open spec fn empty() -> Self {
        Assoc { entries: Seq::empty() }
    }

    /// The keys, in order.
    pub open spec fn keys(self) -> Seq<Seq<char>> {
        self.entries.map_values(|e: (Seq<char>, V)| e.0)
    }

    /// No key occurs twice.
    pub open spec fn wf(self) -> bool {
        self.keys().no_duplicates()
    }

    /// The index of the first pair whose key is `key`.
    pub open spec fn find(self, key: Seq<char>) -> Option<int> {
        self.keys().index_of_first(key)
    }

    /// Whether some pair holds `key`.
    pub open spec fn contains_key(self, key: Seq<char>) -> bool {
        self.find(key) is Some
    }

    /// The value that `key` maps to.
    pub open spec fn get(self, key: Seq<char>) -> Option<V> {
        match self.find(key) {
            Some(i) => Some(self.entries[i].1),
            None => None,
        }
    }

    /// Maps `key` to `val`: a key that is already there keeps its place and
    /// gets the new value, a new key goes to the end.
    pub open spec fn insert(self, key: Seq<char>, val: V) -> Self {
        match self.find(key) {
            Some(i) => Assoc { entries: self.entries.update(i, (key, val)) },
            None => Assoc { entries: self.entries.push((key, val)) },
        }
    }

    /// The map without `key`: the first pair that holds it leaves, the others
    /// keep their order.
    pub open spec fn remove(self, key: Seq<char>) -> Self {
        match self.find(key) {
            Some(i) => Assoc { entries: self.entries.remove(i) },
            None => self,
        }
    }

    /// The same map without its order.
    pub open spec fn to_map(self) -> Map<Seq<char>, V> {
        Map::new(|k: Seq<char>| self.contains_key(k), |k: Seq<char>| self.get(k)->0)
    }

    /// What `find` returns: the first index that holds the key, if any does.
    pub proof fn lemma_find(self, key: Seq<char>)
        ensures
            match self.find(key) {
                Some(i) => {
                    &&& 0 <= i < self.entries.len()
                    &&& self.entries[i].0 == key
                    &&& forall|j: int| 0 <= j < i ==> self.entries[j].0 != key
                },
                None => forall|j: int| 0 <= j < self.entries.len() ==> self.entries[j].0 != key,
            },
    {
        let keys = self.keys();
        keys.index_of_first_ensures(key);
        match self.find(key) {
            Some(i) => {
                assert forall|j: int| 0 <= j < i implies self.entries[j].0 != key by {
                    assert(keys[j] != key);
                }
            },
            None => {
                assert forall|j: int| 0 <= j < self.entries.len() implies self.entries[j].0
                    != key by {
                    assert(keys[j] == self.entries[j].0);
                }
            },
        }
    }

    /// The empty map holds no key.
    pub proof fn lemma_empty()
        ensures
            forall|key: Seq<char>| (#[trigger] Self::empty().find(key)) is None,
            Self::empty().wf(),
            Self::empty().to_map() == Map::<Seq<char>, V>::empty(),
    {
        assert forall|key: Seq<char>| (#[trigger] Self::empty().find(key)) is None by {
            Self::empty().lemma_find(key);
        }
        assert(Self::empty().to_map() =~= Map::<Seq<char>, V>::empty());
    }

    /// An index that holds the key with none before it is the one `find` returns.
    pub proof fn lemma_find_first(self, key: Seq<char>, i: int)
        requires
            0 <= i < self.entries.len(),
            self.entries[i].0 == key,
            forall|j: int| 0 <= j < i ==> self.entries[j].0 != key,
        ensures
            self.find(key) == Some(i),
    {
        self.lemma_find(key);
    }

    /// Reading after writing: the written key gives the new value, every
    /// other key gives what it gave before.
    pub proof fn lemma_insert_get(self, key: Seq<char>, val: V, other: Seq<char>)
        ensures
            self.insert(key, val).get(other) == if other == key {
                Some(val)
            } else {
                self.get(other)
            },
    {
        let after = self.insert(key, val);
        self.lemma_find(key);
        self.lemma_find(other);
        after.lemma_find(other);
        let place = match self.find(key) {
            Some(i) => i,
            None => self.entries.len() as int,
        };
        if other == key {
            after.lemma_find_first(other, place);
        } else if let Some(k) = self.find(other) {
            after.lemma_find_first(other, k);
        } else if let Some(k) = after.find(other) {
            assert(self.entries[k].0 == other);
        }
    }

    /// Writing keeps the keys in place and adds a new key at the end.
    pub proof fn lemma_insert_keys(self, key: Seq<char>, val: V)
        ensures
            self.insert(key, val).keys() == if self.contains_key(key) {
                self.keys()
            } else {
                self.keys().push(key)
            },
    {
        self.lemma_find(key);
        assert(self.insert(key, val).keys() =~= if self.contains_key(key) {
            self.keys()
        } else {
            self.keys().push(key)
        });
    }

    /// Writing never makes a key occur twice.
    pub proof fn lemma_insert_wf(self, key: Seq<char>, val: V)
        requires
            self.wf(),
        ensures
            self.insert(key, val).wf(),
    {
        self.lemma_find(key);
        self.lemma_insert_keys(key, val);
        let keys = self.keys();
        if !self.contains_key(key) {
            assert forall|i: int, j: int|
                0 <= i < keys.push(key).len() && 0 <= j < keys.push(key).len() && i
                    != j implies keys.push(key)[i] != keys.push(key)[j] by {
                if i < keys.len() {
                    assert(keys[i] == self.entries[i].0);
                }
                if j < keys.len() {
                    assert(keys[j] == self.entries[j].0);
                }
            }
        }
    }

    /// Reading after removing: the removed key gives nothing, every other
    /// key gives what it gave before.
    pub proof fn lemma_remove_get(self, key: Seq<char>, other: Seq<char>)
        requires
            self.wf(),
        ensures
            self.remove(key).get(other) == if other == key {
                None
            } else {
                self.get(other)
            },
    {
        let after = self.remove(key);
        self.lemma_find(key);
        self.lemma_find(other);
        after.lemma_find(other);
        if let Some(i) = self.find(key) {
            assert forall|j: int| 0 <= j < after.entries.len() implies after.entries[j] == if j
                < i {
                self.entries[j]
            } else {
                self.entries[j + 1]
            } by {}
            if other == key {
                if let Some(k) = after.find(other) {
                    let at = if k < i {
                        k
                    } else {
                        k + 1
                    };
                    assert(self.keys()[at] == key && self.keys()[i] == key);
                }
            } else if let Some(k) = self.find(other) {
                let at = if k < i {
                    k
                } else {
                    k - 1
                };
                assert(after.entries[at] == self.entries[k]);
                after.lemma_find_first(other, at);
            } else if let Some(k) = after.find(other) {
                let at = if k < i {
                    k
                } else {
                    k + 1
                };
                assert(self.entries[at].0 == other);
            }
        }
    }

    /// Removing never makes a key occur twice.
    pub proof fn lemma_remove_wf(self, key: Seq<char>)
        requires
            self.wf(),
        ensures
            self.remove(key).wf(),
    {
        let after = self.remove(key);
        self.lemma_find(key);
        if let Some(i) = self.find(key) {
            assert forall|a: int, b: int|
                0 <= a < after.keys().len() && 0 <= b < after.keys().len() && a
                    != b implies after.keys()[a] != after.keys()[b] by {
                let at_a = if a < i {
                    a
                } else {
                    a + 1
                };
                let at_b = if b < i {
                    b
                } else {
                    b + 1
                };
                assert(after.keys()[a] == self.keys()[at_a]);
                assert(after.keys()[b] == self.keys()[at_b]);
            }
        }
    }

    /// Without repeated keys, each pair is what its own key maps to.
    pub proof fn lemma_entry_get(self, i: int)
        requires
            self.wf(),
            0 <= i < self.entries.len(),
        ensures
            self.find(self.entries[i].0) == Some(i),
            self.get(self.entries[i].0) == Some(self.entries[i].1),
    {
        let key = self.entries[i].0;
        self.lemma_find(key);
        let k = self.find(key)->0;
        assert(self.keys()[k] == key && self.keys()[i] == key);
    }
}

/// An association list keyed by strings, without repeated keys. Its view is
/// an [`Assoc`] over the views of its values.
#[derive(Debug)]
pub struct Table<V: DeepView> {
    entries: Vec<(String, V)>,
}

impl<V: DeepView> View for Table<V> {
    type V = Assoc<V::V>;

    closed spec fn view(&self) -> Assoc<V::V> {
        Assoc {
            entries: Seq::new(
                self.entries@.len(),
                |i: int| (self.entries@[i].0@, self.entries@[i].1.deep_view()),
            ),
        }
    }
}

impl<V: DeepView> Table<V> {
    #[verifier::type_invariant]
    spec fn inv(&self) -> bool {
        self@.wf()
    }

    /// A table without entries.
    pub fn new() -> (table: Self)
        ensures
            table@ == Assoc::<V::V>::empty(),
            table@.wf(),
    {
        let table = Table { entries: Vec::new() };
        assert(table@.entries =~= Seq::empty());
        table
    }

    /// How many keys the table holds. No key is among them twice.
    pub fn len(&self) -> (n: usize)
        ensures
            n == self@.entries.len(),
            self@.wf(),
    {
        proof {
            use_type_invariant(self);
        }
        self.entries.len()
    }

    /// The key at place `i`.
    pub fn key(&self, i: usize) -> (key: &String)
        requires
            i < self@.entries.len(),
        ensures
            key@ == self@.entries[i as int].0,
    {
        &self.entries[i].0
    }

    /// The value at place `i`.
    pub fn value(&self, i: usize) -> (val: &V)
        requires
            i < self@.entries.len(),
        ensures
            val.deep_view() == self@.entries[i as int].1,
    {
        &self.entries[i].1
    }

    /// Where `key` stands in the table.
    pub fn position(&self, key: &str) -> (place: Option<usize>)
        ensures
            match place {
                Some(i) => self@.find(key@) == Some(i as int) && i < self@.entries.len(),
                None => self@.find(key@) is None,
            },
    {
        let mut i: usize = 0;
        while i < self.entries.len()
            invariant
                i <= self.entries.len(),
                forall|j: int| 0 <= j < i ==> self@.entries[j].0 != key@,
            decreases self.entries.len() - i,
        {
            if str_eq(self.entries[i].0.as_str(), key) {
                proof {
                    self@.lemma_find_first(key@, i as int);
                }
                return Some(i);
            }
            i += 1;
        }
        proof {
            self@.lemma_find(key@);
        }
        None
    }

    /// The value that `key` maps to.
    pub fn get(&self, key: &str) -> (val: Option<&V>)
        ensures
            match val {
                Some(v) => self@.get(key@) == Some(v.deep_view()),
                None => self@.get(key@) is None,
            },
    {
        match self.position(key) {
            Some(i) => Some(&self.entries[i].1),
            None => None,
        }
    }

    /// Maps `key` to `val`, in the place that `key` already has or else at
    /// the end.
    pub fn insert(&mut self, key: String, val: V)
        ensures
            final(self)@ == old(self)@.insert(key@, val.deep_view()),
            final(self)@.wf(),
    {
        proof {
            use_type_invariant(&*self);
            self@.lemma_insert_wf(key@, val.deep_view());
        }
        let ghost after = self@.insert(key@, val.deep_view());
        let place = self.position(key.as_str());
        let mut entries: Vec<(String, V)> = Vec::new();
        std::mem::swap(&mut entries, &mut self.entries);
        match place {
            Some(i) => {
                entries[i] = (key, val);
            },
            None => {
                entries.push((key, val));
            },
        }
        assert(Seq::new(entries@.len(), |i: int| (entries@[i].0@, entries@[i].1.deep_view()))
            =~= after.entries);
        std::mem::swap(&mut entries, &mut self.entries);
    }
}

impl<V: DeepView> Table<V> {
    /// Takes `key` and its value out of the table, if it holds them. The
    /// other entries keep their order.
    pub fn remove(&mut self, key: &str)
        ensures
            final(self)@ == old(self)@.remove(key@),
            final(self)@.wf(),
    {
        proof {
            use_type_invariant(&*self);
            self@.lemma_remove_wf(key@);
        }
        let ghost after = self@.remove(key@);
        if let Some(i) = self.position(key) {
            let mut entries: Vec<(String, V)> = Vec::new();
            std::mem::swap(&mut entries, &mut self.entries);
            let _ = entries.remove(i);
            assert(Seq::new(entries@.len(), |j: int| (entries@[j].0@, entries@[j].1.deep_view()))
                =~= after.entries);
            std::mem::swap(&mut entries, &mut self.entries);
        }
    }
}

impl Table<String> {
    /// A table with the same entries.
    pub fn duplicate(&self) -> (copy: Self)
        ensures
            copy@ == self@,
    {
        proof {
            use_type_invariant(self);
        }
        let mut entries: Vec<(String, String)> = Vec::new();
        let mut i: usize = 0;
        while i < self.entries.len()
            invariant
                i <= self.entries.len(),
                entries@.len() == i,
                forall|j: int|
                    0 <= j < i ==> entries@[j].0@ == self.entries@[j].0@ && entries@[j].1@
                        == self.entries@[j].1@,
            decreases self.entries.len() - i,
        {
            entries.push((self.entries[i].0.clone(), self.entries[i].1.clone()));
            i += 1;
        }
        let ghost copied = Assoc::<Seq<char>> {
            entries: Seq::new(entries@.len(), |j: int| (entries@[j].0@, entries@[j].1.deep_view())),
        };
        assert(copied.entries =~= self@.entries);
        Table { entries }
    }
}

impl Table<Option<String>> {
    /// A table with the same entries.
    pub fn duplicate(&self) -> (copy: Self)
        ensures
            copy@ == self@,
    {
        proof {
            use_type_invariant(self);
        }
        let mut entries: Vec<(String, Option<String>)> = Vec::new();
        let mut i: usize = 0;
        while i < self.entries.len()
            invariant
                i <= self.entries.len(),
                entries@.len() == i,
                forall|j: int|
                    0 <= j < i ==> entries@[j].0@ == self.entries@[j].0@
                        && entries@[j].1.deep_view() == self.entries@[j].1.deep_view(),
            decreases self.entries.len() - i,
        {
            let val = match &self.entries[i].1 {
                Some(text) => Some(text.clone()),
                None => None,
            };
            entries.push((self.entries[i].0.clone(), val));
            i += 1;
        }
        let ghost copied = Assoc::<Option<Seq<char>>> {
            entries: Seq::new(entries@.len(), |j: int| (entries@[j].0@, entries@[j].1.deep_view())),
        };
        assert(copied.entries =~= self@.entries);
        Table { entries }
    }
}

} // verus!
