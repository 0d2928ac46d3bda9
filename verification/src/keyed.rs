//! A map from text keys to values that keeps its entries in insertion order.
use vstd::prelude::*;

verus! {

/// Entries keyed by `String`, each key at most once, in the order in which the
/// keys were first inserted.
pub struct KeyedList<V> {
    entries: Vec<(String, V)>,
}

impl<V> KeyedList<V> {
    /// The keys, in order.
    pub closed spec fn keys(&self) -> Seq<Seq<char>> {
        self.entries@.map_values(|e: (String, V)| e.0@)
    }

    /// The values, in the order of their keys.
    pub closed spec fn values(&self) -> Seq<V> {
        self.entries@.map_values(|e: (String, V)| e.1)
    }

    /// Well-formed: no key occurs twice.
    pub open spec fn wf(&self) -> bool {
        self.keys().no_duplicates()
    }

    /// The index at which key `k` is stored.
    pub open spec fn position(&self, k: Seq<char>) -> int {
        self.keys().index_of(k)
    }

    /// The map that these entries represent.
    pub open spec fn as_map(&self) -> Map<Seq<char>, V> {
        Map::new(|k: Seq<char>| self.keys().contains(k), |k: Seq<char>| self.values()[self.position(k)])
    }

    /// In a well-formed list, a key stored at index `i` is found there.
    pub proof fn lemma_position(&self, i: int)
        requires
            self.wf(),
            0 <= i < self.keys().len(),
        ensures
            self.keys().contains(self.keys()[i]),
            self.position(self.keys()[i]) == i,
            self.as_map()[self.keys()[i]] == self.values()[i],
    {
        assert(self.keys()[i] == self.keys()[i]);
    }

    /// The number of keys equals the size of the map.
    pub proof fn lemma_len(&self)
        requires
            self.wf(),
        ensures
            self.as_map().dom() == self.keys().to_set(),
            self.as_map().len() == self.keys().len(),
            self.as_map().dom().finite(),
    {
        assert(self.as_map().dom() =~= self.keys().to_set());
        self.keys().unique_seq_to_set();
        broadcast use vstd::seq_lib::seq_to_set_is_finite;
    }

    /// An empty list.
    pub fn new() -> (list: Self)
        ensures
            list.wf(),
            list.keys() == Seq::<Seq<char>>::empty(),
            list.as_map() == Map::<Seq<char>, V>::empty(),
    {
        let list = KeyedList { entries: Vec::new() };
        assert(list.keys() =~= Seq::<Seq<char>>::empty());
        assert(list.as_map() =~= Map::<Seq<char>, V>::empty());
        list
    }

    /// The number of entries.
    pub fn len(&self) -> (n: usize)
        requires
            self.wf(),
        ensures
            n == self.keys().len(),
            n == self.as_map().len(),
    {
        proof {
            self.lemma_len();
        }
        self.entries.len()
    }

    /// The index of key `k`, if it is present.
    fn find(&self, k: &String) -> (found: Option<usize>)
        requires
            self.wf(),
        ensures
            match found {
                Some(i) => i < self.keys().len() && self.keys()[i as int] == k@
                    && self.position(k@) == i,
                None => !self.keys().contains(k@),
            },
    {
        let mut i: usize = 0;
        while i < self.entries.len()
            invariant
                self.wf(),
                i <= self.entries@.len(),
                forall|j: int| 0 <= j < i ==> self.keys()[j] != k@,
            decreases self.entries@.len() - i,
        {
            if self.entries[i].0 == *k {
                proof {
                    self.lemma_position(i as int);
                }
                return Some(i);
            }
            i = i + 1;
        }
        None
    }

    /// Whether key `k` is present.
    pub fn contains_key(&self, k: &String) -> (present: bool)
        requires
            self.wf(),
        ensures
            present == self.as_map().contains_key(k@),
    {
        self.find(k).is_some()
    }

    /// The value stored under key `k`.
    pub fn get(&self, k: &String) -> (value: Option<&V>)
        requires
            self.wf(),
        ensures
            match value {
                Some(v) => self.as_map().contains_key(k@) && *v == self.as_map()[k@],
                None => !self.as_map().contains_key(k@),
            },
    {
        match self.find(k) {
            Some(i) => Some(&self.entries[i].1),
            None => None,
        }
    }

    /// A mutable borrow of the value stored under key `k`; the keys stay as
    /// they are and whatever the borrow leaves behind is stored under `k`.
    pub fn get_mut(&mut self, k: &String) -> (value: Option<&mut V>)
        requires
            old(self).wf(),
        ensures
            final(self).keys() == old(self).keys(),
            final(self).wf(),
            match value {
                Some(v) => {
                    &&& old(self).as_map().contains_key(k@)
                    &&& *v == old(self).as_map()[k@]
                    &&& final(self).as_map() == old(self).as_map().insert(k@, *final(v))
                },
                None => {
                    &&& !old(self).as_map().contains_key(k@)
                    &&& final(self).as_map() == old(self).as_map()
                },
            },
    {
        match self.find(k) {
            Some(i) => Some(&mut self.entries[i].1),
            None => None,
        }
    }

    /// The key at index `i`.
    pub fn key_at(&self, i: usize) -> (key: &String)
        requires
            self.wf(),
            i < self.keys().len(),
        ensures
            key@ == self.keys()[i as int],
    {
        &self.entries[i].0
    }

    /// The value at index `i`.
    pub fn value_at(&self, i: usize) -> (value: &V)
        requires
            self.wf(),
            i < self.keys().len(),
        ensures
            *value == self.values()[i as int],
            *value == self.as_map()[self.keys()[i as int]],
    {
        proof {
            self.lemma_position(i as int);
        }
        &self.entries[i].1
    }

    /// Stores `v` under `k`, replacing the value that was there. A new key goes
    /// after all the others; a present key keeps its place.
    pub fn insert(&mut self, k: String, v: V)
        requires
            old(self).wf(),
        ensures
            final(self).wf(),
            final(self).as_map() == old(self).as_map().insert(k@, v),
            old(self).keys().contains(k@) ==> final(self).keys() == old(self).keys(),
            !old(self).keys().contains(k@) ==> final(self).keys() == old(self).keys().push(k@),
    {
        match self.find(&k) {
            Some(i) => {
                let ghost old_keys = self.keys();
                let ghost k_view = k@;
                self.entries.set(i, (k, v));
                assert(self.keys() =~= old_keys);
                assert(self.as_map() =~= old(self).as_map().insert(k_view, v)) by {
                    assert forall|key: Seq<char>| #[trigger] self.keys().contains(key) implies
                        self.values()[self.position(key)] == old(self).as_map().insert(k_view, v)[key] by {
                        let j: int = self.position(key);
                        self.lemma_position(j);
                        old(self).lemma_position(j);
                    }
                }
            },
            None => {
                let ghost k_view = k@;
                self.entries.push((k, v));
                assert(self.keys() =~= old(self).keys().push(k_view));
                assert(self.values() =~= old(self).values().push(v));
                assert(self.as_map() =~= old(self).as_map().insert(k_view, v)) by {
                    let n: nat = old(self).keys().len();
                    assert forall|key: Seq<char>| #[trigger] self.keys().contains(key) == (
                        old(self).keys().contains(key) || key == k_view) by {
                        if old(self).keys().contains(key) {
                            let j: int = old(self).position(key);
                            assert(self.keys()[j] == key);
                        }
                        if key == k_view {
                            assert(self.keys()[n as int] == key);
                        }
                    }
                    assert forall|key: Seq<char>| #[trigger] self.keys().contains(key) implies
                        self.values()[self.position(key)] == old(self).as_map().insert(k_view, v)[key] by {
                        let j: int = self.position(key);
                        self.lemma_position(j);
                        if key != k_view {
                            assert(j < n);
                            old(self).lemma_position(j);
                        }
                    }
                }
            },
        }
    }

    /// Removes every entry.
    pub fn clear(&mut self)
        ensures
            final(self).wf(),
            final(self).keys() == Seq::<Seq<char>>::empty(),
            final(self).as_map() == Map::<Seq<char>, V>::empty(),
    {
        self.entries.clear();
        assert(self.keys() =~= Seq::<Seq<char>>::empty());
        assert(self.as_map() =~= Map::<Seq<char>, V>::empty());
    }
}

} // verus!
