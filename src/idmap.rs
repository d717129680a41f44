//! A small table keyed by peer identifier, kept in insertion order.

use vstd::prelude::*;

verus! {

/// A map from identifier to value. Each identifier occurs at most once;
/// entries keep the order in which their identifiers were first inserted.
pub struct IdMap<V> {
    entries: Vec<(u16, V)>,
    model: Ghost<Map<u16, V>>,
}

impl<V> View for IdMap<V> {
    type V = Map<u16, V>;

    closed spec fn view(&self) -> Map<u16, V> {
        self.model@
    }
}

impl<V> IdMap<V> {
    pub closed spec fn wf(&self) -> bool {
        &&& forall|i: int, j: int|
            0 <= i < j < self.entries@.len() ==> self.entries@[i].0 != self.entries@[j].0
        &&& forall|i: int|
            0 <= i < self.entries@.len() ==> #[trigger] self.model@.contains_key(
                self.entries@[i].0,
            ) && self.model@[self.entries@[i].0] == self.entries@[i].1
        &&& forall|k: u16|
            #[trigger] self.model@.contains_key(k) ==> exists|i: int|
                0 <= i < self.entries@.len() && self.entries@[i].0 == k
    }

    /// The identifiers, in the table's order.
    pub closed spec fn keys(&self) -> Seq<u16> {
        self.entries@.map_values(|e: (u16, V)| e.0)
    }

    /// The identifiers are those of the map, each once.
    pub proof fn lemma_keys(&self)
        requires
            self.wf(),
        ensures
            self.keys().no_duplicates(),
            self.keys().len() == self@.len(),
            forall|k: u16| self@.contains_key(k) <==> self.keys().contains(k),
    {
        assert forall|k: u16| self@.contains_key(k) <==> self.keys().contains(k) by {
            if self@.contains_key(k) {
                let i = choose|i: int| 0 <= i < self.entries@.len() && self.entries@[i].0 == k;
                assert(self.keys()[i] == k);
            }
            if self.keys().contains(k) {
                let i = choose|i: int| 0 <= i < self.keys().len() && self.keys()[i] == k;
                assert(self.model@.contains_key(self.entries@[i].0));
            }
        }
        assert(self.keys().to_set() =~= self@.dom());
        self.keys().unique_seq_to_set();
    }

    pub fn new() -> (r: IdMap<V>)
        ensures
            r.wf(),
            r@ == Map::<u16, V>::empty(),
    {
        IdMap { entries: Vec::new(), model: Ghost(Map::empty()) }
    }

    /// The number of entries.
    pub fn len(&self) -> (r: usize)
        requires
            self.wf(),
        ensures
            r == self@.len(),
            r == self.keys().len(),
    {
        proof { self.lemma_keys() }
        self.entries.len()
    }

    pub fn is_empty(&self) -> (r: bool)
        requires
            self.wf(),
        ensures
            r == (self@.len() == 0),
            r == (self@ == Map::<u16, V>::empty()),
    {
        proof {
            self.lemma_keys();
            if self.entries@.len() == 0 {
                assert(self@ =~= Map::<u16, V>::empty());
            } else {
                assert(self@.contains_key(self.entries@[0].0));
            }
        }
        self.entries.len() == 0
    }

    /// The identifier at position `i` in the table's order.
    pub fn key_at(&self, i: usize) -> (r: u16)
        requires
            self.wf(),
            i < self.keys().len(),
        ensures
            r == self.keys()[i as int],
    {
        self.entries[i].0
    }

    /// The value at position `i` in the table's order.
    pub fn value_at(&self, i: usize) -> (r: &V)
        requires
            self.wf(),
            i < self.keys().len(),
        ensures
            self@.contains_key(self.keys()[i as int]),
            *r == self@[self.keys()[i as int]],
    {
        &self.entries[i].1
    }

    fn find(&self, k: u16) -> (r: Option<usize>)
        requires
            self.wf(),
        ensures
            match r {
                Some(i) => i < self.entries@.len() && self.entries@[i as int].0 == k,
                None => !self@.contains_key(k),
            },
    {
        let mut i: usize = 0;
        while i < self.entries.len()
            invariant
                i <= self.entries@.len(),
                forall|j: int| 0 <= j < i ==> self.entries@[j].0 != k,
            decreases self.entries@.len() - i,
        {
            if self.entries[i].0 == k {
                return Some(i);
            }
            i = i + 1;
        }
        None
    }

    pub fn contains_key(&self, k: u16) -> (r: bool)
        requires
            self.wf(),
        ensures
            r == self@.contains_key(k),
    {
        self.find(k).is_some()
    }

    pub fn get(&self, k: u16) -> (r: Option<&V>)
        requires
            self.wf(),
        ensures
            match r {
                Some(v) => self@.contains_key(k) && *v == self@[k],
                None => !self@.contains_key(k),
            },
    {
        match self.find(k) {
            Some(i) => {
                proof {
                    assert(self.model@.contains_key(self.entries@[i as int].0));
                }
                Some(&self.entries[i].1)
            },
            None => None,
        }
    }

    /// Inserts `v` under `k`, replacing the value that was there. A new
    /// identifier goes last.
    pub fn insert(&mut self, k: u16, v: V)
        requires
            old(self).wf(),
        ensures
            final(self).wf(),
            final(self)@ == old(self)@.insert(k, v),
    {
        let ghost v_ghost = v;
        let ghost at: int;
        match self.find(k) {
            Some(i) => {
                self.entries.set(i, (k, v));
                proof {
                    at = i as int;
                }
            },
            None => {
                self.entries.push((k, v));
                proof {
                    at = self.entries@.len() - 1;
                }
            },
        }
        self.model = Ghost(self.model@.insert(k, v_ghost));
        proof {
            assert(self.entries@[at].0 == k);
            assert forall|key: u16| #[trigger] self.model@.contains_key(key) implies exists|i: int|
                0 <= i < self.entries@.len() && self.entries@[i].0 == key by {
                if key != k {
                    assert(old(self).model@.contains_key(key));
                    let i = choose|i: int|
                        0 <= i < old(self).entries@.len() && old(self).entries@[i].0 == key;
                    assert(self.entries@[i].0 == key);
                }
            }
        }
    }

    /// Removes the entry of `k`, if any, and returns its value. The other
    /// entries keep their order.
    pub fn remove(&mut self, k: u16) -> (r: Option<V>)
        requires
            old(self).wf(),
        ensures
            final(self).wf(),
            final(self)@ == old(self)@.remove(k),
            match r {
                Some(v) => old(self)@.contains_key(k) && v == old(self)@[k],
                None => !old(self)@.contains_key(k),
            },
    {
        match self.find(k) {
            Some(i) => {
                proof {
                    assert(old(self).model@.contains_key(old(self).entries@[i as int].0));
                }
                let e = self.entries.remove(i);
                self.model = Ghost(self.model@.remove(k));
                proof {
                    let old_e = old(self).entries@;
                    assert forall|j: int|
                        0 <= j < self.entries@.len() implies #[trigger] self.model@.contains_key(
                        self.entries@[j].0,
                    ) && self.model@[self.entries@[j].0] == self.entries@[j].1 by {
                        if j < i {
                            assert(self.entries@[j] == old_e[j]);
                        } else {
                            assert(self.entries@[j] == old_e[j + 1]);
                        }
                    }
                    assert forall|key: u16| #[trigger]
                        self.model@.contains_key(key) implies exists|j: int|
                        0 <= j < self.entries@.len() && self.entries@[j].0 == key by {
                        assert(old(self).model@.contains_key(key));
                        let j = choose|j: int| 0 <= j < old_e.len() && old_e[j].0 == key;
                        if j < i {
                            assert(self.entries@[j].0 == key);
                        } else {
                            assert(self.entries@[j - 1].0 == key);
                        }
                    }
                }
                Some(e.1)
            },
            None => {
                proof {
                    assert(self.model@ =~= old(self).model@.remove(k));
                }
                None
            },
        }
    }

    /// The identifiers, in the table's order.
    pub fn key_list(&self) -> (r: Vec<u16>)
        requires
            self.wf(),
        ensures
            r@ == self.keys(),
            r@.no_duplicates(),
            r@.to_set() == self@.dom(),
    {
        let mut r: Vec<u16> = Vec::new();
        let mut i: usize = 0;
        while i < self.entries.len()
            invariant
                i <= self.entries@.len(),
                r@ == self.keys().take(i as int),
            decreases self.entries@.len() - i,
        {
            r.push(self.entries[i].0);
            assert(self.keys().take(i + 1) =~= self.keys().take(i as int).push(self.keys()[i as int]));
            i = i + 1;
        }
        proof {
            assert(self.keys().take(i as int) =~= self.keys());
            self.lemma_keys();
            assert(r@.to_set() =~= self@.dom());
        }
        r
    }
}

} // verus!
