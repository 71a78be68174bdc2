//! An association list keyed by strings: the map behind the page store, the
//! tag index, the tag cache and the backlink graph.

use vstd::prelude::*;

verus! {

/// Entries in insertion order; no key appears twice.
pub struct KeyedList<V> {
    pub keys: Vec<String>,
    pub vals: Vec<V>,
}

impl<V> KeyedList<V> {
    pub open spec fn wf(&self) -> bool {
        &&& self.keys@.len() == self.vals@.len()
        &&& forall|i: int, j: int|
            0 <= i < self.keys@.len() && 0 <= j < self.keys@.len() && i != j
                ==> #[trigger] self.keys@[i]@ != #[trigger] self.keys@[j]@
    }

    pub open spec fn has_key(&self, k: Seq<char>) -> bool {
        exists|i: int| 0 <= i < self.keys@.len() && #[trigger] self.keys@[i]@ == k
    }

    pub open spec fn index_of(&self, k: Seq<char>) -> int {
        choose|i: int| 0 <= i < self.keys@.len() && #[trigger] self.keys@[i]@ == k
    }

    pub open spec fn view(&self) -> Map<Seq<char>, V> {
        Map::new(|k: Seq<char>| self.has_key(k), |k: Seq<char>| self.vals@[self.index_of(k)])
    }

    /// The value at position `i` is the one that the map gives for its key.
    pub proof fn lemma_at(&self, i: int)
        requires
            self.wf(),
            0 <= i < self.keys@.len(),
        ensures
            self.view().contains_key(self.keys@[i]@),
            self.view()[self.keys@[i]@] == self.vals@[i],
            self.index_of(self.keys@[i]@) == i,
    {
        assert(self.has_key(self.keys@[i]@));
    }

    pub fn new() -> (r: Self)
        ensures
            r.wf(),
            r.view() == Map::<Seq<char>, V>::empty(),
    {
        let r = KeyedList { keys: Vec::new(), vals: Vec::new() };
        assert(r.view() =~= Map::<Seq<char>, V>::empty());
        r
    }

    pub fn len(&self) -> (n: usize)
        ensures
            n == self.keys@.len(),
    {
        self.keys.len()
    }

    pub fn key_at(&self, i: usize) -> (r: &String)
        requires
            i < self.keys@.len(),
        ensures
            *r == self.keys@[i as int],
    {
        &self.keys[i]
    }

    pub fn val_at(&self, i: usize) -> (r: &V)
        requires
            i < self.vals@.len(),
        ensures
            *r == self.vals@[i as int],
    {
        &self.vals[i]
    }

    /// Replaces the value at position `i`, keeping every key where it is.
    pub fn set_at(&mut self, i: usize, v: V)
        requires
            old(self).wf(),
            i < old(self).keys@.len(),
        ensures
            final(self).wf(),
            final(self).keys@ == old(self).keys@,
            final(self).vals@ == old(self).vals@.update(i as int, v),
    {
        self.vals.set(i, v);
    }

    pub fn find(&self, key: &String) -> (r: Option<usize>)
        requires
            self.wf(),
        ensures
            match r {
                Some(i) => i < self.keys@.len() && self.keys@[i as int]@ == key@,
                None => !self.view().contains_key(key@),
            },
    {
        let mut i: usize = 0;
        while i < self.keys.len()
            invariant
                self.wf(),
                i <= self.keys@.len(),
                forall|j: int| 0 <= j < i ==> #[trigger] self.keys@[j]@ != key@,
            decreases self.keys@.len() - i,
        {
            if self.keys[i] == *key {
                return Some(i);
            }
            i = i + 1;
        }
        None
    }

    pub fn get(&self, key: &String) -> (r: Option<&V>)
        requires
            self.wf(),
        ensures
            match r {
                Some(v) => self.view().contains_key(key@) && *v == self.view()[key@],
                None => !self.view().contains_key(key@),
            },
    {
        match self.find(key) {
            Some(i) => {
                proof {
                    self.lemma_at(i as int);
                }
                Some(&self.vals[i])
            },
            None => None,
        }
    }

    pub fn insert(&mut self, key: String, v: V)
        requires
            old(self).wf(),
        ensures
            final(self).wf(),
            final(self).view() == old(self).view().insert(key@, v),
    {
        let ghost pre = *self;
        match self.find(&key) {
            Some(i) => {
                self.vals.set(i, v);
                proof {
                    assert forall|k: Seq<char>| #[trigger]
                        self.view().contains_key(k) == pre.view().insert(key@, v).contains_key(
                            k,
                        ) by {
                        if pre.has_key(k) {
                            let j = pre.index_of(k);
                            assert(self.keys@[j]@ == k);
                        }
                    }
                    assert forall|k: Seq<char>| #[trigger] self.view().contains_key(k) implies
                        self.view()[k] == pre.view().insert(key@, v)[k] by {
                        let j = self.index_of(k);
                        self.lemma_at(j);
                        if k != key@ {
                            pre.lemma_at(j);
                        }
                    }
                    assert(self.view() =~= pre.view().insert(key@, v));
                }
            },
            None => {
                self.keys.push(key);
                self.vals.push(v);
                proof {
                    let n = pre.keys@.len() as int;
                    assert(self.keys@[n]@ == key@);
                    assert forall|k: Seq<char>| #[trigger]
                        self.view().contains_key(k) == pre.view().insert(key@, v).contains_key(
                            k,
                        ) by {
                        if pre.has_key(k) {
                            let j = pre.index_of(k);
                            assert(self.keys@[j]@ == k);
                        }
                        if self.has_key(k) && k != key@ {
                            let j = self.index_of(k);
                            assert(pre.keys@[j]@ == k);
                        }
                    }
                    assert forall|k: Seq<char>| #[trigger] self.view().contains_key(k) implies
                        self.view()[k] == pre.view().insert(key@, v)[k] by {
                        let j = self.index_of(k);
                        self.lemma_at(j);
                        if k != key@ {
                            pre.lemma_at(j);
                        }
                    }
                    assert(self.view() =~= pre.view().insert(key@, v));
                }
            },
        }
    }

    pub fn remove(&mut self, key: &String) -> (r: Option<V>)
        requires
            old(self).wf(),
        ensures
            final(self).wf(),
            final(self).view() == old(self).view().remove(key@),
            match r {
                Some(v) => old(self).view().contains_key(key@) && v == old(self).view()[key@],
                None => !old(self).view().contains_key(key@),
            },
    {
        let ghost pre = *self;
        match self.find(key) {
            Some(i) => {
                proof {
                    pre.lemma_at(i as int);
                }
                self.keys.remove(i);
                let v = self.vals.remove(i);
                proof {
                    assert forall|a: int, b: int|
                        0 <= a < self.keys@.len() && 0 <= b < self.keys@.len() && a != b
                            implies #[trigger] self.keys@[a]@ != #[trigger] self.keys@[b]@ by {
                        let pa = if a < i { a } else { a + 1 };
                        let pb = if b < i { b } else { b + 1 };
                        assert(self.keys@[a] == pre.keys@[pa]);
                        assert(self.keys@[b] == pre.keys@[pb]);
                    }
                    assert forall|k: Seq<char>| #[trigger]
                        self.view().contains_key(k) == pre.view().remove(key@).contains_key(k) by {
                        if pre.has_key(k) && k != key@ {
                            let j = pre.index_of(k);
                            if j < i {
                                assert(self.keys@[j]@ == k);
                            } else {
                                assert(j != i);
                                assert(self.keys@[j - 1]@ == k);
                            }
                        }
                        if self.has_key(k) {
                            let j = self.index_of(k);
                            if j < i {
                                assert(pre.keys@[j]@ == k);
                            } else {
                                assert(pre.keys@[j + 1]@ == k);
                            }
                        }
                    }
                    assert forall|k: Seq<char>| #[trigger] self.view().contains_key(k) implies
                        self.view()[k] == pre.view().remove(key@)[k] by {
                        let j = self.index_of(k);
                        self.lemma_at(j);
                        if j < i {
                            pre.lemma_at(j);
                        } else {
                            pre.lemma_at(j + 1);
                        }
                    }
                    assert(self.view() =~= pre.view().remove(key@));
                }
                Some(v)
            },
            None => {
                assert(self.view() =~= pre.view().remove(key@));
                None
            },
        }
    }
}

} // verus!
