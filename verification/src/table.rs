//! A store of records addressed by derived keys, modelling one kind of
//! ledger account. Each key holds at most one record; insertion at an
//! occupied key is refused, which is what makes derived-key collisions an
//! enforceable uniqueness mechanism.
//!
//! The view of a table is the map from each key's bytes to the view of the
//! record stored under it.

use vstd::prelude::*;

use crate::bytes::bytes_eq;

verus! {

pub struct Table<T> {
    keys: Vec<Vec<u8>>,
    vals: Vec<T>,
}

impl<T: View> View for Table<T> {
    type V = Map<Seq<u8>, T::V>;

    closed spec fn view(&self) -> Map<Seq<u8>, T::V> {
        Map::new(|k: Seq<u8>| self.has_key(k), |k: Seq<u8>| self.vals@[self.key_index(k)]@)
    }
}

impl<T: View> Table<T> {
    /// Keys and records pair up, and no key occurs twice.
    pub closed spec fn wf(self) -> bool {
        &&& self.keys@.len() == self.vals@.len()
        &&& forall|i: int, j: int|
            0 <= i < j < self.keys@.len() ==> self.keys@[i]@ != self.keys@[j]@
    }

    spec fn has_key(self, k: Seq<u8>) -> bool {
        exists|i: int| 0 <= i < self.keys@.len() && self.keys@[i]@ == k
    }

    spec fn key_index(self, k: Seq<u8>) -> int {
        choose|i: int| 0 <= i < self.keys@.len() && self.keys@[i]@ == k
    }

    proof fn lemma_key_index(self, i: int)
        requires
            self.wf(),
            0 <= i < self.keys@.len(),
        ensures
            self.has_key(self.keys@[i]@),
            self.key_index(self.keys@[i]@) == i,
            self@.contains_key(self.keys@[i]@),
            self@[self.keys@[i]@] == self.vals@[i]@,
    {
        let k = self.keys@[i]@;
        assert(self.has_key(k));
        let j = self.key_index(k);
        if i < j {
            assert(self.keys@[i]@ != self.keys@[j]@);
        } else if j < i {
            assert(self.keys@[j]@ != self.keys@[i]@);
        }
    }

    /// An empty table.
    pub fn new() -> (r: Self)
        ensures
            r.wf(),
            r@ == Map::<Seq<u8>, T::V>::empty(),
    {
        let r = Table { keys: Vec::new(), vals: Vec::new() };
        proof {
            assert(r@ =~= Map::<Seq<u8>, T::V>::empty());
        }
        r
    }

    fn find_index(&self, k: &Vec<u8>) -> (r: Option<usize>)
        requires
            self.wf(),
        ensures
            match r {
                Some(i) => i < self.keys@.len() && self.keys@[i as int]@ == k@,
                None => !self@.contains_key(k@),
            },
    {
        let n = self.keys.len();
        let mut i: usize = 0;
        while i < n
            invariant
                n == self.keys@.len(),
                i <= n,
                forall|j: int| 0 <= j < i ==> self.keys@[j]@ != k@,
            decreases n - i,
        {
            if bytes_eq(&self.keys[i], k) {
                return Some(i);
            }
            i += 1;
        }
        proof {
            assert(!self.has_key(k@));
        }
        None
    }

    /// The record at key `k`, if that key is occupied.
    pub fn get(&self, k: &Vec<u8>) -> (r: Option<&T>)
        requires
            self.wf(),
        ensures
            match r {
                Some(v) => self@.contains_key(k@) && v@ == self@[k@],
                None => !self@.contains_key(k@),
            },
    {
        match self.find_index(k) {
            Some(i) => {
                proof {
                    self.lemma_key_index(i as int);
                }
                Some(&self.vals[i])
            },
            None => None,
        }
    }

    /// Store `v` at key `k` if `k` is free; refuse if it is occupied.
    pub fn insert_if_absent(&mut self, k: Vec<u8>, v: T) -> (r: bool)
        requires
            old(self).wf(),
        ensures
            final(self).wf(),
            r == !old(self)@.contains_key(k@),
            r ==> final(self)@ == old(self)@.insert(k@, v@),
            !r ==> *final(self) == *old(self),
    {
        match self.find_index(&k) {
            Some(i) => {
                proof {
                    self.lemma_key_index(i as int);
                }
                false
            },
            None => {
                let ghost prev = *self;
                self.keys.push(k);
                self.vals.push(v);
                proof {
                    let n = prev.keys@.len() as int;
                    assert forall|i: int, j: int|
                        0 <= i < j < self.keys@.len() implies self.keys@[i]@ != self.keys@[j]@ by {
                        if j < n {
                            assert(prev.keys@[i]@ != prev.keys@[j]@);
                        } else {
                            assert(self.keys@[j]@ == k@);
                            prev.lemma_key_index(i);
                        }
                    }
                    assert forall|k2: Seq<u8>| true implies #[trigger] self@.contains_key(k2)
                        == prev@.insert(k@, v@).contains_key(k2) by {
                        if k2 == k@ {
                            assert(self.keys@[n]@ == k2);
                            assert(self.has_key(k2));
                        } else {
                            if prev.has_key(k2) {
                                let i = choose|i: int|
                                    0 <= i < prev.keys@.len() && prev.keys@[i]@ == k2;
                                assert(self.keys@[i]@ == k2);
                                assert(self.has_key(k2));
                            }
                            if self.has_key(k2) {
                                let i = choose|i: int|
                                    0 <= i < self.keys@.len() && self.keys@[i]@ == k2;
                                assert(i < n);
                                assert(prev.has_key(k2));
                            }
                        }
                    }
                    assert forall|k2: Seq<u8>| #[trigger] self@.contains_key(k2)
                        implies self@[k2] == prev@.insert(k@, v@)[k2] by {
                        if k2 == k@ {
                            self.lemma_key_index(n);
                        } else {
                            let i = choose|i: int|
                                0 <= i < prev.keys@.len() && prev.keys@[i]@ == k2;
                            prev.lemma_key_index(i);
                            self.lemma_key_index(i);
                        }
                    }
                    assert(self@ =~= prev@.insert(k@, v@));
                }
                true
            },
        }
    }

    /// Replace the record at key `k`; refuse if `k` is free.
    pub fn replace(&mut self, k: &Vec<u8>, v: T) -> (r: bool)
        requires
            old(self).wf(),
        ensures
            final(self).wf(),
            r == old(self)@.contains_key(k@),
            r ==> final(self)@ == old(self)@.insert(k@, v@),
            !r ==> *final(self) == *old(self),
    {
        match self.find_index(k) {
            Some(i) => {
                let ghost prev = *self;
                proof {
                    self.lemma_key_index(i as int);
                }
                self.vals[i] = v;
                proof {
                    assert(self.keys == prev.keys);
                    assert forall|k2: Seq<u8>| true implies #[trigger] self@.contains_key(k2)
                        == prev@.insert(k@, v@).contains_key(k2) by {
                        assert(self.has_key(k2) == prev.has_key(k2));
                        if k2 == k@ {
                            assert(prev.keys@[i as int]@ == k2);
                            assert(prev.has_key(k2));
                        }
                    }
                    assert forall|k2: Seq<u8>| #[trigger] self@.contains_key(k2)
                        implies self@[k2] == prev@.insert(k@, v@)[k2] by {
                        let j = choose|j: int|
                            0 <= j < prev.keys@.len() && prev.keys@[j]@ == k2;
                        prev.lemma_key_index(j);
                        self.lemma_key_index(j);
                        if k2 == k@ {
                            prev.lemma_key_index(i as int);
                        }
                    }
                    assert(self@ =~= prev@.insert(k@, v@));
                }
                true
            },
            None => false,
        }
    }

    /// Store `v` at key `k`, overwriting any record already there.
    pub fn upsert(&mut self, k: Vec<u8>, v: T)
        requires
            old(self).wf(),
        ensures
            final(self).wf(),
            final(self)@ == old(self)@.insert(k@, v@),
    {
        match self.find_index(&k) {
            Some(i) => {
                proof {
                    self.lemma_key_index(i as int);
                }
                let replaced = self.replace(&k, v);
            },
            None => {
                let inserted = self.insert_if_absent(k, v);
            },
        }
    }
}

} // verus!
