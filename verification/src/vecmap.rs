//! A verified map from `u8` keys to configuration values.
//!
//! The registry needs a handful of small maps keyed by pin or channel
//! number. They are backed by a vector whose entries are sorted by strictly
//! increasing key, which keeps keys unique and makes the key enumeration
//! deterministic (ascending). The abstract view of a map is a
//! `Map<u8, V>`.

use vstd::prelude::*;

verus! {

/// Map from a `u8` key to a value, backed by a key-sorted vector.
pub struct VecMap<V> {
    entries: Vec<(u8, V)>,
}

impl<V> View for VecMap<V> {
    type V = Map<u8, V>;

    /// The abstract map: a key is present when some entry carries it, and
    /// maps to that entry's value.
    closed spec fn view(&self) -> Map<u8, V> {
        Map::new(
            |k: u8| exists|i: int| 0 <= i < self.entries@.len() && self.entries@[i].0 == k,
            |k: u8|
                {
                    let i = choose|i: int|
                        0 <= i < self.entries@.len() && self.entries@[i].0 == k;
                    self.entries@[i].1
                },
        )
    }
}

impl<V> VecMap<V> {
    /// Representation invariant: keys strictly increase with position.
    pub closed spec fn wf(self) -> bool {
        forall|i: int, j: int|
            0 <= i < j < self.entries@.len() ==> self.entries@[i].0 < self.entries@[j].0
    }

    /// The keys in storage order (ascending).
    pub closed spec fn key_seq(self) -> Seq<u8> {
        self.entries@.map_values(|e: (u8, V)| e.0)
    }

    /// An entry's key and value are reflected in the abstract map.
    proof fn lemma_view_at(self, i: int)
        requires
            self.wf(),
            0 <= i < self.entries@.len(),
        ensures
            self@.contains_key(self.entries@[i].0),
            self@[self.entries@[i].0] == self.entries@[i].1,
    {
        let k = self.entries@[i].0;
        assert(self@.contains_key(k));
        let j = choose|j: int| 0 <= j < self.entries@.len() && self.entries@[j].0 == k;
        if i < j {
            assert(self.entries@[i].0 < self.entries@[j].0);
        }
        if j < i {
            assert(self.entries@[j].0 < self.entries@[i].0);
        }
        assert(i == j);
    }

    /// A key in the abstract map has a witness position in storage.
    proof fn lemma_view_witness(self, k: u8) -> (i: int)
        requires
            self.wf(),
            self@.contains_key(k),
        ensures
            0 <= i < self.entries@.len(),
            self.entries@[i].0 == k,
            self.entries@[i].1 == self@[k],
    {
        let i = choose|i: int| 0 <= i < self.entries@.len() && self.entries@[i].0 == k;
        self.lemma_view_at(i);
        i
    }

    /// Creates an empty map.
    pub fn new() -> (m: VecMap<V>)
        ensures
            m.wf(),
            m@ == Map::<u8, V>::empty(),
            m.key_seq() == Seq::<u8>::empty(),
    {
        let m = VecMap { entries: Vec::new() };
        proof {
            assert(m@ =~= Map::<u8, V>::empty());
            assert(m.key_seq() =~= Seq::<u8>::empty());
        }
        m
    }

    /// Looks up the value stored under `k`, if any.
    pub fn get(&self, k: u8) -> (r: Option<&V>)
        requires
            self.wf(),
        ensures
            match r {
                Some(v) => self@.contains_key(k) && *v == self@[k],
                None => !self@.contains_key(k),
            },
    {
        let n = self.entries.len();
        let mut idx: usize = 0;
        while idx < n
            invariant
                n == self.entries@.len(),
                0 <= idx <= n,
                self.wf(),
                forall|j: int| 0 <= j < idx ==> self.entries@[j].0 != k,
            decreases n - idx,
        {
            if self.entries[idx].0 == k {
                proof {
                    self.lemma_view_at(idx as int);
                }
                return Some(&self.entries[idx].1);
            }
            idx = idx + 1;
        }
        proof {
            if self@.contains_key(k) {
                let i = self.lemma_view_witness(k);
            }
        }
        None
    }

    /// True when `k` is present.
    pub fn contains_key(&self, k: u8) -> (r: bool)
        requires
            self.wf(),
        ensures
            r == self@.contains_key(k),
    {
        self.get(k).is_some()
    }

    /// Inserts `v` under `k`, replacing any previous value.
    pub fn insert(&mut self, k: u8, v: V)
        requires
            old(self).wf(),
        ensures
            final(self).wf(),
            final(self)@ == old(self)@.insert(k, v),
    {
        let n = self.entries.len();
        let mut idx: usize = 0;
        while idx < n && self.entries[idx].0 < k
            invariant
                n == self.entries@.len(),
                0 <= idx <= n,
                self.wf(),
                forall|j: int| 0 <= j < idx ==> self.entries@[j].0 < k,
            decreases n - idx,
        {
            idx = idx + 1;
        }
        let ghost pre = *self;
        if idx < n && self.entries[idx].0 == k {
            self.entries[idx] = (k, v);
            proof {
                assert forall|i: int, j: int|
                    0 <= i < j < self.entries@.len() implies self.entries@[i].0
                    < self.entries@[j].0 by {
                    assert(pre.entries@[i].0 < pre.entries@[j].0);
                }
                assert(final(self)@ =~= old(self)@.insert(k, v)) by {
                    assert forall|k2: u8| #[trigger] final(self)@.contains_key(k2) implies old(
                        self,
                    )@.insert(k, v).contains_key(k2) by {
                        let i = final(self).lemma_view_witness(k2);
                        if k2 != k {
                            pre.lemma_view_at(i);
                        }
                    }
                    assert forall|k2: u8| #[trigger] old(self)@.insert(k, v).contains_key(
                        k2,
                    ) implies final(self)@.contains_key(k2) && final(self)@[k2] == old(
                        self,
                    )@.insert(k, v)[k2] by {
                        if k2 == k {
                            final(self).lemma_view_at(idx as int);
                        } else {
                            let i = pre.lemma_view_witness(k2);
                            final(self).lemma_view_at(i);
                        }
                    }
                }
            }
        } else {
            self.entries.insert(idx, (k, v));
            proof {
                // Keys before the insertion point are below k; those after
                // are above it, because the scan stopped at the first key
                // not below k and that key is not k.
                assert forall|i: int, j: int|
                    0 <= i < j < self.entries@.len() implies self.entries@[i].0
                    < self.entries@[j].0 by {
                    if i < idx && j > idx {
                        assert(pre.entries@[i].0 < k);
                        assert(self.entries@[j] == pre.entries@[j - 1]);
                        assert(pre.entries@[j - 1].0 >= k);
                        if j - 1 > idx {
                            assert(pre.entries@[idx as int].0 < pre.entries@[j - 1].0);
                        }
                        assert(pre.entries@[j - 1].0 != k);
                    } else if i < idx && j == idx {
                        assert(pre.entries@[i].0 < k);
                    } else if i == idx && j > idx {
                        assert(self.entries@[j] == pre.entries@[j - 1]);
                        assert(pre.entries@[j - 1].0 >= k);
                        if j - 1 > idx {
                            assert(pre.entries@[idx as int].0 < pre.entries@[j - 1].0);
                        }
                        assert(pre.entries@[j - 1].0 != k);
                    } else if i > idx && j > idx {
                        assert(pre.entries@[i - 1].0 < pre.entries@[j - 1].0);
                    } else {
                        assert(pre.entries@[i].0 < pre.entries@[j].0);
                    }
                }
                assert(final(self)@ =~= old(self)@.insert(k, v)) by {
                    assert forall|k2: u8| #[trigger] final(self)@.contains_key(k2) implies old(
                        self,
                    )@.insert(k, v).contains_key(k2) by {
                        let i = final(self).lemma_view_witness(k2);
                        if k2 != k {
                            if i < idx {
                                pre.lemma_view_at(i);
                            } else {
                                pre.lemma_view_at(i - 1);
                            }
                        }
                    }
                    assert forall|k2: u8| #[trigger] old(self)@.insert(k, v).contains_key(
                        k2,
                    ) implies final(self)@.contains_key(k2) && final(self)@[k2] == old(
                        self,
                    )@.insert(k, v)[k2] by {
                        if k2 == k {
                            final(self).lemma_view_at(idx as int);
                        } else {
                            let i = pre.lemma_view_witness(k2);
                            if i < idx {
                                final(self).lemma_view_at(i);
                            } else {
                                final(self).lemma_view_at(i + 1);
                            }
                        }
                    }
                }
            }
        }
    }

    /// Removes and returns the value stored under `k`, if any.
    pub fn remove(&mut self, k: u8) -> (r: Option<V>)
        requires
            old(self).wf(),
        ensures
            final(self).wf(),
            final(self)@ == old(self)@.remove(k),
            match r {
                Some(v) => old(self)@.contains_key(k) && v == old(self)@[k],
                None => !old(self)@.contains_key(k) && *final(self) == *old(self),
            },
    {
        let n = self.entries.len();
        let mut idx: usize = 0;
        while idx < n
            invariant
                *self == *old(self),
                n == self.entries@.len(),
                0 <= idx <= n,
                self.wf(),
                forall|j: int| 0 <= j < idx ==> self.entries@[j].0 != k,
            decreases n - idx,
        {
            if self.entries[idx].0 == k {
                let ghost pre = *self;
                proof {
                    self.lemma_view_at(idx as int);
                }
                let (_, v) = self.entries.remove(idx);
                proof {
                    assert forall|i: int, j: int|
                        0 <= i < j < self.entries@.len() implies self.entries@[i].0
                        < self.entries@[j].0 by {
                        let pi = if i < idx { i } else { i + 1 };
                        let pj = if j < idx { j } else { j + 1 };
                        assert(pre.entries@[pi].0 < pre.entries@[pj].0);
                    }
                    assert(final(self)@ =~= old(self)@.remove(k)) by {
                        assert forall|k2: u8| #[trigger] final(self)@.contains_key(k2) implies old(
                            self,
                        )@.remove(k).contains_key(k2) && final(self)@[k2] == old(self)@.remove(
                            k,
                        )[k2] by {
                            let i = final(self).lemma_view_witness(k2);
                            let pi = if i < idx { i } else { i + 1 };
                            assert(final(self).entries@[i] == pre.entries@[pi]);
                            pre.lemma_view_at(pi);
                            if pi < idx {
                                assert(pre.entries@[pi].0 < pre.entries@[idx as int].0);
                            } else {
                                assert(pre.entries@[idx as int].0 < pre.entries@[pi].0);
                            }
                        }
                        assert forall|k2: u8| #[trigger] old(self)@.remove(k).contains_key(
                            k2,
                        ) implies final(self)@.contains_key(k2) by {
                            let i = pre.lemma_view_witness(k2);
                            assert(pre.entries@[idx as int].0 == k);
                            if i < idx {
                                final(self).lemma_view_at(i);
                            } else {
                                assert(i != idx);
                                assert(final(self).entries@[i - 1] == pre.entries@[i]);
                                final(self).lemma_view_at(i - 1);
                            }
                        }
                    }
                }
                return Some(v);
            }
            idx = idx + 1;
        }
        proof {
            if self@.contains_key(k) {
                let i = self.lemma_view_witness(k);
            }
            assert(final(self)@ =~= old(self)@.remove(k));
        }
        None
    }

    /// The keys currently present, in ascending order.
    pub fn keys(&self) -> (r: Vec<u8>)
        requires
            self.wf(),
        ensures
            r@ == self.key_seq(),
            forall|k: u8| r@.contains(k) <==> self@.contains_key(k),
            forall|i: int, j: int| 0 <= i < j < r@.len() ==> r@[i] < r@[j],
    {
        let n = self.entries.len();
        let mut r: Vec<u8> = Vec::new();
        let mut idx: usize = 0;
        while idx < n
            invariant
                n == self.entries@.len(),
                0 <= idx <= n,
                self.wf(),
                r@ == self.key_seq().take(idx as int),
            decreases n - idx,
        {
            r.push(self.entries[idx].0);
            proof {
                assert(r@ =~= self.key_seq().take(idx + 1));
            }
            idx = idx + 1;
        }
        proof {
            assert(r@ =~= self.key_seq());
            assert forall|k: u8| r@.contains(k) implies self@.contains_key(k) by {
                let i = choose|i: int| 0 <= i < r@.len() && r@[i] == k;
                self.lemma_view_at(i);
            }
            assert forall|k: u8| self@.contains_key(k) implies r@.contains(k) by {
                let i = self.lemma_view_witness(k);
                assert(r@[i] == k);
            }
        }
        r
    }
}

} // verus!
