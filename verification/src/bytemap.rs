//! The byte-keyed associative container each bucket stores its entries in.
//! The table only needs `get` under shared access and `insert` under
//! exclusive access; this container keeps one entry per key and is modelled
//! by a `Map<Seq<u8>, V>`.

use vstd::prelude::*;

verus! {

/// Compares two byte slices for equality.
pub fn bytes_eq(a: &[u8], b: &[u8]) -> (r: bool)
    ensures
        r == (a@ == b@),
{
    if a.len() != b.len() {
        assert(a@ != b@);
        return false;
    }
    let mut i: usize = 0;
    while i < a.len()
        invariant
            0 <= i <= a@.len(),
            a@.len() == b@.len(),
            forall|j: int| 0 <= j < i ==> a@[j] == b@[j],
        decreases a@.len() - i,
    {
        if a[i] != b[i] {
            return false;
        }
        i = i + 1;
    }
    proof {
        assert(a@ =~= b@);
    }
    true
}

/// Copies a byte slice into an owned vector.
pub fn copy_bytes(s: &[u8]) -> (r: Vec<u8>)
    ensures
        r@ == s@,
{
    let mut r: Vec<u8> = Vec::new();
    let mut i: usize = 0;
    while i < s.len()
        invariant
            0 <= i <= s@.len(),
            r@ == s@.subrange(0, i as int),
        decreases s@.len() - i,
    {
        r.push(s[i]);
        proof {
            assert(r@ =~= s@.subrange(0, i + 1));
        }
        i = i + 1;
    }
    proof {
        assert(r@ =~= s@);
    }
    r
}

/// An associative container from byte strings to copyable values, holding at
/// most one entry per key.
pub struct ByteMap<V> {
    pairs: Vec<(Vec<u8>, V)>,
}

impl<V: Copy> ByteMap<V> {
    /// Well-formed: no two entries share a key.
    pub closed spec fn wf(&self) -> bool {
        forall|i: int, j: int|
            0 <= i < j < self.pairs@.len() ==> self.pairs@[i].0@ != self.pairs@[j].0@
    }

    /// The mathematical map this container holds.
    pub closed spec fn m(&self) -> Map<Seq<u8>, V> {
        Map::new(
            |k: Seq<u8>|
                exists|i: int| 0 <= i < self.pairs@.len() && self.pairs@[i].0@ == k,
            |k: Seq<u8>|
                {
                    let i = choose|i: int| 0 <= i < self.pairs@.len() && self.pairs@[i].0@ == k;
                    self.pairs@[i].1
                },
        )
    }

    /// Under well-formedness, the entry at position `i` is what the model
    /// map holds for its key.
    proof fn lemma_entry_is_model(&self, i: int)
        requires
            self.wf(),
            0 <= i < self.pairs@.len(),
        ensures
            self.m().dom().contains(self.pairs@[i].0@),
            self.m()[self.pairs@[i].0@] == self.pairs@[i].1,
    {
        let k = self.pairs@[i].0@;
        assert(self.m().dom().contains(k));
        let j = choose|j: int| 0 <= j < self.pairs@.len() && self.pairs@[j].0@ == k;
        assert(j == i);
    }

    /// An empty container.
    pub fn new() -> (r: Self)
        ensures
            r.wf(),
            r.m() == Map::<Seq<u8>, V>::empty(),
    {
        let r = ByteMap { pairs: Vec::new() };
        proof {
            assert(r.m() =~= Map::<Seq<u8>, V>::empty());
        }
        r
    }

    /// Finds the position of a key, if it is present.
    fn find_index(&self, key: &[u8]) -> (r: Option<usize>)
        requires
            self.wf(),
        ensures
            match r {
                Some(i) => i < self.pairs@.len() && self.pairs@[i as int].0@ == key@,
                None => !self.m().dom().contains(key@),
            },
    {
        let mut i: usize = 0;
        while i < self.pairs.len()
            invariant
                0 <= i <= self.pairs@.len(),
                forall|j: int| 0 <= j < i ==> self.pairs@[j].0@ != key@,
            decreases self.pairs@.len() - i,
        {
            if bytes_eq(self.pairs[i].0.as_slice(), key) {
                return Some(i);
            }
            i = i + 1;
        }
        None
    }

    /// Looks a key up, returning its value if the key is present and nothing
    /// otherwise.
    pub fn get(&self, key: &[u8]) -> (r: Option<V>)
        requires
            self.wf(),
        ensures
            r == if self.m().dom().contains(key@) {
                Some(self.m()[key@])
            } else {
                None::<V>
            },
    {
        match self.find_index(key) {
            Some(i) => {
                proof {
                    self.lemma_entry_is_model(i as int);
                }
                Some(self.pairs[i].1)
            },
            None => None,
        }
    }

    /// Inserts a key with a value, returning the value the key held before,
    /// if any. Afterwards the container holds exactly the old entries plus
    /// this binding.
    pub fn insert(&mut self, key: &[u8], value: V) -> (prev: Option<V>)
        requires
            old(self).wf(),
        ensures
            final(self).wf(),
            final(self).m() == old(self).m().insert(key@, value),
            prev == if old(self).m().dom().contains(key@) {
                Some(old(self).m()[key@])
            } else {
                None::<V>
            },
    {
        let ghost m0 = self.m();
        let found = self.find_index(key);
        let owned = copy_bytes(key);
        match found {
            Some(i) => {
                proof {
                    self.lemma_entry_is_model(i as int);
                }
                let prev_value: V = self.pairs[i].1;
                self.pairs[i] = (owned, value);
                proof {
                    self.lemma_same_keys_after_update(*old(self), i as int, key@, value);
                }
                Some(prev_value)
            },
            None => {
                self.pairs.push((owned, value));
                proof {
                    let n = self.pairs@.len() - 1;
                    assert(self.pairs@[n].0@ == key@);
                    assert forall|p: int, q: int|
                        0 <= p < q < self.pairs@.len() implies self.pairs@[p].0@
                        != self.pairs@[q].0@ by {
                        if q < n {
                            assert(old(self).pairs@[p].0@ != old(self).pairs@[q].0@);
                        } else {
                            assert(old(self).pairs@[p].0@ != key@);
                        }
                    }
                    assert forall|k: Seq<u8>|
                        #![trigger self.m().dom().contains(k)]
                        #![trigger m0.insert(key@, value).dom().contains(k)]
                        true implies self.m().dom().contains(k) == m0.insert(
                        key@,
                        value,
                    ).dom().contains(k) && (self.m().dom().contains(k) ==> self.m()[k] == m0.insert(
                        key@,
                        value,
                    )[k]) by {
                        if k == key@ {
                            self.lemma_entry_is_model(n);
                        } else {
                            if exists|p: int|
                                0 <= p < old(self).pairs@.len() && old(self).pairs@[p].0@ == k {
                                let p = choose|p: int|
                                    0 <= p < old(self).pairs@.len() && old(self).pairs@[p].0@ == k;
                                assert(self.pairs@[p].0@ == k);
                                old(self).lemma_entry_is_model(p);
                                self.lemma_entry_is_model(p);
                            } else {
                                if exists|p: int|
                                    0 <= p < self.pairs@.len() && self.pairs@[p].0@ == k {
                                    let p = choose|p: int|
                                        0 <= p < self.pairs@.len() && self.pairs@[p].0@ == k;
                                    assert(p == n);
                                }
                            }
                        }
                    }
                    assert(self.m() =~= m0.insert(key@, value));
                }
                None
            },
        }
    }

    /// After overwriting the entry at `i` with the same key, the container
    /// is still well-formed and its model gained exactly that binding.
    proof fn lemma_same_keys_after_update(&self, pre: Self, i: int, key: Seq<u8>, value: V)
        requires
            pre.wf(),
            0 <= i < pre.pairs@.len(),
            pre.pairs@[i].0@ == key,
            self.pairs@ == pre.pairs@.update(i, (self.pairs@[i].0, value)),
            self.pairs@[i].0@ == key,
            self.pairs@[i].1 == value,
        ensures
            self.wf(),
            self.m() == pre.m().insert(key, value),
    {
        assert forall|p: int| 0 <= p < self.pairs@.len() implies self.pairs@[p].0@
            == pre.pairs@[p].0@ by {}
        assert forall|p: int, q: int| 0 <= p < q < self.pairs@.len() implies self.pairs@[p].0@
            != self.pairs@[q].0@ by {
            assert(pre.pairs@[p].0@ != pre.pairs@[q].0@);
        }
        assert forall|k: Seq<u8>|
            #![trigger self.m().dom().contains(k)]
            #![trigger pre.m().insert(key, value).dom().contains(k)]
            true implies self.m().dom().contains(k) == pre.m().insert(key, value).dom().contains(k)
            && (self.m().dom().contains(k) ==> self.m()[k] == pre.m().insert(key, value)[k]) by {
            if k == key {
                self.lemma_entry_is_model(i);
            } else {
                if exists|p: int| 0 <= p < pre.pairs@.len() && pre.pairs@[p].0@ == k {
                    let p = choose|p: int| 0 <= p < pre.pairs@.len() && pre.pairs@[p].0@ == k;
                    assert(self.pairs@[p].0@ == k);
                    pre.lemma_entry_is_model(p);
                    self.lemma_entry_is_model(p);
                } else {
                    if exists|p: int| 0 <= p < self.pairs@.len() && self.pairs@[p].0@ == k {
                        let p = choose|p: int| 0 <= p < self.pairs@.len() && self.pairs@[p].0@ == k;
                        assert(pre.pairs@[p].0@ == k);
                    }
                }
            }
        }
        assert(self.m() =~= pre.m().insert(key, value));
    }
}

} // verus!
