//! A small map from strings to values, kept as two parallel vectors with
//! pairwise distinct keys. Its view is a `Map<Seq<char>, V>`.

use vstd::prelude::*;

verus! {

/// Equality of two string slices, by `str`'s `PartialEq::eq`: the result is
/// true exactly when both hold the same characters.
#[verifier::external_body]
pub(crate) fn str_eq(a: &str, b: &str) -> (r: bool)
    ensures
        r == (a@ == b@),
{
    a == b
}

pub struct StrMap<V> {
    pub keys: Vec<String>,
    pub vals: Vec<V>,
}

impl<V> View for StrMap<V> {
    type V = Map<Seq<char>, V>;

    open spec fn view(&self) -> Map<Seq<char>, V> {
        Map::new(
            |k: Seq<char>| exists|i: int| self.has_key_at(k, i),
            |k: Seq<char>| self.vals[choose|i: int| self.has_key_at(k, i)],
        )
    }
}

impl<V> StrMap<V> {
    /// Slot `i` exists and holds key `k`.
    pub open spec fn has_key_at(&self, k: Seq<char>, i: int) -> bool {
        0 <= i < self.keys.len() && self.keys[i]@ == k
    }

    /// Both vectors have one length and no key occurs twice.
    pub open spec fn wf(&self) -> bool {
        &&& self.keys.len() == self.vals.len()
        &&& forall|i: int, j: int|
            0 <= i < j < self.keys.len() ==> self.keys[i]@ != self.keys[j]@
    }

    /// The number of slots.
    pub open spec fn spec_len(&self) -> nat {
        self.keys@.len()
    }

    /// Under `wf`, slot `i` is the entry of the view for its key.
    pub proof fn lemma_slot(&self, i: int)
        requires
            self.wf(),
            0 <= i < self.keys.len(),
        ensures
            self@.contains_key(self.keys[i]@),
            self@[self.keys[i]@] == self.vals[i],
    {
        let k = self.keys[i]@;
        assert(self.has_key_at(k, i));
        let j = choose|j: int| self.has_key_at(k, j);
        assert(self.has_key_at(k, j));
        assert(j == i);
    }

    /// Every key of the view sits in some slot.
    pub proof fn lemma_key_slot(&self, k: Seq<char>) -> (i: int)
        requires
            self.wf(),
            self@.contains_key(k),
        ensures
            self.has_key_at(k, i),
            self@[k] == self.vals[i],
    {
        let i = choose|i: int| self.has_key_at(k, i);
        self.lemma_slot(i);
        i
    }

    pub fn new() -> (m: Self)
        ensures
            m.wf(),
            m@ == Map::<Seq<char>, V>::empty(),
            m.spec_len() == 0,
    {
        let m = StrMap { keys: Vec::new(), vals: Vec::new() };
        assert(m@ =~= Map::<Seq<char>, V>::empty());
        m
    }

    pub fn len(&self) -> (n: usize)
        requires
            self.wf(),
        ensures
            n == self.spec_len(),
    {
        self.keys.len()
    }

    /// The slot that holds `key`, if any.
    pub fn index_of(&self, key: &str) -> (r: Option<usize>)
        requires
            self.wf(),
        ensures
            match r {
                Some(i) => self.has_key_at(key@, i as int) && self@.contains_key(key@)
                    && self@[key@] == self.vals[i as int],
                None => !self@.contains_key(key@),
            },
    {
        let mut i: usize = 0;
        while i < self.keys.len()
            invariant
                self.wf(),
                i <= self.keys.len(),
                forall|j: int| 0 <= j < i ==> self.keys[j]@ != key@,
            decreases self.keys.len() - i,
        {
            if str_eq(self.keys[i].as_str(), key) {
                proof {
                    self.lemma_slot(i as int);
                }
                return Some(i);
            }
            i += 1;
        }
        None
    }

    pub fn contains_key(&self, key: &str) -> (r: bool)
        requires
            self.wf(),
        ensures
            r == self@.contains_key(key@),
    {
        self.index_of(key).is_some()
    }

    pub fn get(&self, key: &str) -> (r: Option<&V>)
        requires
            self.wf(),
        ensures
            match r {
                Some(v) => self@.contains_key(key@) && *v == self@[key@],
                None => !self@.contains_key(key@),
            },
    {
        match self.index_of(key) {
            Some(i) => Some(&self.vals[i]),
            None => None,
        }
    }

    /// The key in slot `i`.
    pub fn key_at(&self, i: usize) -> (k: &String)
        requires
            self.wf(),
            i < self.spec_len(),
        ensures
            *k == self.keys[i as int],
            self@.contains_key(k@),
            self@[k@] == self.vals[i as int],
    {
        proof {
            self.lemma_slot(i as int);
        }
        &self.keys[i]
    }

    /// The value in slot `i`.
    pub fn value_at(&self, i: usize) -> (v: &V)
        requires
            self.wf(),
            i < self.spec_len(),
        ensures
            *v == self.vals[i as int],
            self@.contains_key(self.keys[i as int]@),
            self@[self.keys[i as int]@] == *v,
    {
        proof {
            self.lemma_slot(i as int);
        }
        &self.vals[i]
    }

    /// Binds `key` to `val`, replacing an earlier binding of `key`.
    pub fn insert(&mut self, key: String, val: V)
        requires
            old(self).wf(),
        ensures
            final(self).wf(),
            final(self)@ == old(self)@.insert(key@, val),
    {
        let found = self.index_of(key.as_str());
        let ghost before = *self;
        match found {
            Some(i) => {
                self.vals.set(i, val);
                proof {
                    assert forall|k: Seq<char>| #[trigger] self@.contains_key(k)
                        == before@.insert(key@, val).contains_key(k) by {
                        if self@.contains_key(k) {
                            let j = self.lemma_key_slot(k);
                            assert(before.has_key_at(k, j));
                        }
                        if before@.contains_key(k) {
                            let j = before.lemma_key_slot(k);
                            assert(self.has_key_at(k, j));
                        }
                        assert(self.has_key_at(key@, i as int));
                    }
                    assert forall|k: Seq<char>| #[trigger] self@.contains_key(k) implies self@[k]
                        == before@.insert(key@, val)[k] by {
                        let j = self.lemma_key_slot(k);
                        if j != i {
                            before.lemma_slot(j);
                        }
                    }
                    assert(self@ =~= before@.insert(key@, val));
                }
            },
            None => {
                self.keys.push(key);
                self.vals.push(val);
                proof {
                    let n = before.keys.len() as int;
                    assert forall|a: int, b: int| 0 <= a < b < self.keys.len() implies self.keys[a]@
                        != self.keys[b]@ by {
                        if b == n {
                            if self.keys[a]@ == key@ {
                                assert(before.has_key_at(key@, a));
                            }
                        }
                    }
                    assert forall|k: Seq<char>| #[trigger] self@.contains_key(k)
                        == before@.insert(key@, val).contains_key(k) by {
                        if self@.contains_key(k) {
                            let j = self.lemma_key_slot(k);
                            if j < n {
                                assert(before.has_key_at(k, j));
                            }
                        }
                        if before@.contains_key(k) {
                            let j = before.lemma_key_slot(k);
                            assert(self.has_key_at(k, j));
                        }
                        assert(self.has_key_at(key@, n));
                    }
                    assert forall|k: Seq<char>| #[trigger] self@.contains_key(k) implies self@[k]
                        == before@.insert(key@, val)[k] by {
                        let j = self.lemma_key_slot(k);
                        if j < n {
                            before.lemma_slot(j);
                        }
                    }
                    assert(self@ =~= before@.insert(key@, val));
                }
            },
        }
    }

    /// Drops the binding of `key`, if there is one.
    pub fn remove(&mut self, key: &str)
        requires
            old(self).wf(),
        ensures
            final(self).wf(),
            final(self)@ == old(self)@.remove(key@),
    {
        let found = self.index_of(key);
        let ghost before = *self;
        match found {
            Some(i) => {
                self.keys.remove(i);
                self.vals.remove(i);
                proof {
                    assert forall|k: Seq<char>| #[trigger] self@.contains_key(k)
                        == before@.remove(key@).contains_key(k) by {
                        if self@.contains_key(k) {
                            let j = self.lemma_key_slot(k);
                            if j < i {
                                assert(before.has_key_at(k, j));
                            } else {
                                assert(before.has_key_at(k, j + 1));
                            }
                        }
                        if before@.contains_key(k) && k != key@ {
                            let j = before.lemma_key_slot(k);
                            if j < i {
                                assert(self.has_key_at(k, j));
                            } else {
                                assert(self.has_key_at(k, j - 1));
                            }
                        }
                    }
                    assert forall|k: Seq<char>| #[trigger] self@.contains_key(k) implies self@[k]
                        == before@.remove(key@)[k] by {
                        let j = self.lemma_key_slot(k);
                        if j < i {
                            before.lemma_slot(j);
                        } else {
                            before.lemma_slot(j + 1);
                        }
                    }
                    assert(self@ =~= before@.remove(key@));
                }
            },
            None => {
                assert(self@ =~= before@.remove(key@));
            },
        }
    }
}

} // verus!
