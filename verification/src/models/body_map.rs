//! The bodies a chain holds, each under the 32-byte id of its block.
use crate::bytes::id_eq;
use crate::models::body::{Body, BodyView};
use vstd::prelude::*;

verus! {

/// Whether some entry of `s` has key `k`.
pub open spec fn has_key(s: Seq<([u8; 32], Body)>, k: Seq<u8>) -> bool {
    exists|i: int| 0 <= i < s.len() && (#[trigger] s[i]).0@ == k
}

/// The position of an entry of `s` with key `k` (meaningful when there is one).
pub open spec fn key_index(s: Seq<([u8; 32], Body)>, k: Seq<u8>) -> int {
    choose|i: int| 0 <= i < s.len() && (#[trigger] s[i]).0@ == k
}

/// No key occurs twice in `s`.
pub open spec fn keys_distinct(s: Seq<([u8; 32], Body)>) -> bool {
    forall|i: int, j: int| 0 <= i < j < s.len() ==> (#[trigger] s[i]).0@ != (#[trigger] s[j]).0@
}

/// The map that a list of entries with distinct keys stands for.
pub open spec fn entries_map(s: Seq<([u8; 32], Body)>) -> Map<Seq<u8>, BodyView> {
    Map::new(|k: Seq<u8>| has_key(s, k), |k: Seq<u8>| s[key_index(s, k)].1@)
}

proof fn lemma_lookup(s: Seq<([u8; 32], Body)>, i: int)
    requires
        keys_distinct(s),
        0 <= i < s.len(),
    ensures
        has_key(s, s[i].0@),
        key_index(s, s[i].0@) == i,
        entries_map(s).contains_key(s[i].0@),
        entries_map(s)[s[i].0@] == s[i].1@,
{
    assert(has_key(s, s[i].0@)) by {
        assert(s[i].0@ == s[i].0@);
    }
    let j = key_index(s, s[i].0@);
    if j != i {
        if j < i {
            assert(s[j].0@ != s[i].0@);
        } else {
            assert(s[i].0@ != s[j].0@);
        }
    }
}

/// A map from block ids to bodies. No block id occurs twice.
#[derive(Debug)]
pub struct BodyMap {
    entries: Vec<([u8; 32], Body)>,
}

impl BodyMap {
    #[verifier::type_invariant]
    spec fn well_formed(&self) -> bool {
        keys_distinct(self.entries@)
    }

    /// The bodies held, by block id.
    pub closed spec fn view(&self) -> Map<Seq<u8>, BodyView> {
        entries_map(self.entries@)
    }

    /// An empty map.
    pub fn new() -> (r: BodyMap)
        ensures
            r.view() == Map::<Seq<u8>, BodyView>::empty(),
    {
        let r = BodyMap { entries: Vec::new() };
        assert(entries_map(r.entries@) =~= Map::<Seq<u8>, BodyView>::empty());
        r
    }

    /// The position of the entry with key `k`, if any.
    fn find(&self, k: &[u8; 32]) -> (r: Option<usize>)
        ensures
            match r {
                Some(i) => i < self.entries@.len() && self.entries@[i as int].0@ == k@,
                None => !has_key(self.entries@, k@),
            },
    {
        let mut i: usize = 0;
        while i < self.entries.len()
            invariant
                i <= self.entries@.len(),
                forall|j: int| 0 <= j < i ==> (#[trigger] self.entries@[j]).0@ != k@,
            decreases self.entries@.len() - i,
        {
            if id_eq(&self.entries[i].0, k) {
                return Some(i);
            }
            i = i + 1;
        }
        None
    }

    /// Number of bodies held.
    pub fn len(&self) -> (r: usize)
        ensures
            r == self.view().len(),
    {
        proof {
            use_type_invariant(self);
            self.lemma_len();
        }
        self.entries.len()
    }

    proof fn lemma_len(&self)
        requires
            keys_distinct(self.entries@),
        ensures
            self.view().len() == self.entries@.len(),
            self.view().dom().finite(),
    {
        let s = self.entries@;
        let keys = Seq::new(s.len(), |i: int| s[i].0@);
        assert forall|i: int, j: int| 0 <= i < j < keys.len() implies keys[i] != keys[j] by {
            assert(s[i].0@ != s[j].0@);
        }
        assert(keys.no_duplicates());
        assert(self.view().dom() =~= keys.to_set()) by {
            assert forall|k: Seq<u8>| self.view().dom().contains(k) implies keys.to_set().contains(k) by {
                let i = key_index(s, k);
                assert(keys[i] == k);
            }
            assert forall|k: Seq<u8>| keys.to_set().contains(k) implies self.view().dom().contains(k) by {
                let i = choose|i: int| 0 <= i < keys.len() && keys[i] == k;
                assert(s[i].0@ == k);
            }
        }
        keys.unique_seq_to_set();
    }

    /// The block ids of the bodies held, each once.
    pub fn keys(&self) -> (r: Vec<[u8; 32]>)
        ensures
            forall|i: int| 0 <= i < r@.len() ==> self.view().contains_key(#[trigger] r@[i]@),
            forall|k: Seq<u8>| #[trigger] self.view().contains_key(k) ==> exists|i: int|
                0 <= i < r@.len() && r@[i]@ == k,
            r@.len() == self.view().len(),
    {
        proof {
            use_type_invariant(self);
            self.lemma_len();
        }
        let mut r: Vec<[u8; 32]> = Vec::new();
        let mut i: usize = 0;
        while i < self.entries.len()
            invariant
                i <= self.entries@.len(),
                r@.len() == i,
                forall|j: int| 0 <= j < i ==> (#[trigger] r@[j])@ == self.entries@[j].0@,
            decreases self.entries@.len() - i,
        {
            r.push(self.entries[i].0);
            i = i + 1;
        }
        proof {
            let s = self.entries@;
            assert forall|j: int| 0 <= j < r@.len() implies self.view().contains_key(#[trigger] r@[j]@) by {
                assert(s[j].0@ == r@[j]@);
            }
            assert forall|k: Seq<u8>| #[trigger] self.view().contains_key(k) implies exists|j: int|
                0 <= j < r@.len() && r@[j]@ == k by {
                let j = key_index(s, k);
                assert(r@[j]@ == k);
            }
        }
        r
    }

    /// Whether a body is held under `k`.
    pub fn contains_key(&self, k: &[u8; 32]) -> (r: bool)
        ensures
            r == self.view().contains_key(k@),
    {
        self.find(k).is_some()
    }

    /// The body held under `k`.
    pub fn get(&self, k: &[u8; 32]) -> (r: Option<&Body>)
        ensures
            match r {
                Some(b) => self.view().contains_key(k@) && b@ == self.view()[k@],
                None => !self.view().contains_key(k@),
            },
    {
        proof {
            use_type_invariant(self);
        }
        match self.find(k) {
            Some(i) => {
                proof {
                    lemma_lookup(self.entries@, i as int);
                }
                Some(&self.entries[i].1)
            },
            None => None,
        }
    }

    /// Puts `v` under `k`, giving back the body that was there.
    pub fn insert(&mut self, k: [u8; 32], v: Body) -> (r: Option<Body>)
        ensures
            final(self).view() == old(self).view().insert(k@, v@),
            match r {
                Some(b) => old(self).view().contains_key(k@) && b@ == old(self).view()[k@],
                None => !old(self).view().contains_key(k@),
            },
    {
        proof {
            use_type_invariant(&*self);
        }
        let ghost s = self.entries@;
        match self.find(&k) {
            Some(i) => {
                proof {
                    lemma_lookup(s, i as int);
                }
                let mut entries = Vec::new();
                std::mem::swap(&mut entries, &mut self.entries);
                let (_, old_v) = entries.remove(i);
                entries.insert(i, (k, v));
                let ghost t = entries@;
                assert(t =~= s.update(i as int, (k, v)));
                proof {
                    assert forall|a: int, b: int| 0 <= a < b < t.len() implies (#[trigger] t[a]).0@
                        != (#[trigger] t[b]).0@ by {
                        assert(s[a].0@ != s[b].0@);
                    }
                    self.lemma_update(s, t, i as int, k, v);
                }
                self.entries = entries;
                Some(old_v)
            },
            None => {
                let mut entries = Vec::new();
                std::mem::swap(&mut entries, &mut self.entries);
                entries.push((k, v));
                let ghost t = entries@;
                proof {
                    assert forall|a: int, b: int| 0 <= a < b < t.len() implies (#[trigger] t[a]).0@
                        != (#[trigger] t[b]).0@ by {
                        if b == s.len() {
                            assert(s[a].0@ != k@);
                        } else {
                            assert(s[a].0@ != s[b].0@);
                        }
                    }
                    self.lemma_push(s, t, k, v);
                }
                self.entries = entries;
                None
            },
        }
    }

    proof fn lemma_update(
        &self,
        s: Seq<([u8; 32], Body)>,
        t: Seq<([u8; 32], Body)>,
        i: int,
        k: [u8; 32],
        v: Body,
    )
        requires
            keys_distinct(s),
            keys_distinct(t),
            0 <= i < s.len(),
            s[i].0@ == k@,
            t == s.update(i, (k, v)),
        ensures
            entries_map(t) == entries_map(s).insert(k@, v@),
    {
        assert forall|key: Seq<u8>| #![auto] entries_map(t).contains_key(key)
            == entries_map(s).insert(k@, v@).contains_key(key) by {
            if has_key(t, key) {
                let j = key_index(t, key);
                if j != i {
                    lemma_lookup(s, j);
                }
            }
            if has_key(s, key) {
                let j = key_index(s, key);
                lemma_lookup(t, j);
            }
        }
        assert forall|key: Seq<u8>| #[trigger]
            entries_map(t).contains_key(key) implies entries_map(t)[key] == entries_map(s).insert(
            k@,
            v@,
        )[key] by {
            let j = key_index(t, key);
            lemma_lookup(t, j);
            if j != i {
                lemma_lookup(s, j);
            } else {
                lemma_lookup(t, i);
            }
        }
        assert(entries_map(t) =~= entries_map(s).insert(k@, v@));
    }

    proof fn lemma_push(
        &self,
        s: Seq<([u8; 32], Body)>,
        t: Seq<([u8; 32], Body)>,
        k: [u8; 32],
        v: Body,
    )
        requires
            keys_distinct(s),
            keys_distinct(t),
            !has_key(s, k@),
            t == s.push((k, v)),
        ensures
            entries_map(t) == entries_map(s).insert(k@, v@),
    {
        assert forall|key: Seq<u8>| #![auto] entries_map(t).contains_key(key)
            == entries_map(s).insert(k@, v@).contains_key(key) by {
            if has_key(t, key) {
                let j = key_index(t, key);
                if j < s.len() {
                    lemma_lookup(s, j);
                }
            }
            if has_key(s, key) {
                let j = key_index(s, key);
                lemma_lookup(t, j);
            }
            lemma_lookup(t, s.len() as int);
        }
        assert forall|key: Seq<u8>| #[trigger]
            entries_map(t).contains_key(key) implies entries_map(t)[key] == entries_map(s).insert(
            k@,
            v@,
        )[key] by {
            let j = key_index(t, key);
            lemma_lookup(t, j);
            if j < s.len() {
                lemma_lookup(s, j);
            }
        }
        assert(entries_map(t) =~= entries_map(s).insert(k@, v@));
    }

    /// Removes the body held under `k`, giving it back.
    pub fn remove(&mut self, k: &[u8; 32]) -> (r: Option<Body>)
        ensures
            final(self).view() == old(self).view().remove(k@),
            match r {
                Some(b) => old(self).view().contains_key(k@) && b@ == old(self).view()[k@],
                None => !old(self).view().contains_key(k@),
            },
    {
        proof {
            use_type_invariant(&*self);
        }
        let ghost s = self.entries@;
        match self.find(k) {
            Some(i) => {
                proof {
                    lemma_lookup(s, i as int);
                }
                let mut entries = Vec::new();
                std::mem::swap(&mut entries, &mut self.entries);
                let (_, old_v) = entries.remove(i);
                let ghost t = entries@;
                proof {
                    assert forall|a: int, b: int| 0 <= a < b < t.len() implies (#[trigger] t[a]).0@
                        != (#[trigger] t[b]).0@ by {
                        if a < i && b < i {
                            assert(s[a].0@ != s[b].0@);
                        } else if a < i {
                            assert(t[b] == s[b + 1]);
                            assert(s[a].0@ != s[b + 1].0@);
                        } else {
                            assert(s[a + 1].0@ != s[b + 1].0@);
                        }
                    }
                    assert forall|key: Seq<u8>| #![auto] entries_map(t).contains_key(key)
                        == entries_map(s).remove(k@).contains_key(key) by {
                        if has_key(t, key) {
                            let j = key_index(t, key);
                            if j < i {
                                lemma_lookup(s, j);
                                assert(s[j].0@ != s[i as int].0@);
                            } else {
                                lemma_lookup(s, j + 1);
                                assert(s[j + 1].0@ != s[i as int].0@);
                            }
                        }
                        if has_key(s, key) && key != k@ {
                            let j = key_index(s, key);
                            if j < i {
                                lemma_lookup(t, j);
                            } else if j > i {
                                lemma_lookup(t, j - 1);
                            }
                        }
                    }
                    assert forall|key: Seq<u8>| #[trigger]
                        entries_map(t).contains_key(key) implies entries_map(t)[key]
                        == entries_map(s).remove(k@)[key] by {
                        let j = key_index(t, key);
                        lemma_lookup(t, j);
                        if j < i {
                            lemma_lookup(s, j);
                        } else {
                            lemma_lookup(s, j + 1);
                        }
                    }
                    assert(entries_map(t) =~= entries_map(s).remove(k@));
                }
                self.entries = entries;
                Some(old_v)
            },
            None => {
                assert(entries_map(s).remove(k@) =~= entries_map(s));
                None
            },
        }
    }
}

impl Clone for BodyMap {
    fn clone(&self) -> (r: Self)
        ensures
            r.view() == self.view(),
    {
        proof {
            use_type_invariant(self);
        }
        let mut entries: Vec<([u8; 32], Body)> = Vec::new();
        let mut i: usize = 0;
        while i < self.entries.len()
            invariant
                i <= self.entries@.len(),
                entries@.len() == i,
                forall|j: int| #![auto] 0 <= j < i ==> entries@[j].0@ == self.entries@[j].0@
                    && entries@[j].1@ == self.entries@[j].1@,
            decreases self.entries@.len() - i,
        {
            let (k, b) = (self.entries[i].0, self.entries[i].1.clone());
            entries.push((k, b));
            i = i + 1;
        }
        let r = BodyMap { entries };
        proof {
            let s = self.entries@;
            let t = r.entries@;
            assert forall|a: int, b: int| 0 <= a < b < t.len() implies (#[trigger] t[a]).0@
                != (#[trigger] t[b]).0@ by {
                assert(s[a].0@ != s[b].0@);
            }
            assert forall|key: Seq<u8>| #![auto] entries_map(t).contains_key(key)
                == entries_map(s).contains_key(key) by {
                if has_key(t, key) {
                    let j = key_index(t, key);
                    assert(s[j].0@ == key);
                }
                if has_key(s, key) {
                    let j = key_index(s, key);
                    assert(t[j].0@ == key);
                }
            }
            assert forall|key: Seq<u8>| #[trigger]
                entries_map(t).contains_key(key) implies entries_map(t)[key]
                == entries_map(s)[key] by {
                let j = key_index(t, key);
                lemma_lookup(t, j);
                lemma_lookup(s, j);
            }
            assert(entries_map(t) =~= entries_map(s));
        }
        r
    }
}

} // verus!
