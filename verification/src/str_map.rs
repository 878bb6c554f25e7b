//! A small map keyed by strings, kept as a list of entries with distinct
//! keys. Lookups compare keys by their characters.
use vstd::prelude::*;
use vstd::string::StringExecFns;

verus! {

/// A map from `String` keys to values of type `V`.
#[derive(Debug)]
pub struct StrMap<V> {
    entries: Vec<(String, V)>,
}

impl<V> StrMap<V> {
    #[verifier::type_invariant]
    closed spec fn distinct_keys(self) -> bool {
        forall|i: int, j: int|
            0 <= i < j < self.entries@.len() ==> (#[trigger] self.entries@[i]).0@ != (
            #[trigger] self.entries@[j]).0@
    }

    /// Position of key `k` in the entry list.
    closed spec fn position_of(self, k: Seq<char>) -> int {
        choose|i: int| 0 <= i < self.entries@.len() && (#[trigger] self.entries@[i]).0@ == k
    }

    /// Whether `k` is a key of the map.
    pub closed spec fn has_key(self, k: Seq<char>) -> bool {
        exists|i: int| 0 <= i < self.entries@.len() && (#[trigger] self.entries@[i]).0@ == k
    }

    /// The keys in the order the map keeps them.
    pub closed spec fn key_seq(self) -> Seq<Seq<char>> {
        self.entries@.map_values(|e: (String, V)| e.0@)
    }

    /// The contents as a mathematical map.
    pub closed spec fn contents(self) -> Map<Seq<char>, V> {
        Map::new(|k: Seq<char>| self.has_key(k), |k: Seq<char>| self.entries@[self.position_of(k)].1)
    }

    proof fn lemma_position(self, i: int)
        requires
            self.distinct_keys(),
            0 <= i < self.entries@.len(),
        ensures
            self.has_key(self.entries@[i].0@),
            self.position_of(self.entries@[i].0@) == i,
            self.contents().dom().contains(self.entries@[i].0@),
            self.contents()[self.entries@[i].0@] == self.entries@[i].1,
    {
        let k = self.entries@[i].0@;
        assert(self.has_key(k));
        let j = self.position_of(k);
        if j != i {
            if j < i {
                assert(self.entries@[j].0@ != self.entries@[i].0@);
            } else {
                assert(self.entries@[i].0@ != self.entries@[j].0@);
            }
        }
    }

    /// A map holds finitely many keys.
    pub proof fn lemma_contents_finite(self)
        ensures
            self.contents().dom().finite(),
    {
        self.lemma_finite();
    }

    proof fn lemma_finite(self)
        ensures
            self.contents().dom().finite(),
            self.contents().dom().len() <= self.entries@.len(),
        decreases self.entries@.len(),
    {
        let keys = self.entries@.map_values(|e: (String, V)| e.0@);
        assert(self.contents().dom() =~= keys.to_set()) by {
            assert forall|k: Seq<char>| self.contents().dom().contains(k) implies keys.to_set().contains(k) by {
                let i = choose|i: int| 0 <= i < self.entries@.len() && (#[trigger] self.entries@[i]).0@ == k;
                assert(keys[i] == k);
            }
            assert forall|k: Seq<char>| keys.to_set().contains(k) implies self.contents().dom().contains(k) by {
                let i = choose|i: int| 0 <= i < keys.len() && keys[i] == k;
                assert(self.entries@[i].0@ == k);
            }
        }
        keys.lemma_cardinality_of_set();
    }

    /// An empty map.
    pub fn new() -> (m: Self)
        ensures
            m.contents() == Map::<Seq<char>, V>::empty(),
    {
        let m = StrMap { entries: Vec::new() };
        assert(m.contents() =~= Map::<Seq<char>, V>::empty());
        m
    }

    /// Position of `key`, if present.
    fn find(&self, key: &str) -> (r: Option<usize>)
        ensures
            match r {
                Some(i) => i < self.entries@.len() && self.entries@[i as int].0@ == key@,
                None => !self.has_key(key@),
            },
    {
        let owned = key.to_owned();
        let mut i: usize = 0;
        while i < self.entries.len()
            invariant
                i <= self.entries@.len(),
                owned@ == key@,
                forall|j: int| 0 <= j < i ==> (#[trigger] self.entries@[j]).0@ != key@,
            decreases self.entries@.len() - i,
        {
            if self.entries[i].0 == owned {
                return Some(i);
            }
            i += 1;
        }
        None
    }

    /// Number of entries.
    pub fn len(&self) -> (n: usize)
        ensures
            n == self.contents().dom().len(),
    {
        proof {
            use_type_invariant(self);
            self.lemma_len();
        }
        self.entries.len()
    }

    proof fn lemma_len(self)
        requires
            self.distinct_keys(),
        ensures
            self.contents().dom().len() == self.entries@.len(),
    {
        let keys = self.entries@.map_values(|e: (String, V)| e.0@);
        self.lemma_finite();
        assert(self.contents().dom() =~= keys.to_set()) by {
            assert forall|k: Seq<char>| self.contents().dom().contains(k) implies keys.to_set().contains(k) by {
                let i = choose|i: int| 0 <= i < self.entries@.len() && (#[trigger] self.entries@[i]).0@ == k;
                assert(keys[i] == k);
            }
            assert forall|k: Seq<char>| keys.to_set().contains(k) implies self.contents().dom().contains(k) by {
                let i = choose|i: int| 0 <= i < keys.len() && keys[i] == k;
                assert(self.entries@[i].0@ == k);
            }
        }
        assert(keys.no_duplicates()) by {
            assert forall|i: int, j: int| 0 <= i < keys.len() && 0 <= j < keys.len() && i != j implies keys[i] != keys[j] by {
                if i < j {
                    assert(self.entries@[i].0@ != self.entries@[j].0@);
                } else {
                    assert(self.entries@[j].0@ != self.entries@[i].0@);
                }
            }
        }
        keys.unique_seq_to_set();
    }

    /// Whether the map is empty.
    pub fn is_empty(&self) -> (b: bool)
        ensures
            b == (self.contents().dom().len() == 0),
    {
        self.len() == 0
    }

    /// The value stored under `key`.
    pub fn get(&self, key: &str) -> (r: Option<&V>)
        ensures
            match r {
                Some(v) => self.contents().dom().contains(key@) && *v == self.contents()[key@],
                None => !self.contents().dom().contains(key@),
            },
    {
        proof {
            use_type_invariant(self);
        }
        match self.find(key) {
            Some(i) => {
                proof {
                    self.lemma_position(i as int);
                }
                Some(&self.entries[i].1)
            },
            None => None,
        }
    }

    /// Whether `key` is present.
    pub fn contains_key(&self, key: &str) -> (b: bool)
        ensures
            b == self.contents().dom().contains(key@),
    {
        proof {
            use_type_invariant(self);
        }
        match self.find(key) {
            Some(i) => {
                proof {
                    self.lemma_position(i as int);
                }
                true
            },
            None => false,
        }
    }

    /// Stores `value` under `key`, replacing any earlier value, which is
    /// returned.
    pub fn insert(&mut self, key: String, value: V) -> (r: Option<V>)
        ensures
            final(self).contents() == old(self).contents().insert(key@, value),
            match r {
                Some(v) => old(self).contents().dom().contains(key@) && v == old(self).contents()[key@],
                None => !old(self).contents().dom().contains(key@),
            },
    {
        proof {
            use_type_invariant(&*self);
        }
        let ghost old_self = *self;
        let found = self.find(key.as_str());
        let mut entries: Vec<(String, V)> = Vec::new();
        std::mem::swap(&mut entries, &mut self.entries);
        let ghost key_v = key@;
        let ghost old_entries = entries@;
        let r = match found {
            Some(i) => {
                proof {
                    old_self.lemma_position(i as int);
                }
                let (_k, old_v) = entries.remove(i);
                entries.insert(i, (key, value));
                Some(old_v)
            },
            None => {
                entries.push((key, value));
                None
            },
        };
        proof {
            assert forall|a: int, b: int| 0 <= a < b < entries@.len() implies (#[trigger] entries@[a]).0@
                != (#[trigger] entries@[b]).0@ by {
                match found {
                    Some(i) => {
                        if a != i as int && b != i as int {
                            assert(entries@[a] == old_entries[a] && entries@[b] == old_entries[b]);
                        } else if a == i as int {
                            assert(entries@[b] == old_entries[b]);
                            assert(old_entries[a].0@ == key_v);
                        } else {
                            assert(entries@[a] == old_entries[a]);
                            assert(old_entries[b].0@ == key_v);
                        }
                    },
                    None => {
                        if b < old_entries.len() {
                            assert(entries@[a] == old_entries[a] && entries@[b] == old_entries[b]);
                        } else {
                            assert(entries@[a] == old_entries[a]);
                        }
                    },
                }
            }
        }
        self.entries = entries;
        proof {
            let new_self = *self;
            assert(new_self.contents() =~= old_self.contents().insert(key_v, value)) by {
                assert forall|k: Seq<char>| #[trigger] new_self.contents().dom().contains(k) == old_self.contents().insert(key_v, value).dom().contains(k) by {
                    if new_self.has_key(k) {
                        let j = choose|j: int| 0 <= j < new_self.entries@.len() && (#[trigger] new_self.entries@[j]).0@ == k;
                        if k != key_v {
                            assert(new_self.entries@[j] == old_self.entries@[j]);
                            old_self.lemma_position(j);
                        }
                    }
                    if old_self.has_key(k) && k != key_v {
                        let j = choose|j: int| 0 <= j < old_self.entries@.len() && (#[trigger] old_self.entries@[j]).0@ == k;
                        assert(new_self.entries@[j] == old_self.entries@[j]);
                        new_self.lemma_position(j);
                    }
                    if k == key_v {
                        match found {
                            Some(i) => { new_self.lemma_position(i as int); },
                            None => { new_self.lemma_position(old_entries.len() as int); },
                        }
                    }
                }
                assert forall|k: Seq<char>| #[trigger] new_self.contents().dom().contains(k) implies new_self.contents()[k] == old_self.contents().insert(key_v, value)[k] by {
                    let j = choose|j: int| 0 <= j < new_self.entries@.len() && (#[trigger] new_self.entries@[j]).0@ == k;
                    new_self.lemma_position(j);
                    if k != key_v {
                        assert(new_self.entries@[j] == old_self.entries@[j]);
                        old_self.lemma_position(j);
                    }
                }
            }
        }
        r
    }

    /// Removes `key`, returning its value.
    pub fn remove(&mut self, key: &str) -> (r: Option<V>)
        ensures
            final(self).contents() == old(self).contents().remove(key@),
            match r {
                Some(v) => old(self).contents().dom().contains(key@) && v == old(self).contents()[key@],
                None => !old(self).contents().dom().contains(key@),
            },
    {
        proof {
            use_type_invariant(&*self);
        }
        let ghost old_self = *self;
        let found = self.find(key);
        match found {
            None => {
                assert(old_self.contents().remove(key@) =~= old_self.contents());
                None
            },
            Some(i) => {
                proof {
                    old_self.lemma_position(i as int);
                }
                let mut entries: Vec<(String, V)> = Vec::new();
                std::mem::swap(&mut entries, &mut self.entries);
                let ghost old_entries = entries@;
                let (_k, v) = entries.remove(i);
                proof {
                    assert forall|a: int, b: int| 0 <= a < b < entries@.len() implies (#[trigger] entries@[a]).0@
                        != (#[trigger] entries@[b]).0@ by {
                        let a2 = if a < i { a } else { a + 1 };
                        let b2 = if b < i { b } else { b + 1 };
                        assert(entries@[a] == old_entries[a2] && entries@[b] == old_entries[b2]);
                    }
                }
                self.entries = entries;
                proof {
                    let new_self = *self;
                    let kv = key@;
                    assert(new_self.contents() =~= old_self.contents().remove(kv)) by {
                        assert forall|k: Seq<char>| #[trigger] new_self.contents().dom().contains(k) == old_self.contents().remove(kv).dom().contains(k) by {
                            if new_self.has_key(k) {
                                let j = choose|j: int| 0 <= j < new_self.entries@.len() && (#[trigger] new_self.entries@[j]).0@ == k;
                                let j2 = if j < i { j } else { j + 1 };
                                assert(new_self.entries@[j] == old_entries[j2]);
                                old_self.lemma_position(j2);
                                assert(old_entries[i as int].0@ == kv);
                            }
                            if old_self.has_key(k) && k != kv {
                                let j = choose|j: int| 0 <= j < old_self.entries@.len() && (#[trigger] old_self.entries@[j]).0@ == k;
                                assert(j != i);
                                let j2 = if j < i { j } else { j - 1 };
                                assert(new_self.entries@[j2] == old_entries[j]);
                                new_self.lemma_position(j2);
                            }
                        }
                        assert forall|k: Seq<char>| #[trigger] new_self.contents().dom().contains(k) implies new_self.contents()[k] == old_self.contents().remove(kv)[k] by {
                            let j = choose|j: int| 0 <= j < new_self.entries@.len() && (#[trigger] new_self.entries@[j]).0@ == k;
                            new_self.lemma_position(j);
                            let j2 = if j < i { j } else { j + 1 };
                            assert(new_self.entries@[j] == old_entries[j2]);
                            old_self.lemma_position(j2);
                        }
                    }
                }
                Some(v)
            },
        }
    }

    /// The keys, each once.
    pub fn keys(&self) -> (ks: Vec<String>)
        ensures
            ks@.map_values(|k: String| k@) == self.key_seq(),
            ks@.len() == self.contents().dom().len(),
            forall|i: int| 0 <= i < ks@.len() ==> self.contents().dom().contains(#[trigger] ks@[i]@),
            forall|k: Seq<char>|
                self.contents().dom().contains(k) ==> exists|i: int|
                    0 <= i < ks@.len() && #[trigger] ks@[i]@ == k,
            forall|i: int, j: int| 0 <= i < j < ks@.len() ==> (#[trigger] ks@[i])@ != (#[trigger] ks@[j])@,
    {
        proof {
            use_type_invariant(self);
            self.lemma_len();
        }
        let mut ks: Vec<String> = Vec::new();
        let mut i: usize = 0;
        while i < self.entries.len()
            invariant
                i <= self.entries@.len(),
                self.distinct_keys(),
                ks@.len() == i,
                forall|j: int| 0 <= j < i ==> (#[trigger] ks@[j])@ == self.entries@[j].0@,
            decreases self.entries@.len() - i,
        {
            ks.push(String::from_str(self.entries[i].0.as_str()));
            i += 1;
        }
        proof {
            assert(ks@.map_values(|k: String| k@) =~= self.key_seq());
            assert forall|j: int| 0 <= j < ks@.len() implies self.contents().dom().contains(#[trigger] ks@[j]@) by {
                self.lemma_position(j);
            }
            assert forall|k: Seq<char>| self.contents().dom().contains(k) implies exists|j: int|
                0 <= j < ks@.len() && #[trigger] ks@[j]@ == k by {
                let j = choose|j: int| 0 <= j < self.entries@.len() && (#[trigger] self.entries@[j]).0@ == k;
                assert(ks@[j]@ == k);
            }
        }
        ks
    }

    /// Removes every entry.
    pub fn clear(&mut self)
        ensures
            final(self).contents() == Map::<Seq<char>, V>::empty(),
    {
        let mut entries: Vec<(String, V)> = Vec::new();
        std::mem::swap(&mut entries, &mut self.entries);
        proof {
            let e = *self;
            assert(e.contents() =~= Map::<Seq<char>, V>::empty());
        }
    }
}

impl<V: Copy> StrMap<V> {
    /// A copy of the map.
    pub fn copied(&self) -> (m: Self)
        ensures
            m.contents() == self.contents(),
    {
        proof {
            use_type_invariant(self);
        }
        let mut entries: Vec<(String, V)> = Vec::new();
        let mut i: usize = 0;
        while i < self.entries.len()
            invariant
                i <= self.entries@.len(),
                entries@.len() == i,
                forall|j: int| 0 <= j < i ==> (#[trigger] entries@[j]).0@ == self.entries@[j].0@
                    && entries@[j].1 == self.entries@[j].1,
            decreases self.entries@.len() - i,
        {
            let k = self.entries[i].0.clone();
            entries.push((k, self.entries[i].1));
            i += 1;
        }
        proof {
            assert forall|a: int, b: int| 0 <= a < b < entries@.len() implies (#[trigger] entries@[a]).0@
                != (#[trigger] entries@[b]).0@ by {
                assert(self.entries@[a].0@ != self.entries@[b].0@);
            }
        }
        let m = StrMap { entries };
        proof {
            assert forall|k: Seq<char>| m.has_key(k) == self.has_key(k) by {
                if m.has_key(k) {
                    let j = choose|j: int| 0 <= j < m.entries@.len() && (#[trigger] m.entries@[j]).0@ == k;
                    assert(self.entries@[j].0@ == k);
                }
                if self.has_key(k) {
                    let j = choose|j: int| 0 <= j < self.entries@.len() && (#[trigger] self.entries@[j]).0@ == k;
                    assert(m.entries@[j].0@ == k);
                }
            }
            assert forall|k: Seq<char>| #[trigger] m.contents().dom().contains(k) implies m.contents()[k] == self.contents()[k] by {
                let j = choose|j: int| 0 <= j < m.entries@.len() && (#[trigger] m.entries@[j]).0@ == k;
                m.lemma_position(j);
                self.lemma_position(j);
            }
            assert(m.contents() =~= self.contents());
        }
        m
    }
}

} // verus!
