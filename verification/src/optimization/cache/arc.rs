//! Adaptive replacement cache (ARC).
//!
//! The cache keeps four lists of keys: `t1` holds keys seen once recently,
//! `t2` keys seen more often, and the ghost lists `b1` and `b2` remember
//! keys evicted from `t1` and `t2`. The target size `p` of `t1` adapts:
//! a miss on a key of `b1` raises it, a miss on a key of `b2` lowers it.
use std::collections::{HashMap, VecDeque};
use std::hash::Hash;
use std::time::Instant;
use vstd::prelude::*;
use vstd::std_specs::hash::obeys_key_model;
use vstd::laws_eq::obeys_concrete_eq;
use vstd::std_specs::cmp::PartialEqSpec;
use crate::clock::instant_now;

verus! {

/// A cached value with its access record.
#[derive(Debug)]
pub struct ArcEntry<K, V> {
    /// The key.
    pub key: K,
    /// The value.
    pub value: V,
    /// Number of accesses.
    pub frequency: usize,
    /// Time of the last access.
    pub last_accessed: Instant,
    /// Time of creation.
    pub created_at: Instant,
}

impl<K: Clone, V: Clone> Clone for ArcEntry<K, V> {
    fn clone(&self) -> (e: Self)
        ensures
            cloned(self.key, e.key),
            cloned(self.value, e.value),
            e.frequency == self.frequency,
            e.last_accessed == self.last_accessed,
            e.created_at == self.created_at,
    {
        ArcEntry {
            key: self.key.clone(),
            value: self.value.clone(),
            frequency: self.frequency,
            last_accessed: self.last_accessed,
            created_at: self.created_at,
        }
    }
}

impl<K, V> ArcEntry<K, V> {
    fn new(key: K, value: V) -> (e: Self)
        ensures
            e.key == key,
            e.value == value,
            e.frequency == 1,
    {
        let now = instant_now();
        ArcEntry { key, value, frequency: 1, last_accessed: now, created_at: now }
    }

    fn access(&mut self)
        requires
            old(self).frequency < usize::MAX,
        ensures
            final(self).key == old(self).key,
            final(self).value == old(self).value,
            final(self).frequency == old(self).frequency + 1,
            final(self).created_at == old(self).created_at,
    {
        self.frequency += 1;
        self.last_accessed = instant_now();
    }
}

/// Configuration of an ARC cache.
#[derive(Debug, Clone, Copy)]
pub struct ArcCacheConfig {
    /// Number of values held.
    pub capacity: usize,
    /// Number of keys each ghost list remembers.
    pub max_ghost_size: usize,
    /// Whether frequent keys move from `t1` to `t2`.
    pub enable_frequency_promotion: bool,
    /// Number of accesses after which a key moves from `t1` to `t2`.
    pub frequency_threshold: usize,
}

impl Default for ArcCacheConfig {
    fn default() -> (c: Self)
        ensures
            c.capacity == 1000,
            c.max_ghost_size == 2000,
            c.enable_frequency_promotion,
            c.frequency_threshold == 2,
    {
        ArcCacheConfig {
            capacity: 1000,
            max_ghost_size: 2000,
            enable_frequency_promotion: true,
            frequency_threshold: 2,
        }
    }
}

/// Counters of an ARC cache.
#[derive(Debug, Clone, Copy, PartialEq, Eq, Structural)]
pub struct ArcCacheStats {
    pub hits: u64,
    pub misses: u64,
    pub inserts: u64,
    pub evictions: u64,
    pub t1_evictions: u64,
    pub t2_evictions: u64,
    pub promotions: u64,
    pub current_size: usize,
    pub t1_size: usize,
    pub t2_size: usize,
}

impl ArcCacheStats {
    /// Every counter at zero.
    pub open spec fn zero() -> Self {
        ArcCacheStats {
            hits: 0,
            misses: 0,
            inserts: 0,
            evictions: 0,
            t1_evictions: 0,
            t2_evictions: 0,
            promotions: 0,
            current_size: 0,
            t1_size: 0,
            t2_size: 0,
        }
    }

    /// Whether every event counter can still be raised by one.
    pub open spec fn has_room(self) -> bool {
        &&& self.hits < u64::MAX
        &&& self.misses < u64::MAX
        &&& self.inserts < u64::MAX
        &&& self.evictions < u64::MAX
        &&& self.t1_evictions < u64::MAX
        &&& self.t2_evictions < u64::MAX
        &&& self.promotions < u64::MAX
    }
}

impl Default for ArcCacheStats {
    fn default() -> (s: Self)
        ensures
            s == Self::zero(),
    {
        ArcCacheStats {
            hits: 0,
            misses: 0,
            inserts: 0,
            evictions: 0,
            t1_evictions: 0,
            t2_evictions: 0,
            promotions: 0,
            current_size: 0,
            t1_size: 0,
            t2_size: 0,
        }
    }
}

/// `s` without the first occurrence of `k`.
pub open spec fn remove_first<K>(s: Seq<K>, k: K) -> Seq<K>
    decreases s.len(),
{
    if s.len() == 0 {
        s
    } else if s[0] == k {
        s.drop_first()
    } else {
        seq![s[0]] + remove_first(s.drop_first(), k)
    }
}

/// `s` with the first occurrence of `k` moved to the front, or unchanged
/// where `k` does not occur.
pub open spec fn move_first_to_front<K>(s: Seq<K>, k: K) -> Seq<K> {
    if s.contains(k) {
        seq![k] + remove_first(s, k)
    } else {
        s
    }
}

/// Ghost list `b` after remembering `k`: the oldest key goes first where
/// the list is full.
pub open spec fn ghost_push<K>(b: Seq<K>, k: K, max: usize) -> Seq<K> {
    (if b.len() >= max && b.len() > 0 { b.drop_first() } else { b }).push(k)
}

/// Whether eviction takes the least recent key of `t1` (rather than of
/// `t2`), given the list lengths, the target `p` and the capacity.
pub open spec fn evicts_t1(t1_len: nat, t2_len: nat, p: nat, capacity: nat) -> bool {
    t1_len > 0 && (t2_len == 0 || t1_len > p || (t1_len == p && t2_len == capacity - p))
}

/// The target `p` after a miss on a ghost key: raised by the ratio of the
/// ghost list lengths (at least one) after a hit in `b1`, capped at the
/// capacity; lowered likewise after a hit in `b2`, not below zero.
pub open spec fn adapted_p(p: nat, capacity: nat, b1_len: nat, b2_len: nat, in_b1: bool) -> nat {
    if in_b1 {
        let delta = if b2_len > 0 {
            if b1_len / b2_len > 1 { b1_len / b2_len } else { 1 }
        } else {
            b1_len
        };
        if p + delta < capacity { p + delta } else { capacity }
    } else {
        let delta = if b1_len > 0 {
            if b1_len / b2_len > 1 { b1_len / b2_len } else { 1 }
        } else {
            b2_len
        };
        if p >= delta { (p - delta) as nat } else { 0 }
    }
}

proof fn lemma_remove_first<K>(s: Seq<K>, k: K, i: int)
    requires
        0 <= i < s.len(),
        s[i] == k,
        forall|j: int| 0 <= j < i ==> s[j] != k,
    ensures
        remove_first(s, k) == s.remove(i),
    decreases s.len(),
{
    if i > 0 {
        lemma_remove_first(s.drop_first(), k, i - 1);
        assert(remove_first(s, k) =~= s.remove(i));
    }
}

proof fn lemma_remove_first_absent<K>(s: Seq<K>, k: K)
    requires
        !s.contains(k),
    ensures
        remove_first(s, k) == s,
    decreases s.len(),
{
    if s.len() > 0 {
        assert(s[0] != k);
        assert(!s.drop_first().contains(k)) by {
            if s.drop_first().contains(k) {
                let j = choose|j: int| 0 <= j < s.drop_first().len() && s.drop_first()[j] == k;
                assert(s[j + 1] == k);
            }
        }
        lemma_remove_first_absent(s.drop_first(), k);
        assert(remove_first(s, k) =~= s);
    }
}

proof fn lemma_remove_first_props<K>(s: Seq<K>, k: K)
    ensures
        remove_first(s, k).len() == if s.contains(k) { s.len() - 1 } else { s.len() as int },
        forall|j: K| j != k && #[trigger] s.contains(j) ==> remove_first(s, k).contains(j),
        forall|j: K| #[trigger] remove_first(s, k).contains(j) ==> s.contains(j),
    decreases s.len(),
{
    if s.len() > 0 {
        let t = s.drop_first();
        lemma_remove_first_props(t, k);
        assert forall|j: K| #[trigger] s.contains(j) implies j == s[0] || t.contains(j) by {
            let i = choose|i: int| 0 <= i < s.len() && s[i] == j;
            if i > 0 {
                assert(t[i - 1] == j);
            }
        }
        assert forall|j: K| #[trigger] t.contains(j) implies s.contains(j) by {
            let i = choose|i: int| 0 <= i < t.len() && t[i] == j;
            assert(s[i + 1] == j);
        }
        if s[0] == k {
            assert(s.contains(k));
        } else {
            let r = seq![s[0]] + remove_first(t, k);
            assert(r.contains(s[0])) by { assert(r[0] == s[0]); }
            assert forall|j: K| #[trigger] remove_first(t, k).contains(j) implies r.contains(j) by {
                let i = choose|i: int| 0 <= i < remove_first(t, k).len() && remove_first(t, k)[i] == j;
                assert(r[i + 1] == j);
            }
            assert forall|j: K| #[trigger] r.contains(j) implies s.contains(j) by {
                let i = choose|i: int| 0 <= i < r.len() && r[i] == j;
                if i > 0 {
                    assert(remove_first(t, k)[i - 1] == j);
                    assert(remove_first(t, k).contains(j));
                    assert(t.contains(j));
                } else {
                    assert(s[0] == j);
                }
            }
            assert(s.contains(k) == t.contains(k));
        }
    }
}

proof fn lemma_drop_last_keeps<K>(s: Seq<K>, j: K)
    requires
        s.len() > 0,
        s.contains(j),
        j != s.last(),
    ensures
        s.drop_last().contains(j),
{
    let i = choose|i: int| 0 <= i < s.len() && s[i] == j;
    assert(s.drop_last()[i] == j);
}

proof fn lemma_push_front_contains<K>(s: Seq<K>, k: K)
    ensures
        (seq![k] + s).contains(k),
        forall|j: K| #[trigger] s.contains(j) ==> (seq![k] + s).contains(j),
{
    assert((seq![k] + s)[0] == k);
    assert forall|j: K| #[trigger] s.contains(j) implies (seq![k] + s).contains(j) by {
        let i = choose|i: int| 0 <= i < s.len() && s[i] == j;
        assert((seq![k] + s)[i + 1] == j);
    }
}

/// The state of an ARC cache as plain values: the four lists, the target
/// `p`, each cached key's value and access count, and the counters.
#[verifier::reject_recursive_types(K)]
pub struct ArcView<K, V> {
    pub t1: Seq<K>,
    pub t2: Seq<K>,
    pub b1: Seq<K>,
    pub b2: Seq<K>,
    pub p: nat,
    pub values: Map<K, (V, nat)>,
    pub stats: ArcCacheStats,
}

impl<K, V> ArcView<K, V> {
    /// After evicting the least recent key of `t1` into its ghost list.
    pub open spec fn evict_t1(self, max_ghost: usize) -> Self {
        let k = self.t1.last();
        ArcView {
            t1: self.t1.drop_last(),
            b1: ghost_push(self.b1, k, max_ghost),
            values: self.values.remove(k),
            stats: ArcCacheStats {
                evictions: (self.stats.evictions + 1) as u64,
                t1_evictions: (self.stats.t1_evictions + 1) as u64,
                ..self.stats
            },
            ..self
        }
    }

    /// After evicting the least recent key of `t2` into its ghost list.
    pub open spec fn evict_t2(self, max_ghost: usize) -> Self {
        let k = self.t2.last();
        ArcView {
            t2: self.t2.drop_last(),
            b2: ghost_push(self.b2, k, max_ghost),
            values: self.values.remove(k),
            stats: ArcCacheStats {
                evictions: (self.stats.evictions + 1) as u64,
                t2_evictions: (self.stats.t2_evictions + 1) as u64,
                ..self.stats
            },
            ..self
        }
    }

    /// After one eviction: from `t1` where it is longer than the target
    /// (or at the target while `t2` fills the rest) or `t2` is empty,
    /// else from `t2`; nothing where both are empty.
    pub open spec fn evict(self, capacity: nat, max_ghost: usize) -> Self {
        if evicts_t1(self.t1.len(), self.t2.len(), self.p, capacity) {
            self.evict_t1(max_ghost)
        } else if self.t2.len() > 0 {
            self.evict_t2(max_ghost)
        } else {
            self
        }
    }

    /// After evicting once where `t1` and `t2` together fill the capacity.
    pub open spec fn make_room(self, capacity: nat, max_ghost: usize) -> Self {
        if self.t1.len() + self.t2.len() >= capacity {
            self.evict(capacity, max_ghost)
        } else {
            self
        }
    }

    /// With the size counters set from the lists.
    pub open spec fn sized(self) -> Self {
        ArcView {
            stats: ArcCacheStats {
                current_size: (self.t1.len() + self.t2.len()) as usize,
                t1_size: self.t1.len() as usize,
                t2_size: self.t2.len() as usize,
                ..self.stats
            },
            ..self
        }
    }

    /// After inserting `value` under `k`: a cached key gets the value, one
    /// more access and moves to the front of `t1` where it is there; a new
    /// key enters at the front of `t1`, after an eviction where the cache
    /// is full.
    pub open spec fn insert(self, k: K, value: V, capacity: nat, max_ghost: usize) -> Self {
        if self.values.contains_key(k) {
            ArcView {
                t1: move_first_to_front(self.t1, k),
                values: self.values.insert(k, (value, self.values[k].1 + 1)),
                ..self
            }
        } else {
            let m = self.make_room(capacity, max_ghost);
            ArcView {
                t1: seq![k] + m.t1,
                values: m.values.insert(k, (value, 1nat)),
                stats: ArcCacheStats { inserts: (m.stats.inserts + 1) as u64, ..m.stats },
                ..m
            }.sized()
        }
    }

    /// After a lookup of `k`: a miss is counted; a hit is counted, the key
    /// gets one more access, and it moves from `t1` to the front of `t2`
    /// where its count before the lookup reached a nonzero `threshold`.
    pub open spec fn get(self, k: K, threshold: nat) -> Self {
        if !self.values.contains_key(k) {
            ArcView { stats: ArcCacheStats { misses: (self.stats.misses + 1) as u64, ..self.stats }, ..self }
        } else {
            let v = self.values[k].0;
            let f = self.values[k].1;
            let promote = threshold > 0 && f >= threshold && self.t1.contains(k);
            ArcView {
                t1: if promote { remove_first(self.t1, k) } else { self.t1 },
                t2: if promote { seq![k] + self.t2 } else { self.t2 },
                values: self.values.insert(k, (v, f + 1)),
                stats: ArcCacheStats {
                    hits: (self.stats.hits + 1) as u64,
                    promotions: if promote { (self.stats.promotions + 1) as u64 } else { self.stats.promotions },
                    ..self.stats
                },
                ..self
            }
        }
    }

    /// After removing `k`: its first occurrence leaves `t1`, or else `t2`;
    /// a cached value is dropped and counted as an eviction.
    pub open spec fn remove(self, k: K) -> Self {
        let t1 = if self.t1.contains(k) { remove_first(self.t1, k) } else { self.t1 };
        let t2 = if self.t1.contains(k) { self.t2 } else { remove_first(self.t2, k) };
        if self.values.contains_key(k) {
            ArcView {
                t1,
                t2,
                values: self.values.remove(k),
                stats: ArcCacheStats { evictions: (self.stats.evictions + 1) as u64, ..self.stats },
                ..self
            }.sized()
        } else {
            ArcView { t1, t2, ..self }
        }
    }

    /// With the target adapted to a miss on a key of `b1` (or of `b2`).
    pub open spec fn adapt(self, capacity: nat, in_b1: bool) -> Self {
        ArcView { p: adapted_p(self.p, capacity, self.b1.len(), self.b2.len(), in_b1), ..self }
    }

    /// After a miss on `k`: a key of `b1` adapts the target, leaves `b1`
    /// and enters `t1`; a key of `b2` adapts the target, leaves `b2` and
    /// enters `t2`; any other key enters `t1`. An eviction comes first
    /// where the cache is full. No value is stored.
    pub open spec fn miss(self, k: K, capacity: nat, max_ghost: usize) -> Self {
        if self.b1.contains(k) {
            let a = ArcView { b1: remove_first(self.b1, k), ..self.adapt(capacity, true) };
            let m = a.make_room(capacity, max_ghost);
            ArcView { t1: seq![k] + m.t1, ..m }
        } else if self.b2.contains(k) {
            let a = ArcView { b2: remove_first(self.b2, k), ..self.adapt(capacity, false) };
            let m = a.make_room(capacity, max_ghost);
            ArcView { t2: seq![k] + m.t2, ..m }
        } else {
            let m = self.make_room(capacity, max_ghost);
            ArcView { t1: seq![k] + m.t1, ..m }
        }
    }

    /// With every list and value dropped and the target at zero.
    pub open spec fn cleared(self) -> Self {
        ArcView {
            t1: Seq::empty(),
            t2: Seq::empty(),
            b1: Seq::empty(),
            b2: Seq::empty(),
            p: 0,
            values: Map::empty(),
            ..self
        }.sized()
    }
}

/// Re-inserting a cached key that sits in `t1` makes it the most recently
/// used key of `t1` and stores the new value under it.
pub proof fn law_reinsert_moves_to_front<K, V>(s: ArcView<K, V>, k: K, v: V, capacity: nat, max_ghost: usize)
    requires
        s.values.contains_key(k),
        s.t1.contains(k),
    ensures
        s.insert(k, v, capacity, max_ghost).t1.len() == s.t1.len(),
        s.insert(k, v, capacity, max_ghost).t1[0] == k,
        s.insert(k, v, capacity, max_ghost).values.contains_key(k),
        s.insert(k, v, capacity, max_ghost).values[k].0 == v,
{
    lemma_remove_first_props(s.t1, k);
}

/// A key re-inserted while in `t1`, behind which `t1` holds another key,
/// survives the insertion of a new key into a full cache: the eviction it
/// causes takes another key, and the key keeps the value re-inserted.
pub proof fn law_reinserted_key_survives_next_insert<K, V>(
    s: ArcView<K, V>,
    k: K,
    v: V,
    k2: K,
    w: V,
    capacity: nat,
    max_ghost: usize,
)
    requires
        s.values.contains_key(k),
        s.t1.contains(k),
        s.t1.len() >= 2,
        s.t1.no_duplicates(),
        !s.t2.contains(k),
        k2 != k,
        !s.values.contains_key(k2),
    ensures
        ({
            let s2 = s.insert(k, v, capacity, max_ghost).insert(k2, w, capacity, max_ghost);
            s2.values.contains_key(k) && s2.values[k].0 == v
        }),
{
    let s1 = s.insert(k, v, capacity, max_ghost);
    let r = remove_first(s.t1, k);
    lemma_remove_first_props(s.t1, k);
    assert(s1.t1 == seq![k] + r);
    assert(r.len() >= 1);
    assert(s1.t1.last() == r.last());
    assert(r.contains(r.last())) by {
        assert(r[r.len() - 1] == r.last());
    }
    assert(r.last() != k) by {
        let i = choose|i: int| 0 <= i < s.t1.len() && s.t1[i] == k;
        lemma_remove_first(s.t1, k, i);
        if r.last() == k {
            assert(s.t1.remove(i).contains(k));
            let j = choose|j: int| 0 <= j < s.t1.remove(i).len() && s.t1.remove(i)[j] == k;
            if j < i {
                assert(s.t1[j] == k);
            } else {
                assert(s.t1[j + 1] == k);
            }
        }
    }
    assert(s1.t2 == s.t2);
    if s1.t2.len() > 0 {
        assert(s1.t2.contains(s1.t2.last())) by {
            assert(s1.t2[s1.t2.len() - 1] == s1.t2.last());
        }
    }
    let m = s1.make_room(capacity, max_ghost);
    assert(m.values.contains_key(k) && m.values[k].0 == v);
}

/// Index of the first occurrence of `key` in `list`.
fn find_key<K: Eq + Copy>(list: &VecDeque<K>, key: &K) -> (r: Option<usize>)
    requires
        obeys_concrete_eq::<K>(),
    ensures
        r matches Some(i) ==> i < list@.len() && list@[i as int] == *key && forall|j: int|
            0 <= j < i ==> list@[j] != *key,
        r is None ==> !list@.contains(*key),
{
    proof {
        reveal(obeys_concrete_eq);
    }
    let mut i: usize = 0;
    while i < list.len()
        invariant
            i <= list@.len(),
            obeys_concrete_eq::<K>(),
            K::obeys_eq_spec(),
            forall|x: K, y: K| x.eq_spec(&y) <==> (x == y),
            forall|j: int| 0 <= j < i ==> list@[j] != *key,
        decreases list@.len() - i,
    {
        if list[i] == *key {
            return Some(i);
        }
        i += 1;
    }
    None
}

/// Removes the first occurrence of `key` from `list`, where there is one.
fn remove_key<K: Eq + Copy>(list: &mut VecDeque<K>, key: &K) -> (found: bool)
    requires
        obeys_concrete_eq::<K>(),
    ensures
        found == old(list)@.contains(*key),
        final(list)@ == remove_first(old(list)@, *key),
{
    match find_key(list, key) {
        Some(i) => {
            proof {
                lemma_remove_first(list@, *key, i as int);
            }
            list.remove(i);
            true
        },
        None => {
            proof {
                lemma_remove_first_absent(list@, *key);
            }
            false
        },
    }
}

/// An adaptive replacement cache from keys `K` to values `V`.
pub struct ArcCache<K, V> {
    capacity: usize,
    max_ghost_size: usize,
    p: usize,
    t1: VecDeque<K>,
    t2: VecDeque<K>,
    b1: VecDeque<K>,
    b2: VecDeque<K>,
    entries: HashMap<K, ArcEntry<K, V>>,
    frequency_threshold: usize,
    stats: ArcCacheStats,
}

/// Whether `k` is one of the keys of `t1` or `t2`.
pub open spec fn listed<K>(t1: Seq<K>, t2: Seq<K>, k: K) -> bool {
    t1.contains(k) || t2.contains(k)
}

impl<K: Eq + Hash + Copy, V: Clone> ArcCache<K, V> {
    /// The recent list, most recent first.
    pub closed spec fn t1_keys(&self) -> Seq<K> {
        self.t1@
    }

    /// The frequent list, most recent first.
    pub closed spec fn t2_keys(&self) -> Seq<K> {
        self.t2@
    }

    /// The ghost list of `t1`, oldest first.
    pub closed spec fn b1_keys(&self) -> Seq<K> {
        self.b1@
    }

    /// The ghost list of `t2`, oldest first.
    pub closed spec fn b2_keys(&self) -> Seq<K> {
        self.b2@
    }

    /// The cached entries, by key.
    pub closed spec fn entry_map(&self) -> Map<K, ArcEntry<K, V>> {
        self.entries@
    }

    /// The target size of `t1`.
    pub closed spec fn target(&self) -> nat {
        self.p as nat
    }

    /// The capacity.
    pub closed spec fn capacity_spec(&self) -> nat {
        self.capacity as nat
    }

    /// The ghost list limit.
    pub closed spec fn max_ghost(&self) -> usize {
        self.max_ghost_size
    }

    /// The promotion threshold.
    pub closed spec fn threshold(&self) -> nat {
        self.frequency_threshold as nat
    }

    /// The counters.
    pub closed spec fn stats_spec(&self) -> ArcCacheStats {
        self.stats
    }

    /// Every cached key is listed in `t1` or `t2`; the two lists together
    /// hold no more keys than the capacity (one where it is zero); the
    /// target lies within the capacity.
    pub closed spec fn wf(&self) -> bool {
        &&& obeys_key_model::<K>()
        &&& obeys_concrete_eq::<K>()
        &&& forall|k: K| #[trigger] self.entries@.contains_key(k) ==> listed(self.t1@, self.t2@, k)
        &&& self.t1@.len() + self.t2@.len() <= if self.capacity > 0 { self.capacity as nat } else { 1 }
        &&& self.p <= self.capacity
    }

    /// An empty cache with the given configuration.
    pub fn new(config: ArcCacheConfig) -> (c: Self)
        requires
            obeys_key_model::<K>(),
            obeys_concrete_eq::<K>(),
        ensures
            c.wf(),
            c.entry_map() == Map::<K, ArcEntry<K, V>>::empty(),
            c.state().values == Map::<K, (V, nat)>::empty(),
            c.t1_keys().len() == 0,
            c.t2_keys().len() == 0,
            c.b1_keys().len() == 0,
            c.b2_keys().len() == 0,
            c.target() == 0,
            c.capacity_spec() == config.capacity,
            c.max_ghost() == config.max_ghost_size,
            c.threshold() == config.frequency_threshold,
            c.stats_spec() == ArcCacheStats::zero(),
    {
        let c = ArcCache {
            capacity: config.capacity,
            max_ghost_size: config.max_ghost_size,
            p: 0,
            t1: VecDeque::new(),
            t2: VecDeque::new(),
            b1: VecDeque::new(),
            b2: VecDeque::new(),
            entries: HashMap::new(),
            frequency_threshold: config.frequency_threshold,
            stats: ArcCacheStats::default(),
        };
        assert(c.state().values =~= Map::<K, (V, nat)>::empty());
        c
    }

    /// An empty cache of the given capacity, whose ghost lists remember
    /// twice as many keys, with the default promotion threshold.
    pub fn with_capacity(capacity: usize) -> (c: Self)
        requires
            obeys_key_model::<K>(),
            obeys_concrete_eq::<K>(),
        ensures
            c.wf(),
            c.entry_map() == Map::<K, ArcEntry<K, V>>::empty(),
            c.state().values == Map::<K, (V, nat)>::empty(),
            c.t1_keys().len() == 0,
            c.t2_keys().len() == 0,
            c.b1_keys().len() == 0,
            c.b2_keys().len() == 0,
            c.target() == 0,
            c.capacity_spec() == capacity,
            c.max_ghost() == (if capacity <= usize::MAX / 2 { 2 * capacity } else { usize::MAX as int }),
            c.threshold() == 2,
            c.stats_spec() == ArcCacheStats::zero(),
    {
        let d = ArcCacheConfig::default();
        let ghost_size: usize = if capacity <= usize::MAX / 2 { capacity * 2 } else { usize::MAX };
        ArcCache::new(ArcCacheConfig { capacity, max_ghost_size: ghost_size, ..d })
    }

    /// The settings: capacity, ghost list limit and promotion threshold.
    pub closed spec fn settings(&self) -> (usize, usize, usize) {
        (self.capacity, self.max_ghost_size, self.frequency_threshold)
    }

    /// The state as plain values.
    pub closed spec fn state(&self) -> ArcView<K, V> {
        ArcView {
            t1: self.t1@,
            t2: self.t2@,
            b1: self.b1@,
            b2: self.b2@,
            p: self.p as nat,
            values: Map::new(
                |k: K| self.entries@.contains_key(k),
                |k: K| (self.entries@[k].value, self.entries@[k].frequency as nat),
            ),
            stats: self.stats,
        }
    }

    proof fn lemma_state_values(&self)
        ensures
            self.state().values.dom() == self.entries@.dom(),
            forall|k: K| #[trigger] self.entries@.contains_key(k) ==> self.state().values[k] == (
            self.entries@[k].value, self.entries@[k].frequency as nat),
    {
        assert(self.state().values.dom() =~= self.entries@.dom());
    }

    fn evict_from_t1(&mut self)
        requires
            old(self).wf(),
            old(self).t1@.len() > 0,
            old(self).stats.evictions < u64::MAX,
            old(self).stats.t1_evictions < u64::MAX,
        ensures
            final(self).wf(),
            final(self).state() == old(self).state().evict_t1(old(self).max_ghost_size),
            final(self).settings() == old(self).settings(),
    {
        let ghost before = self.state();
        let key = self.t1.pop_back().unwrap();
        if self.b1.len() >= self.max_ghost_size && self.b1.len() > 0 {
            self.b1.pop_front();
        }
        self.b1.push_back(key);
        self.entries.remove(&key);
        self.stats.evictions += 1;
        self.stats.t1_evictions += 1;
        proof {
            assert(self.b1@ =~= ghost_push(before.b1, key, self.max_ghost_size));
            assert(self.state().values =~= before.values.remove(key));
            assert forall|k: K| #[trigger] self.entries@.contains_key(k) implies listed(self.t1@, self.t2@, k) by {
                if old(self).t1@.contains(k) && !old(self).t2@.contains(k) {
                    lemma_drop_last_keeps(old(self).t1@, k);
                }
            }
        }
    }

    fn evict_from_t2(&mut self)
        requires
            old(self).wf(),
            old(self).t2@.len() > 0,
            old(self).stats.evictions < u64::MAX,
            old(self).stats.t2_evictions < u64::MAX,
        ensures
            final(self).wf(),
            final(self).state() == old(self).state().evict_t2(old(self).max_ghost_size),
            final(self).settings() == old(self).settings(),
    {
        let ghost before = self.state();
        let key = self.t2.pop_back().unwrap();
        if self.b2.len() >= self.max_ghost_size && self.b2.len() > 0 {
            self.b2.pop_front();
        }
        self.b2.push_back(key);
        self.entries.remove(&key);
        self.stats.evictions += 1;
        self.stats.t2_evictions += 1;
        proof {
            assert(self.b2@ =~= ghost_push(before.b2, key, self.max_ghost_size));
            assert(self.state().values =~= before.values.remove(key));
            assert forall|k: K| #[trigger] self.entries@.contains_key(k) implies listed(self.t1@, self.t2@, k) by {
                if old(self).t2@.contains(k) && !old(self).t1@.contains(k) {
                    lemma_drop_last_keeps(old(self).t2@, k);
                }
            }
        }
    }

    fn evict(&mut self)
        requires
            old(self).wf(),
            old(self).stats.has_room(),
        ensures
            final(self).wf(),
            final(self).state() == old(self).state().evict(old(self).capacity as nat, old(self).max_ghost_size),
            final(self).settings() == old(self).settings(),
            final(self).t1@.len() + final(self).t2@.len() == if old(self).t1@.len() + old(self).t2@.len() > 0 {
                old(self).t1@.len() + old(self).t2@.len() - 1
            } else {
                0
            },
    {
        let t1_len = self.t1.len();
        let t2_len = self.t2.len();
        if t1_len == 0 {
            if t2_len > 0 {
                self.evict_from_t2();
            }
            return;
        }
        if t2_len == 0 {
            self.evict_from_t1();
            return;
        }
        if t1_len > self.p || (t1_len == self.p && t2_len == self.capacity - self.p) {
            self.evict_from_t1();
        } else {
            self.evict_from_t2();
        }
    }

    fn move_to_front(&mut self, key: &K, in_t1: bool)
        requires
            old(self).wf(),
        ensures
            final(self).wf(),
            in_t1 ==> final(self).state() == (ArcView { t1: move_first_to_front(old(self).t1@, *key), ..old(self).state() }),
            !in_t1 ==> final(self).state() == (ArcView { t2: move_first_to_front(old(self).t2@, *key), ..old(self).state() }),
            final(self).settings() == old(self).settings(),
    {
        if in_t1 {
            if let Some(pos) = find_key(&self.t1, key) {
                proof {
                    lemma_remove_first(self.t1@, *key, pos as int);
                    lemma_remove_first_props(self.t1@, *key);
                    lemma_push_front_contains(remove_first(self.t1@, *key), *key);
                    assert(self.t1@.contains(*key)) by { assert(self.t1@[pos as int] == *key); }
                }
                self.t1.remove(pos);
                self.t1.push_front(*key);
            }
        } else {
            if let Some(pos) = find_key(&self.t2, key) {
                proof {
                    lemma_remove_first(self.t2@, *key, pos as int);
                    lemma_remove_first_props(self.t2@, *key);
                    lemma_push_front_contains(remove_first(self.t2@, *key), *key);
                    assert(self.t2@.contains(*key)) by { assert(self.t2@[pos as int] == *key); }
                }
                self.t2.remove(pos);
                self.t2.push_front(*key);
            }
        }
    }

    fn update_stats(&mut self)
        requires
            old(self).wf(),
        ensures
            final(self).wf(),
            final(self).state() == old(self).state().sized(),
            final(self).settings() == old(self).settings(),
    {
        self.stats.current_size = self.t1.len() + self.t2.len();
        self.stats.t1_size = self.t1.len();
        self.stats.t2_size = self.t2.len();
    }

    /// Looks up `key`: on a hit, counts an access of the entry, moves it
    /// from `t1` to `t2` once its count reached the promotion threshold,
    /// and returns a clone of its value.
    pub fn get(&mut self, key: &K) -> (r: Option<V>)
        requires
            old(self).wf(),
            old(self).stats_spec().has_room(),
            old(self).state().values.contains_key(*key) ==> old(self).state().values[*key].1 < usize::MAX,
        ensures
            final(self).wf(),
            final(self).state() == old(self).state().get(*key, old(self).threshold()),
            final(self).settings() == old(self).settings(),
            r is Some <==> old(self).state().values.contains_key(*key),
            r matches Some(v) ==> cloned(old(self).state().values[*key].0, v),
    {
        proof {
            self.lemma_state_values();
        }
        let ghost before = self.state();
        let (should_promote, exists) = match self.entries.get(key) {
            Some(entry) => (self.frequency_threshold > 0 && entry.frequency >= self.frequency_threshold, true),
            None => (false, false),
        };
        if !exists {
            self.stats.misses += 1;
            proof {
                assert(self.state().values =~= before.values);
            }
            return None;
        }
        let mut entry = self.entries.remove(key).unwrap();
        entry.access();
        let value = entry.value.clone();
        self.entries.insert(*key, entry);
        self.stats.hits += 1;
        if should_promote {
            let ghost t1_before = self.t1@;
            if let Some(pos) = find_key(&self.t1, key) {
                proof {
                    lemma_remove_first(self.t1@, *key, pos as int);
                    lemma_remove_first_props(self.t1@, *key);
                    lemma_push_front_contains(self.t2@, *key);
                    assert(self.t1@.contains(*key)) by { assert(self.t1@[pos as int] == *key); }
                }
                self.t1.remove(pos);
                self.t2.push_front(*key);
                self.stats.promotions += 1;
            }
            proof {
                if !t1_before.contains(*key) {
                    assert(self.t1@ == t1_before);
                }
            }
        }
        proof {
            self.lemma_state_values();
            assert(self.state().values =~= before.values.insert(*key, (before.values[*key].0, before.values[*key].1 + 1)));
            assert forall|k: K| #[trigger] self.entries@.contains_key(k) implies listed(self.t1@, self.t2@, k) by {
                lemma_remove_first_props(old(self).t1@, *key);
                lemma_push_front_contains(old(self).t2@, *key);
                assert(old(self).entries@.contains_key(k));
            }
        }
        Some(value)
    }

    /// Stores `value` under `key`. A cached key gets the value, one more
    /// access and moves to the front of `t1`; a new key enters at the front
    /// of `t1` with one access, after an eviction where the cache is full.
    pub fn insert(&mut self, key: K, value: V)
        requires
            old(self).wf(),
            old(self).stats_spec().has_room(),
            old(self).state().values.contains_key(key) ==> old(self).state().values[key].1 < usize::MAX,
        ensures
            final(self).wf(),
            final(self).state() == old(self).state().insert(key, value, old(self).capacity_spec(), old(self).max_ghost()),
            final(self).settings() == old(self).settings(),
    {
        proof {
            self.lemma_state_values();
        }
        let ghost before = self.state();
        if self.entries.contains_key(&key) {
            let mut entry = self.entries.remove(&key).unwrap();
            entry.value = value;
            entry.access();
            self.entries.insert(key, entry);
            proof {
                self.lemma_state_values();
                assert(self.state().values =~= before.values.insert(key, (value, before.values[key].1 + 1)));
            }
            self.move_to_front(&key, true);
            return;
        }
        let total = self.t1.len() + self.t2.len();
        if total >= self.capacity {
            self.evict();
        }
        let ghost mid = self.state();
        proof {
            self.lemma_state_values();
        }
        self.t1.push_front(key);
        self.entries.insert(key, ArcEntry::new(key, value));
        self.stats.inserts += 1;
        proof {
            self.lemma_state_values();
            lemma_push_front_contains(mid.t1, key);
            assert(self.state().values =~= mid.values.insert(key, (value, 1nat)));
            assert forall|k: K| #[trigger] self.entries@.contains_key(k) implies listed(self.t1@, self.t2@, k) by {
                if k != key {
                    assert(mid.values.contains_key(k));
                }
            }
        }
        self.update_stats();
    }

    /// Removes `key`: its first occurrence leaves `t1`, or else `t2`, and
    /// its value, where cached, is returned.
    pub fn remove(&mut self, key: &K) -> (r: Option<V>)
        requires
            old(self).wf(),
            old(self).stats_spec().has_room(),
        ensures
            final(self).wf(),
            final(self).state() == old(self).state().remove(*key),
            final(self).settings() == old(self).settings(),
            r is Some <==> old(self).state().values.contains_key(*key),
            r matches Some(v) ==> v == old(self).state().values[*key].0,
    {
        proof {
            self.lemma_state_values();
            lemma_remove_first_props(self.t1@, *key);
            lemma_remove_first_props(self.t2@, *key);
        }
        let ghost before = self.state();
        if !remove_key(&mut self.t1, key) {
            remove_key(&mut self.t2, key);
        }
        proof {
            if !before.t1.contains(*key) {
                lemma_remove_first_absent(before.t1, *key);
            }
        }
        match self.entries.remove(key) {
            Some(e) => {
                self.stats.evictions += 1;
                proof {
                    self.lemma_state_values();
                    assert(self.state().values =~= before.values.remove(*key));
                }
                self.update_stats();
                Some(e.value)
            },
            None => {
                proof {
                    self.lemma_state_values();
                    assert(self.state().values =~= before.values);
                }
                None
            },
        }
    }

    /// Adapts the target `p` to a miss on a ghost key of `b1` (or `b2`).
    pub fn replace(&mut self, in_b1: bool)
        requires
            old(self).wf(),
            old(self).target() + old(self).b1_keys().len() + 1 <= usize::MAX,
            !in_b1 && old(self).b1_keys().len() > 0 ==> old(self).b2_keys().len() > 0,
        ensures
            final(self).wf(),
            final(self).state() == old(self).state().adapt(old(self).capacity_spec(), in_b1),
            final(self).settings() == old(self).settings(),
    {
        let b1_len = self.b1.len();
        let b2_len = self.b2.len();
        if in_b1 {
            let delta = if b2_len > 0 {
                let q = b1_len / b2_len;
                assert(q <= b1_len) by (nonlinear_arith) requires b2_len > 0, q == b1_len / b2_len;
                if q > 1 { q } else { 1 }
            } else {
                b1_len
            };
            self.p = if self.p + delta < self.capacity { self.p + delta } else { self.capacity };
        } else {
            let delta = if b1_len > 0 {
                let q = b1_len / b2_len;
                if q > 1 { q } else { 1 }
            } else {
                b2_len
            };
            self.p = if self.p >= delta { self.p - delta } else { 0 };
        }
    }

    /// Handles a miss on `key` through the ghost lists: a key of `b1`
    /// raises the target and re-enters `t1`, a key of `b2` lowers it and
    /// re-enters `t2`, any other key enters `t1`; an eviction comes first
    /// where the cache is full.
    pub fn handle_miss(&mut self, key: &K)
        requires
            old(self).wf(),
            old(self).stats_spec().has_room(),
            old(self).target() + old(self).b1_keys().len() + 1 <= usize::MAX,
        ensures
            final(self).wf(),
            final(self).state() == old(self).state().miss(*key, old(self).capacity_spec(), old(self).max_ghost()),
            final(self).settings() == old(self).settings(),
    {
        let in_b1 = find_key(&self.b1, key).is_some();
        let in_b2 = find_key(&self.b2, key).is_some();
        if in_b1 {
            self.replace(true);
            remove_key(&mut self.b1, key);
            let total = self.t1.len() + self.t2.len();
            if total >= self.capacity {
                self.evict();
            }
            proof {
                lemma_push_front_contains(self.t1@, *key);
            }
            self.t1.push_front(*key);
        } else if in_b2 {
            proof {
                assert(self.b2@.len() > 0) by {
                    let i = choose|i: int| 0 <= i < self.b2@.len() && self.b2@[i] == *key;
                }
            }
            self.replace(false);
            remove_key(&mut self.b2, key);
            let total = self.t1.len() + self.t2.len();
            if total >= self.capacity {
                self.evict();
            }
            proof {
                lemma_push_front_contains(self.t2@, *key);
            }
            self.t2.push_front(*key);
        } else {
            let total = self.t1.len() + self.t2.len();
            if total >= self.capacity {
                self.evict();
            }
            proof {
                lemma_push_front_contains(self.t1@, *key);
            }
            self.t1.push_front(*key);
        }
    }

    /// The counters.
    pub fn stats(&self) -> (s: &ArcCacheStats)
        ensures
            *s == self.stats_spec(),
    {
        &self.stats
    }

    /// Number of cached values.
    pub fn len(&self) -> (n: usize)
        requires
            self.wf(),
        ensures
            n == self.state().values.len(),
    {
        proof {
            self.lemma_state_values();
        }
        self.entries.len()
    }

    /// Whether no value is cached.
    pub fn is_empty(&self) -> (b: bool)
        requires
            self.wf(),
        ensures
            b == (self.state().values.len() == 0),
    {
        proof {
            self.lemma_state_values();
        }
        self.entries.len() == 0
    }

    /// The capacity.
    pub fn capacity(&self) -> (c: usize)
        ensures
            c == self.capacity_spec(),
    {
        self.capacity
    }

    /// Drops every list and value and resets the target.
    pub fn clear(&mut self)
        requires
            old(self).wf(),
        ensures
            final(self).wf(),
            final(self).state() == old(self).state().cleared(),
            final(self).settings() == old(self).settings(),
    {
        self.t1.clear();
        self.t2.clear();
        self.b1.clear();
        self.b2.clear();
        self.entries.clear();
        self.p = 0;
        proof {
            assert(self.state().values =~= Map::<K, (V, nat)>::empty());
        }
        self.update_stats();
    }

    /// The target size `p` of `t1`.
    pub fn p_value(&self) -> (p: usize)
        requires
            self.wf(),
        ensures
            p == self.target(),
            p <= self.capacity_spec(),
    {
        self.p
    }

    /// The cache never holds more values than its capacity (one where the
    /// capacity is zero).
    pub proof fn lemma_size_bounded(&self)
        requires
            self.wf(),
        ensures
            self.state().values.len() <= if self.capacity_spec() > 0 { self.capacity_spec() } else { 1 },
    {
        self.lemma_state_values();
        let s1 = self.t1@.to_set();
        let s2 = self.t2@.to_set();
        vstd::seq_lib::seq_to_set_is_finite(self.t1@);
        vstd::seq_lib::seq_to_set_is_finite(self.t2@);
        assert(self.entries@.dom().subset_of(s1.union(s2))) by {
            assert forall|k: K| #[trigger] self.entries@.dom().contains(k) implies s1.union(s2).contains(k) by {
                assert(self.entries@.contains_key(k));
            }
        }
        vstd::set_lib::lemma_len_union(s1, s2);
        vstd::set_lib::lemma_len_subset(self.entries@.dom(), s1.union(s2));
        self.t1@.lemma_cardinality_of_set();
        self.t2@.lemma_cardinality_of_set();
    }
}

/// A value stored under a key is what the next lookup of the key finds:
/// after an insert, the key is cached with that value.
pub proof fn lemma_insert_then_lookup<K, V>(v: ArcView<K, V>, k: K, value: V, capacity: nat, max_ghost: usize)
    ensures
        v.insert(k, value, capacity, max_ghost).values.contains_key(k),
        v.insert(k, value, capacity, max_ghost).values[k].0 == value,
{
}

/// A key removed is no longer cached.
pub proof fn lemma_remove_then_absent<K, V>(v: ArcView<K, V>, k: K)
    ensures
        !v.remove(k).values.contains_key(k),
{
}

/// An ARC cache of branch data keyed by branch id.
pub struct BranchArcCache<BranchId, BranchData> {
    cache: ArcCache<BranchId, BranchData>,
    warmup_enabled: bool,
}

impl<BranchId: Eq + Hash + Copy, BranchData: Clone> BranchArcCache<BranchId, BranchData> {
    /// The underlying cache.
    pub closed spec fn inner(&self) -> ArcCache<BranchId, BranchData> {
        self.cache
    }

    /// An empty cache of the given capacity.
    pub fn new(capacity: usize) -> (c: Self)
        requires
            obeys_key_model::<BranchId>(),
            obeys_concrete_eq::<BranchId>(),
        ensures
            c.inner().wf(),
            c.inner().state().values.len() == 0,
            c.inner().capacity_spec() == capacity,
    {
        BranchArcCache { cache: ArcCache::with_capacity(capacity), warmup_enabled: false }
    }

    /// Looks up a branch, as `ArcCache::get` does.
    pub fn get(&mut self, branch_id: &BranchId) -> (r: Option<BranchData>)
        requires
            old(self).inner().wf(),
            old(self).inner().stats_spec().has_room(),
            old(self).inner().state().values.contains_key(*branch_id) ==> old(self).inner().state().values[*branch_id].1 < usize::MAX,
        ensures
            final(self).inner().wf(),
            final(self).inner().state() == old(self).inner().state().get(*branch_id, old(self).inner().threshold()),
            final(self).inner().settings() == old(self).inner().settings(),
            r is Some <==> old(self).inner().state().values.contains_key(*branch_id),
            r matches Some(v) ==> cloned(old(self).inner().state().values[*branch_id].0, v),
    {
        self.cache.get(branch_id)
    }

    /// Stores a branch, as `ArcCache::insert` does.
    pub fn insert(&mut self, branch_id: BranchId, data: BranchData)
        requires
            old(self).inner().wf(),
            old(self).inner().stats_spec().has_room(),
            old(self).inner().state().values.contains_key(branch_id) ==> old(self).inner().state().values[branch_id].1 < usize::MAX,
        ensures
            final(self).inner().wf(),
            final(self).inner().state() == old(self).inner().state().insert(branch_id, data,
                old(self).inner().capacity_spec(), old(self).inner().max_ghost()),
            final(self).inner().settings() == old(self).inner().settings(),
    {
        self.cache.insert(branch_id, data)
    }

    /// Removes a branch, as `ArcCache::remove` does.
    pub fn remove(&mut self, branch_id: &BranchId) -> (r: Option<BranchData>)
        requires
            old(self).inner().wf(),
            old(self).inner().stats_spec().has_room(),
        ensures
            final(self).inner().wf(),
            final(self).inner().state() == old(self).inner().state().remove(*branch_id),
            final(self).inner().settings() == old(self).inner().settings(),
            r is Some <==> old(self).inner().state().values.contains_key(*branch_id),
            r matches Some(v) ==> v == old(self).inner().state().values[*branch_id].0,
    {
        self.cache.remove(branch_id)
    }

    /// The counters.
    pub fn stats(&self) -> (s: &ArcCacheStats)
        ensures
            *s == self.inner().stats_spec(),
    {
        self.cache.stats()
    }
}

} // verus!
