//! LRU-K cache of branches: a branch enters the main cache only after `k`
//! accesses; until then it waits in a history cache, so that a sequential
//! scan, which touches each branch once, does not push hot branches out.
//! Both caches keep their entries most recently used first and drop the
//! least recently used one when full.
use vstd::prelude::*;
use crate::clock::unix_millis;
use crate::text::same_text;

verus! {

/// Settings of the LRU-K branch cache.
#[derive(Debug, Clone)]
pub struct BranchCacheConfig {
    /// Capacity of the main cache
    pub main_capacity: usize,
    /// Capacity of the history cache (items accessed once)
    pub history_capacity: usize,
    /// Accesses before an item enters the main cache
    pub k: usize,
    /// Whether statistics are kept
    pub enable_stats: bool,
}

impl Default for BranchCacheConfig {
    fn default() -> (c: Self)
        ensures
            c.main_capacity == 100,
            c.history_capacity == 500,
            c.k == 2,
            c.enable_stats,
    {
        BranchCacheConfig { main_capacity: 100, history_capacity: 500, k: 2, enable_stats: true }
    }
}


/// A cached branch with its access record.
#[derive(Debug, Clone)]
pub struct CachedBranch<B> {
    /// Branch id
    pub branch_id: String,
    /// Branch data
    pub branch: B,
    /// Recent access times (milliseconds since the Unix epoch)
    pub access_history: Vec<u64>,
    /// Accesses so far
    pub access_count: usize,
    /// Last access time (milliseconds since the Unix epoch)
    pub last_access: u64,
    /// Whether the entry sits in the history cache
    pub in_history: bool,
}

/// `c + 1`, stopping at `usize::MAX`.
pub open spec fn bumped(c: usize) -> usize {
    if c == usize::MAX {
        c
    } else {
        (c + 1) as usize
    }
}

/// The access times kept after an access at `t`, with `count` accesses
/// counted: `t` appended, and the oldest dropped where more than
/// `max(count, 3)` would be kept.
pub open spec fn after_access(h: Seq<u64>, t: u64, count: usize) -> Seq<u64> {
    let n = h.push(t);
    if n.len() > (if count > 3 { count as nat } else { 3nat }) {
        n.drop_first()
    } else {
        n
    }
}

/// Whether `c1` is `c0` after one more access: the count raised, the
/// access time recorded, the branch unchanged.
pub open spec fn accessed<B>(c0: CachedBranch<B>, c1: CachedBranch<B>) -> bool {
    &&& c1.branch_id@ == c0.branch_id@
    &&& c1.branch == c0.branch
    &&& c1.in_history == c0.in_history
    &&& c1.access_count == bumped(c0.access_count)
    &&& c1.access_history@.len() > 0
    &&& c1.access_history@ == after_access(c0.access_history@, c1.access_history@.last(), c1.access_count)
}

impl<B> CachedBranch<B> {
    /// A new entry for `branch` under `branch_id`, never accessed, its last
    /// access time read from the clock.
    pub fn new(branch_id: String, branch: B) -> (c: Self)
        ensures
            c.branch_id@ == branch_id@,
            c.branch == branch,
            c.access_history@ == Seq::<u64>::empty(),
            c.access_count == 0,
            !c.in_history,
    {
        CachedBranch {
            branch_id,
            branch,
            access_history: Vec::new(),
            access_count: 0,
            last_access: unix_millis(),
            in_history: false,
        }
    }

    /// Records an access at the clock's time.
    pub fn record_access(&mut self)
        ensures
            accessed(*old(self), *final(self)),
    {
        self.access_count = if self.access_count == usize::MAX { self.access_count } else { self.access_count + 1 };
        let t = unix_millis();
        self.access_history.push(t);
        self.last_access = unix_millis();
        let keep: usize = if self.access_count > 3 { self.access_count } else { 3 };
        if self.access_history.len() > keep {
            self.access_history.remove(0);
        }
        proof {
            assert(self.access_history@.last() == t);
        }
    }

    /// The time of the `k`-th most recent access kept, with `k` the access
    /// count capped at two: the entry at that place of the kept times where
    /// there are enough, else the oldest kept time.
    pub fn get_kth_access(&self) -> (r: Option<u64>)
        requires
            self.access_count > 0,
        ensures
            ({
                let k: int = if self.access_count < 2 { self.access_count as int } else { 2 };
                r == if self.access_history@.len() >= k {
                    Some(self.access_history@[k - 1])
                } else if self.access_history@.len() > 0 {
                    Some(self.access_history@[0])
                } else {
                    None
                }
            }),
    {
        let k: usize = if self.access_count < 2 { self.access_count } else { 2 };
        if self.access_history.len() >= k {
            Some(self.access_history[k - 1])
        } else if self.access_history.len() > 0 {
            Some(self.access_history[0])
        } else {
            None
        }
    }
}

/// The ids of the entries `s`.
pub open spec fn ids<B>(s: Seq<CachedBranch<B>>) -> Seq<Seq<char>> {
    s.map_values(|c: CachedBranch<B>| c.branch_id@)
}

/// Where `id` first occurs in `s`; `s.len()` where it does not.
pub open spec fn first_pos(s: Seq<Seq<char>>, id: Seq<char>) -> int
    decreases s.len(),
{
    if s.len() == 0 {
        0
    } else if s[0] == id {
        0
    } else {
        1 + first_pos(s.drop_first(), id)
    }
}

proof fn lemma_first_pos(s: Seq<Seq<char>>, id: Seq<char>, i: int)
    requires
        0 <= i <= s.len(),
        forall|j: int| 0 <= j < i ==> s[j] != id,
        i < s.len() ==> s[i] == id,
    ensures
        first_pos(s, id) == i,
    decreases i,
{
    if i > 0 {
        lemma_first_pos(s.drop_first(), id, i - 1);
    } else if s.len() > 0 {
    }
}

/// Where the entry of `id` stands in `v`, if anywhere.
fn position<B>(v: &Vec<CachedBranch<B>>, id: &str) -> (r: Option<usize>)
    ensures
        r matches Some(i) ==> i < v@.len() && i == first_pos(ids(v@), id@) && v@[i as int].branch_id@ == id@ && ids(
            v@,
        ).contains(id@),
        r is None ==> !ids(v@).contains(id@),
{
    let mut i: usize = 0;
    while i < v.len()
        invariant
            i <= v@.len(),
            forall|j: int| 0 <= j < i ==> ids(v@)[j] != id@,
        decreases v@.len() - i,
    {
        if same_text(v[i].branch_id.as_str(), id) {
            proof {
                lemma_first_pos(ids(v@), id@, i as int);
                assert(ids(v@)[i as int] == id@);
            }
            return Some(i);
        }
        i += 1;
    }
    proof {
        if ids(v@).contains(id@) {
            let j = choose|j: int| 0 <= j < ids(v@).len() && ids(v@)[j] == id@;
        }
    }
    None
}

proof fn lemma_ids_front<B>(c: CachedBranch<B>, s: Seq<CachedBranch<B>>)
    ensures
        ids(seq![c] + s) == seq![c.branch_id@] + ids(s),
{
    assert(ids(seq![c] + s) =~= seq![c.branch_id@] + ids(s));
}

proof fn lemma_ids_remove<B>(s: Seq<CachedBranch<B>>, i: int)
    requires
        0 <= i < s.len(),
    ensures
        ids(s.remove(i)) == ids(s).remove(i),
        ids(s)[i] == s[i].branch_id@,
{
    assert(ids(s.remove(i)) =~= ids(s).remove(i));
}

proof fn lemma_ids_drop_last<B>(s: Seq<CachedBranch<B>>)
    requires
        s.len() > 0,
    ensures
        ids(s.drop_last()) == ids(s).remove(s.len() - 1),
{
    assert(ids(s.drop_last()) =~= ids(s).remove(s.len() - 1));
}

proof fn lemma_remove_distinct(t: Seq<Seq<char>>, i: int)
    requires
        0 <= i < t.len(),
        t.no_duplicates(),
    ensures
        t.remove(i).no_duplicates(),
        forall|x: Seq<char>| t.remove(i).contains(x) ==> t.contains(x) && x != t[i],
{
    let r = t.remove(i);
    assert forall|a: int, b: int| 0 <= a < b < r.len() implies r[a] != r[b] by {
        let ta = if a < i { a } else { a + 1 };
        let tb = if b < i { b } else { b + 1 };
        assert(r[a] == t[ta] && r[b] == t[tb]);
    }
    assert forall|x: Seq<char>| r.contains(x) implies t.contains(x) && x != t[i] by {
        let a = choose|a: int| 0 <= a < r.len() && r[a] == x;
        let ta = if a < i { a } else { a + 1 };
        assert(r[a] == t[ta]);
    }
}

proof fn lemma_front_distinct(x: Seq<char>, t: Seq<Seq<char>>)
    requires
        t.no_duplicates(),
        !t.contains(x),
    ensures
        (seq![x] + t).no_duplicates(),
        forall|y: Seq<char>| (seq![x] + t).contains(y) <==> y == x || t.contains(y),
{
    let r = seq![x] + t;
    assert forall|a: int, b: int| 0 <= a < b < r.len() implies r[a] != r[b] by {
        if a == 0 {
            assert(r[b] == t[b - 1]);
        } else {
            assert(r[a] == t[a - 1] && r[b] == t[b - 1]);
        }
    }
    assert forall|y: Seq<char>| r.contains(y) <==> y == x || t.contains(y) by {
        if r.contains(y) {
            let a = choose|a: int| 0 <= a < r.len() && r[a] == y;
            if a > 0 {
                assert(r[a] == t[a - 1]);
            }
        }
        if y == x {
            assert(r[0] == y);
        }
        if t.contains(y) {
            let a = choose|a: int| 0 <= a < t.len() && t[a] == y;
            assert(r[a + 1] == y);
        }
    }
}

/// Entries put in front of a cache, after dropping its oldest where full,
/// keep the ids distinct and add only the new one.
proof fn lemma_push_distinct<B>(c: CachedBranch<B>, s: Seq<CachedBranch<B>>, cap: usize)
    requires
        ids(s).no_duplicates(),
        !ids(s).contains(c.branch_id@),
    ensures
        ids(seq![c] + kept_behind(s, cap)).no_duplicates(),
        forall|y: Seq<char>| ids(seq![c] + kept_behind(s, cap)).contains(y) ==> y == c.branch_id@ || ids(s).contains(y),
{
    let k = kept_behind(s, cap);
    if evicts(s, cap) {
        lemma_ids_drop_last(s);
        lemma_remove_distinct(ids(s), s.len() - 1);
    }
    lemma_ids_front(c, k);
    lemma_front_distinct(c.branch_id@, ids(k));
}

/// Counters of the branch cache.
#[derive(Debug, Clone, Copy)]
pub struct CacheStats {
    /// Lookups
    pub total_accesses: u64,
    /// Lookups that found the branch
    pub cache_hits: u64,
    /// Lookups that did not
    pub cache_misses: u64,
    /// Hits in the main cache
    pub main_cache_hits: u64,
    /// Hits in the history cache
    pub history_cache_hits: u64,
    /// Entries dropped to make room
    pub evictions: u64,
    /// Entries moved from the history cache to the main cache
    pub promotions: u64,
}

impl CacheStats {
    /// All counters zero.
    pub open spec fn zero() -> CacheStats {
        CacheStats {
            total_accesses: 0,
            cache_hits: 0,
            cache_misses: 0,
            main_cache_hits: 0,
            history_cache_hits: 0,
            evictions: 0,
            promotions: 0,
        }
    }
}

impl Default for CacheStats {
    fn default() -> (s: Self)
        ensures
            s == CacheStats::zero(),
    {
        CacheStats {
            total_accesses: 0,
            cache_hits: 0,
            cache_misses: 0,
            main_cache_hits: 0,
            history_cache_hits: 0,
            evictions: 0,
            promotions: 0,
        }
    }
}

/// Whether putting an entry in front of `s`, a cache of capacity `cap`,
/// first drops its least recently used entry: the cache is full and not
/// empty.
pub open spec fn evicts<B>(s: Seq<CachedBranch<B>>, cap: usize) -> bool {
    s.len() >= cap && s.len() > 0
}

/// What stays of `s` behind an entry put in front of it.
pub open spec fn kept_behind<B>(s: Seq<CachedBranch<B>>, cap: usize) -> Seq<CachedBranch<B>> {
    if evicts(s, cap) {
        s.drop_last()
    } else {
        s
    }
}

/// The eviction counter `n`, raised where `evicted`.
pub open spec fn plus_eviction(n: u64, evicted: bool) -> u64 {
    if evicted {
        n.wrapping_add(1)
    } else {
        n
    }
}

/// Whether `c` is a new entry for `branch` under `id` that carries over
/// `count` accesses with the access times `times`.
pub open spec fn fresh_entry<B>(c: CachedBranch<B>, id: Seq<char>, branch: B, count: usize, times: Seq<u64>) -> bool {
    &&& c.branch_id@ == id
    &&& c.branch == branch
    &&& c.access_count == count
    &&& c.access_history@ == times
    &&& !c.in_history
}

/// Whether `c1` is the cache `c0` after inserting `branch` under `id`: a
/// branch in the main cache is updated in place; otherwise a new entry,
/// carrying over the access record of the branch's history entry (which
/// it replaces), goes to the front of the main cache where it has been
/// accessed `k` times, else to the front of the history cache.
pub open spec fn inserted<B>(c0: BranchLRUCache<B>, c1: BranchLRUCache<B>, id: Seq<char>, branch: B) -> bool {
    &&& c1.settings() == c0.settings()
    &&& ids(c0.main_entries()).contains(id) ==> {
        let i = first_pos(ids(c0.main_entries()), id);
        &&& c1.main_entries() == c0.main_entries().update(
            i,
            CachedBranch { branch: branch, ..c0.main_entries()[i] },
        )
        &&& c1.history_entries() == c0.history_entries()
        &&& c1.counters() == c0.counters()
    }
    &&& !ids(c0.main_entries()).contains(id) ==> {
        let in_history = ids(c0.history_entries()).contains(id);
        let i = first_pos(ids(c0.history_entries()), id);
        let count: usize = if in_history { c0.history_entries()[i].access_count } else { 0 };
        let times = if in_history { c0.history_entries()[i].access_history@ } else { Seq::<u64>::empty() };
        let rest = if in_history { c0.history_entries().remove(i) } else { c0.history_entries() };
        let s0 = c0.counters();
        &&& count >= c0.settings().k ==> {
            &&& fresh_entry(c1.main_entries()[0], id, branch, count, times)
            &&& c1.main_entries().drop_first() == kept_behind(c0.main_entries(), c0.settings().main_capacity)
            &&& c1.history_entries() == rest
            &&& c1.counters() == (CacheStats {
                evictions: plus_eviction(s0.evictions, evicts(c0.main_entries(), c0.settings().main_capacity)),
                ..s0
            })
        }
        &&& count < c0.settings().k ==> {
            &&& fresh_entry(c1.history_entries()[0], id, branch, count, times)
            &&& c1.history_entries().drop_first() == kept_behind(rest, c0.settings().history_capacity)
            &&& c1.main_entries() == c0.main_entries()
            &&& c1.counters() == (CacheStats {
                evictions: plus_eviction(s0.evictions, evicts(rest, c0.settings().history_capacity)),
                ..s0
            })
        }
    }
}

/// The LRU-K branch cache.
pub struct BranchLRUCache<B> {
    main_cache: Vec<CachedBranch<B>>,
    history_cache: Vec<CachedBranch<B>>,
    config: BranchCacheConfig,
    stats: CacheStats,
}

impl<B> BranchLRUCache<B> {
    /// The main cache, most recently used first.
    pub closed spec fn main_entries(&self) -> Seq<CachedBranch<B>> {
        self.main_cache@
    }

    /// The history cache, most recently used first.
    pub closed spec fn history_entries(&self) -> Seq<CachedBranch<B>> {
        self.history_cache@
    }

    /// The settings.
    pub closed spec fn settings(&self) -> BranchCacheConfig {
        self.config
    }

    /// The counters.
    pub closed spec fn counters(&self) -> CacheStats {
        self.stats
    }

    /// No branch is held twice: the ids of each cache are distinct, and no
    /// id is in both.
    pub open spec fn wf(&self) -> bool {
        &&& ids(self.main_entries()).no_duplicates()
        &&& ids(self.history_entries()).no_duplicates()
        &&& forall|k: Seq<char>| ids(self.main_entries()).contains(k) ==> !ids(self.history_entries()).contains(k)
    }

    /// An empty cache with the settings `config`.
    pub fn new(config: BranchCacheConfig) -> (c: Self)
        ensures
            c.wf(),
            c.main_entries() == Seq::<CachedBranch<B>>::empty(),
            c.history_entries() == Seq::<CachedBranch<B>>::empty(),
            c.settings() == config,
            c.counters() == CacheStats::zero(),
    {
        let c = BranchLRUCache { main_cache: Vec::new(), history_cache: Vec::new(), config, stats: CacheStats::default() };
        proof {
            assert(ids(c.main_entries()) =~= Seq::<Seq<char>>::empty());
            assert(ids(c.history_entries()) =~= Seq::<Seq<char>>::empty());
        }
        c
    }

    fn insert_to_main(&mut self, c: CachedBranch<B>)
        ensures
            final(self).main_entries() == seq![c] + kept_behind(old(self).main_entries(), old(self).settings().main_capacity),
            final(self).history_entries() == old(self).history_entries(),
            final(self).settings() == old(self).settings(),
            final(self).counters() == (CacheStats {
                evictions: plus_eviction(
                    old(self).counters().evictions,
                    evicts(old(self).main_entries(), old(self).settings().main_capacity),
                ),
                ..old(self).counters()
            }),
    {
        if self.main_cache.len() >= self.config.main_capacity {
            match self.main_cache.pop() {
                Some(_) => {
                    self.stats.evictions = self.stats.evictions.wrapping_add(1);
                },
                None => {},
            }
        }
        self.main_cache.insert(0, c);
        proof {
            assert(self.main_cache@ =~= seq![c] + kept_behind(old(self).main_entries(), old(self).settings().main_capacity));
        }
    }

    fn insert_to_history(&mut self, c: CachedBranch<B>)
        ensures
            final(self).history_entries() == seq![c] + kept_behind(old(self).history_entries(), old(self).settings().history_capacity),
            final(self).main_entries() == old(self).main_entries(),
            final(self).settings() == old(self).settings(),
            final(self).counters() == (CacheStats {
                evictions: plus_eviction(
                    old(self).counters().evictions,
                    evicts(old(self).history_entries(), old(self).settings().history_capacity),
                ),
                ..old(self).counters()
            }),
    {
        if self.history_cache.len() >= self.config.history_capacity {
            match self.history_cache.pop() {
                Some(_) => {
                    self.stats.evictions = self.stats.evictions.wrapping_add(1);
                },
                None => {},
            }
        }
        self.history_cache.insert(0, c);
        proof {
            assert(self.history_cache@ =~= seq![c] + kept_behind(old(self).history_entries(), old(self).settings().history_capacity));
        }
    }

    /// Looks `branch_id` up and records the access. Found in the main
    /// cache, the entry moves to its front. Found in the history cache, it
    /// moves to the main cache once it has been accessed `k` times, else to
    /// the front of the history cache. The entry as it now stands is
    /// returned.
    pub fn get(&mut self, branch_id: &str) -> (r: Option<&CachedBranch<B>>)
        requires
            old(self).wf(),
        ensures
            final(self).wf(),
            final(self).settings() == old(self).settings(),
            ids(old(self).main_entries()).contains(branch_id@) ==> {
                let i = first_pos(ids(old(self).main_entries()), branch_id@);
                &&& accessed(old(self).main_entries()[i], final(self).main_entries()[0])
                &&& final(self).main_entries().drop_first() == old(self).main_entries().remove(i)
                &&& final(self).history_entries() == old(self).history_entries()
                &&& (r matches Some(c) && *c == final(self).main_entries()[0])
                &&& final(self).counters() == (CacheStats {
                    total_accesses: old(self).counters().total_accesses.wrapping_add(1),
                    cache_hits: old(self).counters().cache_hits.wrapping_add(1),
                    main_cache_hits: old(self).counters().main_cache_hits.wrapping_add(1),
                    ..old(self).counters()
                })
            },
            !ids(old(self).main_entries()).contains(branch_id@) && ids(old(self).history_entries()).contains(branch_id@) ==> {
                let i = first_pos(ids(old(self).history_entries()), branch_id@);
                let h = old(self).history_entries()[i];
                let promoted = bumped(h.access_count) >= old(self).settings().k;
                let s0 = old(self).counters();
                &&& promoted ==> {
                    &&& accessed(h, final(self).main_entries()[0])
                    &&& final(self).main_entries().drop_first() == kept_behind(old(self).main_entries(), old(self).settings().main_capacity)
                    &&& final(self).history_entries() == old(self).history_entries().remove(i)
                    &&& (r matches Some(c) && *c == final(self).main_entries()[0])
                    &&& final(self).counters() == (CacheStats {
                        total_accesses: s0.total_accesses.wrapping_add(1),
                        cache_hits: s0.cache_hits.wrapping_add(1),
                        history_cache_hits: s0.history_cache_hits.wrapping_add(1),
                        promotions: s0.promotions.wrapping_add(1),
                        evictions: plus_eviction(s0.evictions, evicts(old(self).main_entries(), old(self).settings().main_capacity)),
                        ..s0
                    })
                }
                &&& !promoted ==> {
                    &&& accessed(h, final(self).history_entries()[0])
                    &&& final(self).history_entries().drop_first() == old(self).history_entries().remove(i)
                    &&& final(self).main_entries() == old(self).main_entries()
                    &&& (r matches Some(c) && *c == final(self).history_entries()[0])
                    &&& final(self).counters() == (CacheStats {
                        total_accesses: s0.total_accesses.wrapping_add(1),
                        cache_hits: s0.cache_hits.wrapping_add(1),
                        history_cache_hits: s0.history_cache_hits.wrapping_add(1),
                        ..s0
                    })
                }
            },
            !ids(old(self).main_entries()).contains(branch_id@) && !ids(old(self).history_entries()).contains(branch_id@) ==> {
                &&& r is None
                &&& final(self).main_entries() == old(self).main_entries()
                &&& final(self).history_entries() == old(self).history_entries()
                &&& final(self).counters() == (CacheStats {
                    total_accesses: old(self).counters().total_accesses.wrapping_add(1),
                    cache_misses: old(self).counters().cache_misses.wrapping_add(1),
                    ..old(self).counters()
                })
            },
    {
        self.stats.total_accesses = self.stats.total_accesses.wrapping_add(1);
        match position(&self.main_cache, branch_id) {
            Some(i) => {
                let mut c = self.main_cache.remove(i);
                c.record_access();
                self.main_cache.insert(0, c);
                self.stats.cache_hits = self.stats.cache_hits.wrapping_add(1);
                self.stats.main_cache_hits = self.stats.main_cache_hits.wrapping_add(1);
                proof {
                    let m0 = old(self).main_entries();
                    assert(self.main_cache@.drop_first() =~= m0.remove(i as int));
                    assert(self.main_cache@ =~= seq![self.main_cache@[0]] + m0.remove(i as int));
                    lemma_ids_remove(m0, i as int);
                    lemma_remove_distinct(ids(m0), i as int);
                    lemma_ids_front(self.main_cache@[0], m0.remove(i as int));
                    lemma_front_distinct(branch_id@, ids(m0.remove(i as int)));
                }
                return Some(&self.main_cache[0]);
            },
            None => {},
        }
        match position(&self.history_cache, branch_id) {
            Some(i) => {
                let mut c = self.history_cache.remove(i);
                c.record_access();
                self.stats.cache_hits = self.stats.cache_hits.wrapping_add(1);
                self.stats.history_cache_hits = self.stats.history_cache_hits.wrapping_add(1);
                proof {
                    let h0 = old(self).history_entries();
                    lemma_ids_remove(h0, i as int);
                    lemma_remove_distinct(ids(h0), i as int);
                    assert(!ids(old(self).main_entries()).contains(branch_id@));
                }
                if c.access_count >= self.config.k {
                    proof {
                        lemma_push_distinct(c, old(self).main_entries(), old(self).settings().main_capacity);
                    }
                    self.insert_to_main(c);
                    self.stats.promotions = self.stats.promotions.wrapping_add(1);
                    proof {
                        let h0 = old(self).history_entries();
                        let m0 = old(self).main_entries();
                        assert forall|k: Seq<char>| ids(self.main_entries()).contains(k) implies !ids(self.history_entries()).contains(k) by {
                            if ids(self.history_entries()).contains(k) {
                                assert(ids(h0.remove(i as int)).contains(k));
                                assert(ids(h0).contains(k) && k != ids(h0)[i as int]);
                                assert(k == branch_id@ || ids(m0).contains(k));
                            }
                        }
                    }
                    proof {
                        assert(self.main_cache@.drop_first() =~= kept_behind(old(self).main_entries(), old(self).settings().main_capacity));
                    }
                    Some(&self.main_cache[0])
                } else {
                    let ghost c1 = c;
                    self.history_cache.insert(0, c);
                    proof {
                        let h0 = old(self).history_entries();
                        assert(self.history_cache@.drop_first() =~= h0.remove(i as int));
                        assert(self.history_cache@ =~= seq![c1] + h0.remove(i as int));
                        lemma_ids_front(c1, h0.remove(i as int));
                        lemma_front_distinct(branch_id@, ids(h0.remove(i as int)));
                        let m0 = old(self).main_entries();
                        assert forall|k: Seq<char>| ids(self.main_entries()).contains(k) implies !ids(self.history_entries()).contains(k) by {
                            if ids(self.history_entries()).contains(k) {
                                assert(k == branch_id@ || ids(h0.remove(i as int)).contains(k));
                                if k != branch_id@ {
                                    assert(ids(h0).contains(k));
                                }
                            }
                        }
                    }
                    Some(&self.history_cache[0])
                }
            },
            None => {
                self.stats.cache_misses = self.stats.cache_misses.wrapping_add(1);
                None
            },
        }
    }

    /// Inserts `branch` under `branch_id`. A branch in the main cache is
    /// updated in place, keeping its access record. Otherwise a new entry
    /// is made, carrying over the access record of the branch's entry in
    /// the history cache, if any, which it replaces; it goes to the front
    /// of the main cache where it has been accessed `k` times, else to the
    /// front of the history cache.
    pub fn insert(&mut self, branch_id: String, branch: B)
        requires
            old(self).wf(),
        ensures
            final(self).wf(),
            inserted(*old(self), *final(self), branch_id@, branch),
    {
        match position(&self.main_cache, branch_id.as_str()) {
            Some(i) => {
                let mut c = self.main_cache.remove(i);
                c.branch = branch;
                self.main_cache.insert(i, c);
                proof {
                    assert(self.main_cache@ =~= old(self).main_entries().update(
                        i as int,
                        CachedBranch { branch: branch, ..old(self).main_entries()[i as int] },
                    ));
                    assert(ids(self.main_cache@) =~= ids(old(self).main_entries()));
                }
                return;
            },
            None => {},
        }
        let ghost id = branch_id@;
        let found = position(&self.history_cache, branch_id.as_str());
        let mut cached = CachedBranch::new(branch_id, branch);
        match found {
            Some(i) => {
                proof {
                    let h0 = old(self).history_entries();
                    lemma_ids_remove(h0, i as int);
                    lemma_remove_distinct(ids(h0), i as int);
                }
                let existing = self.history_cache.remove(i);
                cached.access_count = existing.access_count;
                cached.access_history = existing.access_history;
            },
            None => {},
        }
        proof {
            assert(!ids(self.history_cache@).contains(id));
            assert(ids(self.history_cache@).no_duplicates());
            assert(forall|k: Seq<char>| ids(self.history_cache@).contains(k) ==> ids(old(self).history_entries()).contains(k));
        }
        if cached.access_count >= self.config.k {
            proof {
                lemma_push_distinct(cached, old(self).main_entries(), old(self).settings().main_capacity);
            }
            self.insert_to_main(cached);
            proof {
                let m0 = old(self).main_entries();
                assert forall|k: Seq<char>| ids(self.main_entries()).contains(k) implies !ids(self.history_entries()).contains(k) by {
                    if ids(self.history_entries()).contains(k) {
                        assert(ids(old(self).history_entries()).contains(k));
                        assert(k == id || ids(m0).contains(k));
                    }
                }
            }
            proof {
                assert(self.main_cache@.drop_first() =~= kept_behind(old(self).main_entries(), old(self).settings().main_capacity));
            }
        } else {
            let ghost rest = self.history_cache@;
            proof {
                lemma_push_distinct(cached, rest, old(self).settings().history_capacity);
            }
            self.insert_to_history(cached);
            proof {
                let m0 = old(self).main_entries();
                assert forall|k: Seq<char>| ids(self.main_entries()).contains(k) implies !ids(self.history_entries()).contains(k) by {
                    if ids(self.history_entries()).contains(k) {
                        assert(k == id || ids(rest).contains(k));
                        if k != id {
                            assert(ids(old(self).history_entries()).contains(k));
                        }
                    }
                }
            }
            proof {
                assert(self.history_cache@.drop_first() =~= kept_behind(rest, old(self).settings().history_capacity));
            }
        }
    }

    /// Inserts the branches `branches`, each an id and its data, in order.
    pub fn warmup(&mut self, branches: Vec<(String, B)>)
        requires
            old(self).wf(),
        ensures
            final(self).wf(),
            final(self).settings() == old(self).settings(),
            exists|cs: Seq<BranchLRUCache<B>>|
                {
                    &&& cs.len() == branches@.len() + 1
                    &&& cs[0] == *old(self)
                    &&& cs.last() == *final(self)
                    &&& forall|i: int|
                        0 <= i < branches@.len() ==> inserted(
                            #[trigger] cs[i],
                            cs[i + 1],
                            branches@[i].0@,
                            branches@[i].1,
                        )
                },
    {
        let ghost orig = branches@;
        let n = branches.len();
        let ghost mut cs: Seq<BranchLRUCache<B>> = seq![*self];
        let mut rest = branches;
        let mut k: usize = 0;
        while rest.len() > 0
            invariant
                self.wf(),
                self.settings() == old(self).settings(),
                k + rest@.len() == orig.len(),
                orig.len() == n,
                rest@ == orig.skip(k as int),
                cs.len() == k + 1,
                cs[0] == *old(self),
                cs.last() == *self,
                forall|i: int| 0 <= i < k ==> inserted(#[trigger] cs[i], cs[i + 1], orig[i].0@, orig[i].1),
            decreases rest@.len(),
        {
            let (id, b) = rest.remove(0);
            proof {
                assert(orig[k as int] == (id, b));
            }
            self.insert(id, b);
            proof {
                let prev = cs;
                cs = cs.push(*self);
                assert forall|i: int| 0 <= i < k + 1 implies inserted(#[trigger] cs[i], cs[i + 1], orig[i].0@, orig[i].1) by {
                    if i < k {
                        assert(cs[i] == prev[i] && cs[i + 1] == prev[i + 1]);
                    }
                }
                assert(rest@ =~= orig.skip(k + 1));
            }
            k += 1;
        }
        proof {
            assert(k == orig.len());
        }
    }

    /// Removes the entry of `branch_id` from the main cache, else from the
    /// history cache, and returns it.
    pub fn remove(&mut self, branch_id: &str) -> (r: Option<CachedBranch<B>>)
        requires
            old(self).wf(),
        ensures
            final(self).wf(),
            final(self).settings() == old(self).settings(),
            final(self).counters() == old(self).counters(),
            ids(old(self).main_entries()).contains(branch_id@) ==> {
                let i = first_pos(ids(old(self).main_entries()), branch_id@);
                &&& r == Some(old(self).main_entries()[i])
                &&& final(self).main_entries() == old(self).main_entries().remove(i)
                &&& final(self).history_entries() == old(self).history_entries()
            },
            !ids(old(self).main_entries()).contains(branch_id@) && ids(old(self).history_entries()).contains(branch_id@) ==> {
                let i = first_pos(ids(old(self).history_entries()), branch_id@);
                &&& r == Some(old(self).history_entries()[i])
                &&& final(self).history_entries() == old(self).history_entries().remove(i)
                &&& final(self).main_entries() == old(self).main_entries()
            },
            !ids(old(self).main_entries()).contains(branch_id@) && !ids(old(self).history_entries()).contains(branch_id@) ==> r is None
                && final(self).main_entries() == old(self).main_entries() && final(self).history_entries() == old(self).history_entries(),
    {
        match position(&self.main_cache, branch_id) {
            Some(i) => {
                proof {
                    lemma_ids_remove(old(self).main_entries(), i as int);
                    lemma_remove_distinct(ids(old(self).main_entries()), i as int);
                }
                return Some(self.main_cache.remove(i));
            },
            None => {},
        }
        match position(&self.history_cache, branch_id) {
            Some(i) => {
                proof {
                    lemma_ids_remove(old(self).history_entries(), i as int);
                    lemma_remove_distinct(ids(old(self).history_entries()), i as int);
                }
                Some(self.history_cache.remove(i))
            },
            None => None,
        }
    }

    /// The counters.
    pub fn stats(&self) -> (s: &CacheStats)
        ensures
            *s == self.counters(),
    {
        &self.stats
    }

    /// Number of entries in the main cache.
    pub fn main_cache_size(&self) -> (n: usize)
        ensures
            n == self.main_entries().len(),
    {
        self.main_cache.len()
    }

    /// Number of entries in the history cache.
    pub fn history_cache_size(&self) -> (n: usize)
        ensures
            n == self.history_entries().len(),
    {
        self.history_cache.len()
    }

    /// Whether the main cache holds `branch_id`.
    pub fn in_main(&self, branch_id: &str) -> (b: bool)
        ensures
            b == ids(self.main_entries()).contains(branch_id@),
    {
        position(&self.main_cache, branch_id).is_some()
    }

    /// Whether the history cache holds `branch_id`.
    pub fn in_history(&self, branch_id: &str) -> (b: bool)
        ensures
            b == ids(self.history_entries()).contains(branch_id@),
    {
        position(&self.history_cache, branch_id).is_some()
    }

    /// Empties both caches and zeroes the counters.
    pub fn clear(&mut self)
        ensures
            final(self).wf(),
            final(self).main_entries() == Seq::<CachedBranch<B>>::empty(),
            final(self).history_entries() == Seq::<CachedBranch<B>>::empty(),
            final(self).settings() == old(self).settings(),
            final(self).counters() == CacheStats::zero(),
    {
        self.main_cache.clear();
        self.history_cache.clear();
        self.stats = CacheStats::default();
        proof {
            assert(ids(self.main_entries()) =~= Seq::<Seq<char>>::empty());
            assert(ids(self.history_entries()) =~= Seq::<Seq<char>>::empty());
        }
    }
}

} // verus!
