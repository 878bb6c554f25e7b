//! The bloom filter cache: filters loaded on demand, kept by segment, and
//! evicted least recently used first when the memory they are reckoned to
//! take would pass the limit; with what becomes of a filter read from disk
//! after its format was checked.
use std::collections::HashMap;
use std::path::PathBuf;
use std::sync::Arc;
use vstd::prelude::*;
use crate::error::ContextResult;
use crate::file_kv::bloom_migration::MigrationResult;

verus! {

/// Bloom filter cache configuration.
#[derive(Debug, Clone)]
pub struct BloomFilterCacheConfig {
    /// Maximum number of bloom filters to cache
    pub max_filters: usize,
    /// Maximum memory usage for bloom filter cache (bytes)
    pub max_memory_bytes: usize,
    /// Enable on-demand loading (if false, all filters are loaded at startup)
    pub on_demand_enabled: bool,
}

impl Default for BloomFilterCacheConfig {
    fn default() -> (c: Self)
        ensures
            c.max_filters == 100,
            c.max_memory_bytes == 64 * 1024 * 1024,
            c.on_demand_enabled,
    {
        BloomFilterCacheConfig { max_filters: 100, max_memory_bytes: 64 * 1024 * 1024, on_demand_enabled: true }
    }
}

/// The filter that loading a segment's bloom filter file gives: none where
/// there was no file, or where its version is too old to use; the filter
/// otherwise, also where the file is newer than this code.
pub fn load_bloom_filter_from_disk<F>(loaded: Option<(F, Vec<String>, MigrationResult)>) -> (r: Option<F>)
    ensures
        match loaded {
            Some((f, _, MigrationResult::UnsupportedVersion { .. })) => r is None,
            Some((f, _, _)) => r == Some(f),
            None => r is None,
        },
{
    match loaded {
        Some((filter, _keys, result)) => match result {
            MigrationResult::UnsupportedVersion { .. } => None,
            _ => Some(filter),
        },
        None => None,
    }
}

/// Memory a cached filter is reckoned to take, in bytes.
pub const FILTER_MEMORY: usize = 10240;

/// `Arc::clone`: another pointer to the same filter.
#[verifier::external_body]
fn share<F>(a: &Arc<F>) -> (r: Arc<F>)
    ensures
        r == *a,
{
    Arc::clone(a)
}

/// What a cache holds: the filters by segment, the segments in order of
/// use (least recent first), the memory reckoned, and the evictions counted.
pub struct CacheState<F> {
    pub filters: Map<u64, F>,
    pub order: Seq<u64>,
    pub memory: usize,
    pub evictions: u64,
}

/// The first position of `x` in `s`.
pub open spec fn first_index(s: Seq<u64>, x: u64) -> int {
    choose|i: int| 0 <= i < s.len() && s[i] == x && forall|j: int| 0 <= j < i ==> s[j] != x
}

/// The order of use after `id` is used: moved to the most recent end where
/// it is in the order, else left out.
pub open spec fn promoted(order: Seq<u64>, id: u64) -> Seq<u64> {
    if order.contains(id) {
        order.remove(first_index(order, id)).push(id)
    } else {
        order
    }
}

proof fn lemma_first_index(s: Seq<u64>, x: u64)
    requires
        s.contains(x),
    ensures
        0 <= first_index(s, x) < s.len(),
        s[first_index(s, x)] == x,
        forall|j: int| 0 <= j < first_index(s, x) ==> s[j] != x,
    decreases s.len(),
{
    if s.drop_last().contains(x) {
        lemma_first_index(s.drop_last(), x);
        let i = first_index(s.drop_last(), x);
        assert(s[i] == s.drop_last()[i]);
        assert forall|j: int| 0 <= j < i implies s[j] != x by {
            assert(s[j] == s.drop_last()[j]);
        }
        assert(0 <= i < s.len() && s[i] == x && forall|j: int| 0 <= j < i ==> s[j] != x);
    } else {
        let i = s.len() - 1;
        assert forall|j: int| 0 <= j < i implies s[j] != x by {
            if s[j] == x {
                assert(s.drop_last()[j] == x);
            }
        }
        assert(0 <= i < s.len() && s[i] == x && forall|j: int| 0 <= j < i ==> s[j] != x);
    }
}

/// A used segment becomes the most recently used: it ends the order of
/// use, which keeps the same segments, the others in their order.
pub proof fn law_used_segment_is_most_recent(order: Seq<u64>, id: u64)
    requires
        order.contains(id),
    ensures
        promoted(order, id).len() == order.len(),
        promoted(order, id).last() == id,
        forall|x: u64| #[trigger] promoted(order, id).contains(x) <==> order.contains(x),
{
    lemma_first_index(order, id);
    let i = first_index(order, id);
    let p = promoted(order, id);
    assert(p == order.remove(i).push(id));
    assert forall|x: u64| #[trigger] p.contains(x) <==> order.contains(x) by {
        if p.contains(x) {
            let j = choose|j: int| 0 <= j < p.len() && p[j] == x;
            if j == p.len() - 1 {
                assert(order[i] == x);
            } else if j < i {
                assert(order[j] == x);
            } else {
                assert(order[j + 1] == x);
            }
        }
        if order.contains(x) {
            let j = choose|j: int| 0 <= j < order.len() && order[j] == x;
            if j == i {
                assert(p[p.len() - 1] == x);
            } else if j < i {
                assert(p[j] == x);
            } else {
                assert(p[j - 1] == x);
            }
        }
    }
}

/// After a segment is used, in an order of use that lists it once beside
/// another segment, the least recently used segment, the one the next
/// eviction takes, is another one.
pub proof fn law_used_segment_is_not_next_evicted(order: Seq<u64>, id: u64)
    requires
        order.contains(id),
        order.no_duplicates(),
        order.len() >= 2,
    ensures
        promoted(order, id)[0] != id,
{
    lemma_first_index(order, id);
    let i = first_index(order, id);
    let p = promoted(order, id);
    assert(p == order.remove(i).push(id));
    if i == 0 {
        assert(p[0] == order[1]);
    } else {
        assert(p[0] == order[0]);
    }
}

/// The order of use after `id` is pushed into an order of capacity `cap`:
/// moved to the most recent end where it is in the order; else added
/// there, the least recent dropped first where the order is full.
pub open spec fn pushed(order: Seq<u64>, id: u64, cap: nat) -> Seq<u64> {
    if order.contains(id) {
        order.remove(first_index(order, id)).push(id)
    } else if order.len() == cap {
        order.drop_first().push(id)
    } else {
        order.push(id)
    }
}

/// `s` after evicting least recently used segments until the memory is at
/// most `target` or the order is empty: each segment leaves the order, and
/// where it has a filter, the filter leaves too, its memory is given back
/// and an eviction is counted.
pub open spec fn evicted<F>(s: CacheState<F>, target: usize) -> CacheState<F>
    decreases s.order.len(),
{
    if s.memory <= target || s.order.len() == 0 {
        s
    } else {
        let id = s.order[0];
        if s.filters.contains_key(id) {
            evicted(
                CacheState {
                    filters: s.filters.remove(id),
                    order: s.order.drop_first(),
                    memory: s.memory.wrapping_sub(FILTER_MEMORY),
                    evictions: s.evictions.wrapping_add(1),
                },
                target,
            )
        } else {
            evicted(CacheState { order: s.order.drop_first(), ..s }, target)
        }
    }
}

/// `s` after filter `f` of segment `id` is cached, in a cache of `cap`
/// filters in its order of use and `limit` bytes: where the memory would
/// pass the limit, segments are first evicted down to the limit less a
/// filter's memory; then the filter replaces any of the segment, its memory
/// is counted, and the segment is pushed into the order of use.
pub open spec fn inserted<F>(s: CacheState<F>, id: u64, f: F, cap: nat, limit: usize) -> CacheState<F> {
    let e = if s.memory + FILTER_MEMORY > limit {
        evicted(s, if limit >= FILTER_MEMORY { (limit - FILTER_MEMORY) as usize } else { 0usize })
    } else {
        s
    };
    let m = if e.filters.contains_key(id) { e.memory.wrapping_sub(FILTER_MEMORY) } else { e.memory };
    CacheState {
        filters: e.filters.insert(id, f),
        order: pushed(e.order, id, cap),
        memory: m.wrapping_add(FILTER_MEMORY),
        evictions: e.evictions,
    }
}

/// The counts of a bloom filter cache.
#[derive(Debug, Clone, Copy)]
pub struct BloomFilterCacheCounts {
    /// Lookups that found the filter cached
    pub hits: u64,
    /// Lookups that had to load the filter
    pub misses: u64,
    /// Filters cached
    pub filters_cached: usize,
    /// Memory reckoned for the cached filters, in bytes
    pub memory_used: usize,
    /// Filters evicted
    pub evictions: u64,
    /// Loads attempted
    pub loads: u64,
}

/// Bloom filters of segments, loaded on demand and evicted least recently
/// used first.
pub struct BloomFilterCache<F> {
    cache: HashMap<u64, Arc<F>>,
    lru: Vec<u64>,
    config: BloomFilterCacheConfig,
    index_dir: PathBuf,
    hits: u64,
    misses: u64,
    evictions: u64,
    loads: u64,
    memory_used: usize,
}

impl<F> BloomFilterCache<F> {
    /// The order of use never holds more segments than the cache may keep.
    pub closed spec fn wf(&self) -> bool {
        &&& self.config.max_filters > 0
        &&& self.lru@.len() <= self.config.max_filters
    }

    /// The cached filters by segment.
    pub closed spec fn filters(&self) -> Map<u64, F> {
        Map::new(|k: u64| self.cache@.contains_key(k), |k: u64| *self.cache@[k])
    }

    /// The state the operations change.
    pub closed spec fn state(&self) -> CacheState<F> {
        CacheState { filters: self.filters(), order: self.lru@, memory: self.memory_used, evictions: self.evictions }
    }

    /// Lookups that found their filter cached.
    pub closed spec fn hits_spec(&self) -> u64 {
        self.hits
    }

    /// Lookups that had to load their filter.
    pub closed spec fn misses_spec(&self) -> u64 {
        self.misses
    }

    /// Loads attempted.
    pub closed spec fn loads_spec(&self) -> u64 {
        self.loads
    }

    /// The configuration.
    pub closed spec fn config_spec(&self) -> BloomFilterCacheConfig {
        self.config
    }

    /// The directory of the filter files.
    pub closed spec fn index_dir_spec(&self) -> PathBuf {
        self.index_dir
    }

    /// Whether only the state, the hit count and nothing else changed.
    pub open spec fn same_settings(&self, other: &Self) -> bool {
        &&& self.config_spec() == other.config_spec()
        &&& self.index_dir_spec() == other.index_dir_spec()
    }

    proof fn lemma_filters(&self)
        ensures
            self.filters().dom() == self.cache@.dom(),
            forall|k: u64| #[trigger] self.cache@.contains_key(k) ==> self.filters()[k] == *self.cache@[k],
    {
        assert(self.filters().dom() =~= self.cache@.dom());
    }

    /// An empty cache under `config` for the filters in `index_dir`.
    pub fn new(config: BloomFilterCacheConfig, index_dir: PathBuf) -> (c: Self)
        requires
            config.max_filters > 0,
        ensures
            c.state().filters == Map::<u64, F>::empty(),
            c.state().order.len() == 0,
            c.state().memory == 0,
            c.state().evictions == 0,
            c.hits_spec() == 0,
            c.misses_spec() == 0,
            c.loads_spec() == 0,
            c.config_spec() == config,
            c.index_dir_spec() == index_dir,
            c.wf(),
    {
        let c = BloomFilterCache {
            cache: HashMap::new(),
            lru: Vec::new(),
            config,
            index_dir,
            hits: 0,
            misses: 0,
            evictions: 0,
            loads: 0,
            memory_used: 0,
        };
        proof {
            c.lemma_filters();
            assert(c.filters() =~= Map::<u64, F>::empty());
        }
        c
    }

    /// The position of `id` in the order of use, if it is there.
    fn position(&self, id: u64) -> (r: Option<usize>)
        ensures
            r is None <==> !self.lru@.contains(id),
            r matches Some(i) ==> i == first_index(self.lru@, id) && i < self.lru@.len(),
    {
        let mut i: usize = 0;
        while i < self.lru.len()
            invariant
                i <= self.lru@.len(),
                forall|j: int| 0 <= j < i ==> self.lru@[j] != id,
            decreases self.lru@.len() - i,
        {
            if self.lru[i] == id {
                proof {
                    let k = first_index(self.lru@, id);
                    assert(0 <= i < self.lru@.len() && self.lru@[i as int] == id && forall|j: int| 0 <= j < i ==> self.lru@[j] != id);
                    assert(0 <= k < self.lru@.len() && self.lru@[k] == id && forall|j: int| 0 <= j < k ==> self.lru@[j] != id);
                    if k < i {
                        assert(self.lru@[k] != id);
                    }
                    if i < k {
                        assert(self.lru@[i as int] != id);
                    }
                }
                return Some(i);
            }
            i += 1;
        }
        None
    }

    /// Moves `id` to the most recent end of the order of use, where it is
    /// there.
    fn promote(&mut self, id: u64)
        requires
            old(self).wf(),
        ensures
            final(self).wf(),
            final(self).lru@ == promoted(old(self).lru@, id),
            final(self).cache@ == old(self).cache@,
            final(self).memory_used == old(self).memory_used,
            final(self).evictions == old(self).evictions,
            final(self).hits == old(self).hits,
            final(self).misses == old(self).misses,
            final(self).loads == old(self).loads,
            final(self).config == old(self).config,
            final(self).index_dir == old(self).index_dir,
    {
        match self.position(id) {
            Some(i) => {
                self.lru.remove(i);
                self.lru.push(id);
            },
            None => {},
        }
    }

    /// Pushes `id` into the order of use.
    fn push_used(&mut self, id: u64)
        requires
            old(self).wf(),
        ensures
            final(self).wf(),
            final(self).lru@ == pushed(old(self).lru@, id, old(self).config.max_filters as nat),
            final(self).cache@ == old(self).cache@,
            final(self).memory_used == old(self).memory_used,
            final(self).evictions == old(self).evictions,
            final(self).hits == old(self).hits,
            final(self).misses == old(self).misses,
            final(self).loads == old(self).loads,
            final(self).config == old(self).config,
            final(self).index_dir == old(self).index_dir,
    {
        match self.position(id) {
            Some(i) => {
                self.lru.remove(i);
                self.lru.push(id);
            },
            None => {
                if self.lru.len() == self.config.max_filters {
                    self.lru.remove(0);
                }
                self.lru.push(id);
            },
        }
    }

    /// Evicts least recently used segments until the memory reckoned is at
    /// most the limit less `needed`, or the order of use is empty.
    fn evict_to_fit(&mut self, needed: usize)
        requires
            old(self).wf(),
        ensures
            final(self).wf(),
            final(self).state() == evicted(old(self).state(), old(self).config.max_memory_bytes.saturating_sub(needed)),
            final(self).hits == old(self).hits,
            final(self).misses == old(self).misses,
            final(self).loads == old(self).loads,
            final(self).config == old(self).config,
            final(self).index_dir == old(self).index_dir,
    {
        let target = self.config.max_memory_bytes.saturating_sub(needed);
        let ghost goal = evicted(self.state(), target);
        while self.memory_used > target
            invariant
                evicted(self.state(), target) == goal,
                self.hits == old(self).hits,
                self.misses == old(self).misses,
                self.loads == old(self).loads,
                self.config == old(self).config,
                self.index_dir == old(self).index_dir,
                self.lru@.len() <= self.config.max_filters,
                self.config.max_filters > 0,
            ensures
                evicted(self.state(), target) == goal,
                self.memory_used <= target || self.lru@.len() == 0,
                self.hits == old(self).hits,
                self.misses == old(self).misses,
                self.loads == old(self).loads,
                self.config == old(self).config,
                self.index_dir == old(self).index_dir,
                self.lru@.len() <= self.config.max_filters,
                self.config.max_filters > 0,
            decreases self.lru@.len(),
        {
            if self.lru.len() == 0 {
                break;
            }
            let ghost before = self.state();
            let id = self.lru.remove(0);
            proof {
                self.lemma_filters();
            }
            match self.cache.remove(&id) {
                Some(_) => {
                    self.memory_used = self.memory_used.wrapping_sub(FILTER_MEMORY);
                    self.evictions = self.evictions.wrapping_add(1);
                    proof {
                        self.lemma_filters();
                        assert(self.filters() =~= before.filters.remove(id));
                        assert(self.state() == CacheState {
                            filters: before.filters.remove(id),
                            order: before.order.drop_first(),
                            memory: before.memory.wrapping_sub(FILTER_MEMORY),
                            evictions: before.evictions.wrapping_add(1),
                        });
                    }
                },
                None => {
                    proof {
                        self.lemma_filters();
                        assert(self.filters() =~= before.filters);
                        assert(self.state() == CacheState { order: before.order.drop_first(), ..before });
                    }
                },
            }
        }
        proof {
            if self.memory_used <= target || self.lru@.len() == 0 {
                assert(evicted(self.state(), target) == self.state());
            }
        }
    }

    /// Caches filter `filter` of segment `segment_id`, evicting least
    /// recently used filters first where its memory would pass the limit.
    pub fn insert(&mut self, segment_id: u64, filter: F)
        requires
            old(self).wf(),
            old(self).state().memory + FILTER_MEMORY <= usize::MAX,
        ensures
            final(self).wf(),
            final(self).state() == inserted(old(self).state(), segment_id, filter,
                old(self).config_spec().max_filters as nat, old(self).config_spec().max_memory_bytes),
            final(self).hits_spec() == old(self).hits_spec(),
            final(self).misses_spec() == old(self).misses_spec(),
            final(self).loads_spec() == old(self).loads_spec(),
            final(self).same_settings(old(self)),
    {
        let ghost s0 = self.state();
        if self.memory_used + FILTER_MEMORY > self.config.max_memory_bytes {
            self.evict_to_fit(FILTER_MEMORY);
        }
        let ghost s1 = self.state();
        assert(s1 == if s0.memory + FILTER_MEMORY > self.config.max_memory_bytes {
            evicted(s0, if self.config.max_memory_bytes >= FILTER_MEMORY { (self.config.max_memory_bytes - FILTER_MEMORY) as usize } else { 0usize })
        } else {
            s0
        });
        proof {
            self.lemma_filters();
        }
        let ghost had = s1.filters.contains_key(segment_id);
        match self.cache.insert(segment_id, Arc::new(filter)) {
            Some(_) => {
                self.memory_used = self.memory_used.wrapping_sub(FILTER_MEMORY);
            },
            None => {},
        }
        self.memory_used = self.memory_used.wrapping_add(FILTER_MEMORY);
        self.push_used(segment_id);
        proof {
            self.lemma_filters();
            assert(self.filters() =~= s1.filters.insert(segment_id, filter));
        }
    }

    /// The filter of `segment_id`: the cached one, counted as a hit and
    /// promoted in the order of use; else, counted as a miss and a load,
    /// what `loader` gives, cached where it gives a filter.
    pub fn get<L>(&mut self, segment_id: u64, loader: &L) -> (r: ContextResult<Option<Arc<F>>>)
        where
            L: Fn(u64) -> ContextResult<Option<F>>,
        requires
            old(self).wf(),
            loader.requires((segment_id,)),
            !old(self).state().filters.contains_key(segment_id) ==> old(self).state().memory + FILTER_MEMORY <= usize::MAX,
        ensures
            final(self).wf(),
            final(self).same_settings(old(self)),
            old(self).state().filters.contains_key(segment_id) ==> {
                &&& r == Ok::<Option<Arc<F>>, crate::error::ContextError>(Some(Arc::new(old(self).state().filters[segment_id])))
                &&& final(self).hits_spec() == old(self).hits_spec().wrapping_add(1)
                &&& final(self).misses_spec() == old(self).misses_spec()
                &&& final(self).loads_spec() == old(self).loads_spec()
                &&& final(self).state() == CacheState { order: promoted(old(self).state().order, segment_id), ..old(self).state() }
            },
            !old(self).state().filters.contains_key(segment_id) ==> {
                &&& final(self).hits_spec() == old(self).hits_spec()
                &&& final(self).misses_spec() == old(self).misses_spec().wrapping_add(1)
                &&& final(self).loads_spec() == old(self).loads_spec().wrapping_add(1)
                &&& exists|out: ContextResult<Option<F>>| #[trigger] loader.ensures((segment_id,), out) && match out {
                    Err(e) => r == Err::<Option<Arc<F>>, crate::error::ContextError>(e) && final(self).state() == old(self).state(),
                    Ok(None) => r == Ok::<Option<Arc<F>>, crate::error::ContextError>(None) && final(self).state() == old(self).state(),
                    Ok(Some(f)) => r == Ok::<Option<Arc<F>>, crate::error::ContextError>(Some(Arc::new(f)))
                        && final(self).state() == inserted(old(self).state(), segment_id, f,
                            old(self).config_spec().max_filters as nat, old(self).config_spec().max_memory_bytes),
                }
            },
    {
        proof {
            self.lemma_filters();
        }
        match self.cache.get(&segment_id) {
            Some(cached) => {
                let found = share(cached);
                self.hits = self.hits.wrapping_add(1);
                self.promote(segment_id);
                proof {
                    self.lemma_filters();
                    assert(self.filters() =~= old(self).filters());
                }
                return Ok(Some(found));
            },
            None => {},
        }
        self.misses = self.misses.wrapping_add(1);
        self.loads = self.loads.wrapping_add(1);
        let out = loader(segment_id);
        proof {
            self.lemma_filters();
            assert(self.state() == old(self).state()) by {
                assert(self.filters() =~= old(self).filters());
            }
        }
        match out {
            Err(e) => Err(e),
            Ok(None) => Ok(None),
            Ok(Some(filter)) => {
                let ghost f = filter;
                self.insert(segment_id, filter);
                proof {
                    self.lemma_filters();
                }
                match self.cache.get(&segment_id) {
                    Some(cached) => Ok(Some(share(cached))),
                    None => {
                        assert(false);
                        Ok(None)
                    },
                }
            },
        }
    }

    /// Drops the filter of `segment_id`, giving it back where it was
    /// cached; the segment also leaves the order of use.
    pub fn remove(&mut self, segment_id: u64) -> (r: Option<Arc<F>>)
        requires
            old(self).wf(),
        ensures
            final(self).wf(),
            final(self).same_settings(old(self)),
            final(self).hits_spec() == old(self).hits_spec(),
            final(self).misses_spec() == old(self).misses_spec(),
            final(self).loads_spec() == old(self).loads_spec(),
            !old(self).state().filters.contains_key(segment_id) ==> r is None && final(self).state() == old(self).state(),
            old(self).state().filters.contains_key(segment_id) ==> {
                &&& r == Some(Arc::new(old(self).state().filters[segment_id]))
                &&& final(self).state() == CacheState {
                    filters: old(self).state().filters.remove(segment_id),
                    order: if old(self).state().order.contains(segment_id) {
                        old(self).state().order.remove(first_index(old(self).state().order, segment_id))
                    } else {
                        old(self).state().order
                    },
                    memory: old(self).state().memory.wrapping_sub(FILTER_MEMORY),
                    evictions: old(self).state().evictions,
                }
            },
    {
        proof {
            self.lemma_filters();
        }
        match self.cache.remove(&segment_id) {
            Some(f) => {
                self.memory_used = self.memory_used.wrapping_sub(FILTER_MEMORY);
                match self.position(segment_id) {
                    Some(i) => {
                        self.lru.remove(i);
                    },
                    None => {},
                }
                proof {
                    self.lemma_filters();
                    assert(self.filters() =~= old(self).filters().remove(segment_id));
                }
                Some(f)
            },
            None => {
                proof {
                    assert(self.filters() =~= old(self).filters());
                }
                None
            },
        }
    }

    /// Drops every filter.
    pub fn clear(&mut self)
        requires
            old(self).wf(),
        ensures
            final(self).wf(),
            final(self).state() == (CacheState {
                filters: Map::<u64, F>::empty(),
                order: Seq::<u64>::empty(),
                memory: 0,
                evictions: old(self).state().evictions,
            }),
            final(self).same_settings(old(self)),
            final(self).hits_spec() == old(self).hits_spec(),
            final(self).misses_spec() == old(self).misses_spec(),
            final(self).loads_spec() == old(self).loads_spec(),
    {
        self.cache.clear();
        self.lru.clear();
        self.memory_used = 0;
        proof {
            self.lemma_filters();
            assert(self.filters() =~= Map::<u64, F>::empty());
        }
    }

    /// The counts of the cache.
    pub fn stats(&self) -> (c: BloomFilterCacheCounts)
        ensures
            c.hits == self.hits_spec(),
            c.misses == self.misses_spec(),
            c.filters_cached == self.state().filters.dom().len(),
            c.memory_used == self.state().memory,
            c.evictions == self.state().evictions,
            c.loads == self.loads_spec(),
    {
        proof {
            self.lemma_filters();
        }
        BloomFilterCacheCounts {
            hits: self.hits,
            misses: self.misses,
            filters_cached: self.cache.len(),
            memory_used: self.memory_used,
            evictions: self.evictions,
            loads: self.loads,
        }
    }

    /// The number of cached filters.
    pub fn len(&self) -> (n: usize)
        ensures
            n == self.state().filters.dom().len(),
    {
        proof {
            self.lemma_filters();
        }
        self.cache.len()
    }

    /// Whether no filter is cached.
    pub fn is_empty(&self) -> (b: bool)
        ensures
            b == (self.state().filters.dom().len() == 0),
    {
        proof {
            self.lemma_filters();
        }
        self.cache.len() == 0
    }
}

/// A cache in good order never keeps more segments in its order of use
/// than it may hold filters.
pub proof fn lemma_order_fits<F>(c: &BloomFilterCache<F>)
    requires
        c.wf(),
    ensures
        c.state().order.len() <= c.config_spec().max_filters,
{
}

/// A filter just cached is the one found for its segment, whatever was
/// evicted to make room.
pub proof fn lemma_inserted_is_found<F>(s: CacheState<F>, id: u64, f: F, cap: nat, limit: usize)
    ensures
        inserted(s, id, f, cap, limit).filters.contains_key(id),
        inserted(s, id, f, cap, limit).filters[id] == f,
{
}

} // verus!
