use tokitai_context::optimization::cache::lru::{BranchCacheConfig, BranchLRUCache, CachedBranch};

fn config(main: usize, history: usize) -> BranchCacheConfig {
    BranchCacheConfig { main_capacity: main, history_capacity: history, k: 2, enable_stats: true }
}

fn branch(id: &str) -> (String, String) {
    (id.to_string(), format!("/branches/{}", id))
}

fn insert(cache: &mut BranchLRUCache<String>, id: &str) {
    let (i, b) = branch(id);
    cache.insert(i, b);
}

#[test]
fn test_cache_insert_and_get() {
    let mut cache = BranchLRUCache::new(config(10, 20));
    insert(&mut cache, "test-1");

    let cached = cache.get("test-1").unwrap();
    assert_eq!(cached.access_count, 1);
    assert!(cache.in_history("test-1"));

    let cached = cache.get("test-1").unwrap();
    assert_eq!(cached.access_count, 2);
    assert!(cache.in_main("test-1"));
    assert!(!cache.in_history("test-1"));
}

#[test]
fn test_cache_promotion() {
    let mut cache = BranchLRUCache::new(config(10, 20));
    insert(&mut cache, "test-1");
    cache.get("test-1");
    cache.get("test-1");
    assert!(cache.in_main("test-1"));
    assert!(!cache.in_history("test-1"));
    let stats = cache.stats();
    assert!(stats.promotions >= 1);
}

#[test]
fn test_cache_eviction() {
    let mut cache = BranchLRUCache::new(config(3, 5));
    for i in 0..5 {
        insert(&mut cache, &format!("test-{}", i));
        cache.get(&format!("test-{}", i));
        cache.get(&format!("test-{}", i));
    }
    assert!(cache.main_cache_size() <= 3);
    let stats = cache.stats();
    assert!(stats.evictions > 0);
}

#[test]
fn test_cache_hit_rate() {
    let mut cache = BranchLRUCache::new(config(10, 20));
    insert(&mut cache, "hot-branch");
    for _ in 0..10 {
        cache.get("hot-branch");
    }
    let stats = cache.stats();
    let hit_rate = stats.cache_hits as f64 / (stats.cache_hits + stats.cache_misses) as f64;
    assert!(hit_rate > 0.5);
}

#[test]
fn test_sequential_scan_resistance() {
    let mut cache = BranchLRUCache::new(config(5, 10));
    insert(&mut cache, "hot");
    cache.get("hot");
    cache.get("hot");
    for i in 0..10 {
        insert(&mut cache, &format!("cold-{}", i));
        cache.get(&format!("cold-{}", i));
    }
    assert!(cache.in_main("hot"));
    let cold_in_main = (0..10).filter(|i| cache.in_main(&format!("cold-{}", i))).count();
    assert!(cold_in_main < 3);
}

#[test]
fn misses_and_removal() {
    let mut cache: BranchLRUCache<String> = BranchLRUCache::new(config(2, 2));
    assert!(cache.get("nothing").is_none());
    assert_eq!(cache.stats().cache_misses, 1);
    assert_eq!(cache.stats().total_accesses, 1);
    insert(&mut cache, "a");
    let removed = cache.remove("a").unwrap();
    assert_eq!(removed.branch_id, "a");
    assert_eq!(removed.branch, "/branches/a");
    assert!(cache.remove("a").is_none());
    assert_eq!(cache.history_cache_size(), 0);
}

#[test]
fn history_cache_drops_its_oldest_entry() {
    let mut cache = BranchLRUCache::new(config(2, 2));
    insert(&mut cache, "a");
    insert(&mut cache, "b");
    insert(&mut cache, "c");
    assert_eq!(cache.history_cache_size(), 2);
    assert!(!cache.in_history("a"));
    assert!(cache.in_history("b") && cache.in_history("c"));
    assert_eq!(cache.stats().evictions, 1);
}

#[test]
fn reinserting_keeps_the_access_record() {
    let mut cache = BranchLRUCache::new(config(2, 2));
    insert(&mut cache, "a");
    cache.get("a");
    // Back in the history cache with one access carried over: a second
    // insert with k = 2 keeps it there, a second access promotes it.
    cache.insert("a".to_string(), "/new".to_string());
    assert!(cache.in_history("a"));
    let c = cache.get("a").unwrap();
    assert_eq!(c.access_count, 2);
    assert_eq!(c.branch, "/new");
    assert!(cache.in_main("a"));
    // In the main cache an insert updates the branch only.
    cache.insert("a".to_string(), "/newer".to_string());
    assert_eq!(cache.main_cache_size(), 1);
    assert_eq!(cache.history_cache_size(), 0);
    assert_eq!(cache.get("a").unwrap().branch, "/newer");
    cache.clear();
    assert_eq!(cache.main_cache_size(), 0);
    assert_eq!(cache.stats().total_accesses, 0);
}

#[test]
fn kth_access_time() {
    let mut c = CachedBranch::new("x".to_string(), ());
    c.record_access();
    assert_eq!(c.get_kth_access(), Some(c.access_history[0]));
    c.record_access();
    assert_eq!(c.access_count, 2);
    assert_eq!(c.get_kth_access(), Some(c.access_history[1]));
}

#[test]
fn warmup_inserts_every_branch() {
    let mut cache = BranchLRUCache::new(config(10, 2));
    cache.warmup(vec![branch("a"), branch("b"), branch("c")]);
    assert_eq!(cache.history_cache_size(), 2);
    assert!(cache.in_history("b") && cache.in_history("c"));
    assert_eq!(cache.main_cache_size(), 0);
}
