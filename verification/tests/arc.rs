use std::collections::{HashMap, VecDeque};
use tokitai_context::optimization::cache::arc::{ArcCache, ArcCacheConfig, BranchArcCache};

#[test]
fn test_arc_basic() {
    let mut cache = ArcCache::with_capacity(3);

    cache.insert("a", 1);
    cache.insert("b", 2);
    cache.insert("c", 3);

    assert_eq!(cache.get(&"a"), Some(1));
    assert_eq!(cache.get(&"b"), Some(2));
    assert_eq!(cache.get(&"c"), Some(3));

    assert_eq!(cache.get(&"d"), None);
}

#[test]
fn test_arc_eviction() {
    let mut cache = ArcCache::with_capacity(2);

    cache.insert("a", 1);
    cache.insert("b", 2);

    cache.insert("c", 3);

    assert_eq!(cache.get(&"a"), None);
    assert_eq!(cache.get(&"b"), Some(2));
    assert_eq!(cache.get(&"c"), Some(3));
}

#[test]
fn test_arc_frequency_promotion() {
    let mut cache = ArcCache::new(ArcCacheConfig { capacity: 3, frequency_threshold: 2, ..Default::default() });

    cache.insert("a", 1);
    cache.insert("b", 2);

    cache.get(&"a");
    cache.get(&"a");

    cache.insert("c", 3);
    cache.insert("d", 4);

    assert_eq!(cache.get(&"a"), Some(1));
}

#[test]
fn test_arc_adaptive() {
    let mut cache = ArcCache::with_capacity(4);

    for i in 0..10 {
        cache.insert(i, i * 10);
    }

    assert_eq!(cache.get(&9), Some(90));
    assert_eq!(cache.get(&8), Some(80));
    assert_eq!(cache.get(&7), Some(70));
    assert_eq!(cache.get(&6), Some(60));
    assert_eq!(cache.get(&5), None);

    println!("P value after sequential access: {}", cache.p_value());
    println!("Stats: {:?}", cache.stats());
}

#[test]
fn test_arc_hit_rate() {
    let mut cache = ArcCache::with_capacity(100);

    for _ in 0..1000 {
        let key = if rand::random::<f64>() < 0.8 {
            rand::random::<usize>() % 20
        } else {
            rand::random::<usize>() % 100
        };

        cache.insert(key, key * 10);
        cache.get(&key);
    }

    let stats = cache.stats();
    let hit_rate = stats.hits as f64 / (stats.hits + stats.misses) as f64;
    println!("Hit rate: {:.2}%", hit_rate * 100.0);
    println!("P value: {}", cache.p_value());

    assert!(hit_rate > 0.5);
}

#[test]
fn test_arc_vs_lru() {
    let mut arc_cache = ArcCache::with_capacity(10);
    let mut lru_cache = VecDeque::new();
    let mut lru_map: HashMap<usize, usize> = HashMap::new();
    let capacity = 10;

    let keys: Vec<usize> = (0..15).collect();

    let mut arc_hits = 0;
    let mut lru_hits = 0;
    let mut total = 0;

    for _ in 0..100 {
        for &key in &keys {
            if arc_cache.get(&key).is_some() {
                arc_hits += 1;
            } else {
                arc_cache.insert(key, key);
            }

            if lru_map.contains_key(&key) {
                lru_hits += 1;
                if let Some(pos) = lru_cache.iter().position(|&k| k == key) {
                    lru_cache.remove(pos);
                    lru_cache.push_front(key);
                }
            } else {
                if lru_cache.len() >= capacity {
                    if let Some(oldest) = lru_cache.pop_back() {
                        lru_map.remove(&oldest);
                    }
                }
                lru_cache.push_front(key);
                lru_map.insert(key, key);
            }

            total += 1;
        }
    }

    let arc_rate = arc_hits as f64 / total as f64;
    let lru_rate = lru_hits as f64 / total as f64;

    assert!(arc_rate >= lru_rate);
}

#[test]
fn insert_then_lookup_and_remove() {
    let mut cache = ArcCache::with_capacity(8);
    cache.insert(1u32, "one");
    assert_eq!(cache.get(&1), Some("one"));
    cache.insert(1u32, "uno");
    assert_eq!(cache.get(&1), Some("uno"));
    assert_eq!(cache.remove(&1), Some("uno"));
    assert_eq!(cache.get(&1), None);
    assert!(cache.len() <= cache.capacity());
    cache.clear();
    assert!(cache.is_empty());
}

#[test]
fn branch_cache_wraps_the_cache() {
    let mut cache: BranchArcCache<u64, u32> = BranchArcCache::new(2);
    cache.insert(1, 10);
    cache.insert(2, 20);
    assert_eq!(cache.get(&1), Some(10));
    assert_eq!(cache.remove(&2), Some(20));
    assert_eq!(cache.get(&2), None);
    assert!(cache.stats().hits >= 1);
}
