use std::path::PathBuf;
use tokitai_context::error::{ContextError, IoErrorKind};
use tokitai_context::file_kv::bloom_filter_cache::{load_bloom_filter_from_disk, BloomFilterCacheConfig};
use tokitai_context::file_kv::bloom_migration::{
    check_bloom_header, decode_bloom_keys, encode_bloom_file, version_action, BloomFilterMigrator, MigrationResult,
    VersionAction, BLOOM_MAGIC, CURRENT_BLOOM_VERSION,
};

#[test]
fn test_bloom_filter_cache_config_default() {
    let config = BloomFilterCacheConfig::default();
    assert_eq!(config.max_filters, 100);
    assert_eq!(config.max_memory_bytes, 64 * 1024 * 1024);
    assert!(config.on_demand_enabled);
}

#[test]
fn loaded_filter_is_kept_unless_its_version_is_unsupported() {
    let keys = vec!["k".to_string()];
    assert_eq!(load_bloom_filter_from_disk(Some((7u8, keys.clone(), MigrationResult::NoMigrationNeeded))), Some(7));
    assert_eq!(
        load_bloom_filter_from_disk(Some((7u8, keys.clone(), MigrationResult::Migrated { from_version: 0, to_version: 1 }))),
        Some(7)
    );
    assert_eq!(load_bloom_filter_from_disk(Some((7u8, keys.clone(), MigrationResult::FutureVersion { version: 9 }))), Some(7));
    assert_eq!(load_bloom_filter_from_disk(Some((7u8, keys, MigrationResult::UnsupportedVersion { version: 0 }))), None);
    assert_eq!(load_bloom_filter_from_disk::<u8>(None), None);
}

#[test]
fn keys_round_trip_through_the_file_format() {
    let keys = vec!["key1".to_string(), "key2".to_string(), "数据".to_string()];
    let data = encode_bloom_file(&keys);
    assert_eq!(&data[0..4], &BLOOM_MAGIC.to_le_bytes());
    assert_eq!(&data[4..8], &CURRENT_BLOOM_VERSION.to_le_bytes());
    assert_eq!(&data[8..16], &3u64.to_le_bytes());
    assert_eq!(check_bloom_header(&data).unwrap(), CURRENT_BLOOM_VERSION);
    assert_eq!(decode_bloom_keys(&data).unwrap(), keys);
}

#[test]
fn empty_and_large_key_sets_round_trip() {
    let none: Vec<String> = Vec::new();
    assert_eq!(decode_bloom_keys(&encode_bloom_file(&none)).unwrap(), none);
    let many: Vec<String> = (0..1000).map(|i| format!("key_{}", i)).collect();
    let back = decode_bloom_keys(&encode_bloom_file(&many)).unwrap();
    assert_eq!(back.len(), 1000);
    assert_eq!(back[500], "key_500");
}

#[test]
fn bad_magic_and_short_files_are_refused() {
    let mut data = Vec::new();
    data.extend_from_slice(&0xDEADBEEFu32.to_le_bytes());
    data.extend_from_slice(&1u32.to_le_bytes());
    match check_bloom_header(&data) {
        Err(ContextError::OperationFailed(m)) => {
            assert_eq!(m, "Invalid bloom filter magic: expected 424C4F4F, got DEADBEEF")
        }
        other => panic!("unexpected {:?}", other),
    }
    assert!(matches!(check_bloom_header(&data[0..5]), Err(ContextError::Io(IoErrorKind::UnexpectedEof))));
}

#[test]
fn truncated_and_invalid_keys_are_refused() {
    let data = encode_bloom_file(&["abc".to_string()]);
    assert!(matches!(decode_bloom_keys(&data[..data.len() - 1]), Err(ContextError::Io(IoErrorKind::UnexpectedEof))));
    let mut bad = data.clone();
    let n = bad.len();
    bad[n - 1] = 0xFF;
    match decode_bloom_keys(&bad) {
        Err(ContextError::OperationFailed(m)) => assert!(m.starts_with("Invalid UTF-8 in bloom filter key: ")),
        other => panic!("unexpected {:?}", other),
    }
}

#[test]
fn versions_decide_the_action() {
    assert_eq!(version_action(0), VersionAction::Migrate);
    assert_eq!(version_action(CURRENT_BLOOM_VERSION), VersionAction::ReadCurrent);
    assert_eq!(version_action(CURRENT_BLOOM_VERSION + 1), VersionAction::ReadFuture);
}

#[test]
fn bloom_files_are_named_by_segment() {
    let m = BloomFilterMigrator::new(PathBuf::from("/idx"));
    assert_eq!(m.bloom_path(1), PathBuf::from("/idx/bloom_000001.bin"));
    assert_eq!(m.temp_path(1234567), PathBuf::from("/idx/bloom_1234567.tmp"));
}

use tokitai_context::error::ContextResult;
use tokitai_context::file_kv::bloom_filter_cache::BloomFilterCache;

type KeySet = Vec<String>;

fn keys(k: &str) -> KeySet {
    vec![k.to_string()]
}

#[test]
fn cached_filters_are_found_without_loading() {
    let mut cache: BloomFilterCache<KeySet> =
        BloomFilterCache::new(BloomFilterCacheConfig::default(), std::path::PathBuf::from("/tmp/idx"));
    cache.insert(1, keys("test_key"));
    let loader = |_id: u64| -> ContextResult<Option<KeySet>> { Ok(None) };
    let cached = cache.get(1, &loader).unwrap().unwrap();
    assert!(cached.contains(&"test_key".to_string()));
    assert!(cache.get(2, &loader).unwrap().is_none());
    let s = cache.stats();
    assert_eq!((s.hits, s.misses, s.loads), (1, 1, 1));
    assert_eq!(s.memory_used, 10240);
}

#[test]
fn filters_are_loaded_on_demand_once() {
    let mut cache: BloomFilterCache<KeySet> =
        BloomFilterCache::new(BloomFilterCacheConfig::default(), std::path::PathBuf::from("/tmp/idx"));
    let loader = |id: u64| -> ContextResult<Option<KeySet>> {
        if id == 1 {
            Ok(Some(keys("loaded_key")))
        } else {
            Ok(None)
        }
    };
    assert!(cache.get(1, &loader).unwrap().unwrap().contains(&"loaded_key".to_string()));
    assert!(cache.get(1, &loader).unwrap().is_some());
    let s = cache.stats();
    assert_eq!((s.hits, s.misses, s.loads), (1, 1, 1));
    assert_eq!(cache.len(), 1);
}

#[test]
fn memory_limit_evicts_least_recent_filters() {
    let config = BloomFilterCacheConfig { max_filters: 3, max_memory_bytes: 10240, on_demand_enabled: true };
    let mut cache: BloomFilterCache<KeySet> = BloomFilterCache::new(config, std::path::PathBuf::from("/tmp/idx"));
    for i in 1..=5u64 {
        cache.insert(i, keys(&format!("key_{}", i)));
    }
    let s = cache.stats();
    assert_eq!(s.evictions, 4);
    assert_eq!(s.filters_cached, 1);
    assert_eq!(s.memory_used, 10240);
    let none = |_id: u64| -> ContextResult<Option<KeySet>> { Ok(None) };
    assert!(cache.get(5, &none).unwrap().is_some());
    assert!(cache.get(1, &none).unwrap().is_none());
}

#[test]
fn hit_rate_counts_hits_and_misses() {
    let mut cache: BloomFilterCache<KeySet> =
        BloomFilterCache::new(BloomFilterCacheConfig::default(), std::path::PathBuf::from("/tmp/idx"));
    cache.insert(1, keys("test"));
    let loader = |_id: u64| -> ContextResult<Option<KeySet>> { Ok(None) };
    cache.get(1, &loader).unwrap();
    cache.get(1, &loader).unwrap();
    cache.get(2, &loader).unwrap();
    let s = cache.stats();
    assert_eq!(s.hits, 2);
    assert_eq!(s.misses, 1);
    let rate = s.hits as f64 / (s.hits + s.misses) as f64;
    assert!((rate - 0.66).abs() < 0.02);
}

#[test]
fn filters_dropped_from_a_full_order_of_use_stay_cached() {
    let config = BloomFilterCacheConfig { max_filters: 2, max_memory_bytes: 1 << 20, on_demand_enabled: true };
    let mut cache: BloomFilterCache<KeySet> = BloomFilterCache::new(config, std::path::PathBuf::from("/tmp/idx"));
    cache.insert(1, keys("a"));
    cache.insert(2, keys("b"));
    cache.insert(3, keys("c"));
    // The order of use holds two segments, yet all three filters stay.
    assert_eq!(cache.len(), 3);
    assert_eq!(cache.remove(1).map(|f| f[0].clone()), Some("a".to_string()));
    assert!(cache.remove(1).is_none());
    assert_eq!(cache.stats().memory_used, 20480);
    cache.clear();
    assert!(cache.is_empty());
    assert_eq!(cache.stats().memory_used, 0);
}

#[test]
fn loader_errors_are_passed_on() {
    let mut cache: BloomFilterCache<KeySet> =
        BloomFilterCache::new(BloomFilterCacheConfig::default(), std::path::PathBuf::from("/tmp/idx"));
    let failing = |_id: u64| -> ContextResult<Option<KeySet>> {
        Err(ContextError::InvalidState("broken".to_string()))
    };
    assert!(cache.get(7, &failing).is_err());
    assert!(cache.is_empty());
    assert_eq!(cache.stats().misses, 1);
}
