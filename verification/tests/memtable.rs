use tokitai_context::file_kv::memtable::{MemTable, MemTableConfig};
use tokitai_context::file_kv::types::ValuePointer;

fn usage_ratio(mt: &MemTable) -> f64 {
    mt.size_bytes() as f64 / mt.max_memory_bytes() as f64
}

#[test]
fn test_memtable_insert() {
    let config = MemTableConfig::default();
    let mut mt = MemTable::new(config);

    let key = "test_key".to_string();
    let value = b"test_value";

    let (size, seq) = mt.insert(key.clone(), value);

    assert!(size > 0);
    assert_eq!(seq, 0);
    assert_eq!(mt.entry_count(), 1);

    let (val, pointer, deleted) = mt.get(&key).unwrap();
    assert!(!deleted);
    assert!(val.is_some());
    assert_eq!(val.unwrap().as_slice(), b"test_value");
    assert!(pointer.is_none());
}

#[test]
fn test_memtable_delete() {
    let mut mt = MemTable::new(MemTableConfig::default());

    let key = "test_key";
    mt.insert(key.to_string(), b"value");

    let seq = mt.delete(key);
    assert!(seq.is_some());

    let (_, _, deleted) = mt.get(key).unwrap();
    assert!(deleted);
}

#[test]
fn test_memtable_should_flush() {
    let config = MemTableConfig { flush_threshold_bytes: 1000, max_entries: 10, max_memory_bytes: 64 * 1024 * 1024 };
    let mut mt = MemTable::new(config);

    assert!(!mt.should_flush());

    for i in 0..20 {
        mt.insert(format!("key_{}", i), b"value");
    }

    assert!(mt.should_flush());
}

#[test]
fn test_memtable_backpressure() {
    let config = MemTableConfig { flush_threshold_bytes: 10000, max_entries: 1000, max_memory_bytes: 500 };
    let mut mt = MemTable::new(config);

    assert!(!mt.should_apply_backpressure());
    assert!(usage_ratio(&mt) < 1.0);

    for i in 0..100 {
        mt.insert(format!("key_{}", i), &[0u8; 10]);
    }

    assert!(mt.should_apply_backpressure());
    assert!(usage_ratio(&mt) >= 1.0);
}

#[test]
fn test_memtable_memory_headroom() {
    let config = MemTableConfig { flush_threshold_bytes: 10000, max_entries: 1000, max_memory_bytes: 1000 };
    let mut mt = MemTable::new(config);

    assert_eq!(mt.memory_headroom(), 1000);
    assert_eq!(usage_ratio(&mt), 0.0);

    mt.insert("key1".to_string(), &[0u8; 100]);
    assert!(mt.memory_headroom() < 1000);
    assert!(usage_ratio(&mt) > 0.0);

    for i in 0..8 {
        mt.insert(format!("key_{}", i), &[0u8; 100]);
    }

    let headroom = mt.memory_headroom();
    assert!(headroom < 200);
    assert!(usage_ratio(&mt) > 0.8);
}

#[test]
fn test_memtable_backpressure_progression() {
    let config = MemTableConfig { flush_threshold_bytes: 10000, max_entries: 1000, max_memory_bytes: 1000 };
    let mut mt = MemTable::new(config);

    assert!(usage_ratio(&mt) < 0.1);

    mt.insert("key1".to_string(), &[0u8; 500]);
    let level = usage_ratio(&mt);
    assert!((0.4..=0.6).contains(&level), "Expected ~0.5, got {}", level);

    mt.insert("key2".to_string(), &[0u8; 600]);
    assert!(usage_ratio(&mt) >= 1.0);
    assert!(mt.should_apply_backpressure());
}

#[test]
fn memtable_size_counts_keys_and_values() {
    let mut mt = MemTable::new(MemTableConfig::default());
    let (size, _) = mt.insert("ab".to_string(), b"xyz");
    assert_eq!(size, mt.size_bytes());
    let before = mt.size_bytes();
    mt.insert("ab".to_string(), b"xyzw");
    assert!(mt.size_bytes() >= before);
    assert_eq!(mt.entry_count(), 1);
    mt.clear();
    assert_eq!(mt.entry_count(), 0);
    assert_eq!(mt.size_bytes(), 0);
    assert!(mt.get("ab").is_none());
}

#[test]
fn pointers_are_recorded_for_flushed_entries() {
    let mut mt = MemTable::new(MemTableConfig::default());
    mt.insert("k".to_string(), b"v");
    let p = ValuePointer::new(3, 40, 1, 99);
    assert!(mt.update_pointer("k", p));
    assert!(!mt.update_pointer("absent", p));
    let (_, pointer, _) = mt.get("k").unwrap();
    assert_eq!(pointer, Some(p));
    assert_eq!(mt.min_seq_num(), Some(0));
    assert_eq!(mt.get_entries().len(), 1);
}

#[test]
fn iter_lists_every_entry_once() {
    let mut mt = MemTable::new(MemTableConfig::default());
    mt.insert("a".to_string(), b"1");
    mt.insert("b".to_string(), b"22");
    mt.insert("a".to_string(), b"333");
    let mut keys: Vec<String> = mt.iter().into_iter().map(|(k, _)| k).collect();
    keys.sort();
    assert_eq!(keys, vec!["a".to_string(), "b".to_string()]);
}
