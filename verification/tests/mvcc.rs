use tokitai_context::mvcc::snapshot::{Snapshot, SnapshotManager};
use tokitai_context::mvcc::transaction::{Transaction, TransactionManager, TransactionState, WriteOperation};
use tokitai_context::mvcc::version_chain::{Version, VersionChain, VersionChainRegistry};
use tokitai_context::mvcc::{MvccConfig, MvccManager, MvccStats};

#[test]
fn snapshot_test_snapshot_creation() {
    let snapshot = Snapshot::new(1, vec![1, 2, 3]);

    assert_eq!(snapshot.id(), 1);
    assert_eq!(snapshot.active_transactions(), &[1, 2, 3]);
    assert!(snapshot.is_active(1));
    assert!(snapshot.is_active(2));
    assert!(snapshot.is_active(3));
    assert!(!snapshot.is_active(4));
}

#[test]
fn test_snapshot_visibility() {
    let snapshot = Snapshot::new(10, vec![5, 7, 9]);

    assert!(snapshot.is_visible(1));
    assert!(snapshot.is_visible(3));
    assert!(snapshot.is_visible(8));

    assert!(!snapshot.is_visible(10));
    assert!(!snapshot.is_visible(11));

    assert!(!snapshot.is_visible(5));
    assert!(!snapshot.is_visible(7));
    assert!(!snapshot.is_visible(9));
}

#[test]
fn test_snapshot_read_counting() {
    let mut snapshot = Snapshot::new(1, vec![]);

    assert_eq!(snapshot.read_count(), 0);

    snapshot.record_read();
    assert_eq!(snapshot.read_count(), 1);

    snapshot.record_read();
    snapshot.record_read();
    assert_eq!(snapshot.read_count(), 3);
}

#[test]
fn test_snapshot_manager_lifecycle() {
    let mut manager = SnapshotManager::new();

    let _s1 = manager.create_snapshot(1, &[1, 2]);
    let _s2 = manager.create_snapshot(2, &[1, 2, 3]);

    assert_eq!(manager.active_count(), 2);
    assert!(manager.get_snapshot(1).is_some());
    assert!(manager.get_snapshot(2).is_some());

    assert!(manager.release_snapshot(1));
    assert_eq!(manager.active_count(), 1);
    assert!(manager.get_snapshot(1).is_none());
    assert!(manager.get_snapshot(2).is_some());

    assert!(!manager.release_snapshot(999));
}

#[test]
fn test_snapshot_manager_min_visible_txn_id() {
    let mut manager = SnapshotManager::new();

    assert_eq!(manager.min_visible_txn_id(), u64::MAX);

    manager.create_snapshot(10, &[1, 2, 3]);
    manager.create_snapshot(5, &[1, 2]);
    manager.create_snapshot(15, &[1, 2, 3, 4, 5]);

    assert_eq!(manager.min_visible_txn_id(), 5);

    manager.release_snapshot(5);

    assert_eq!(manager.min_visible_txn_id(), 10);
}

#[test]
fn test_snapshot_manager_stats() {
    let mut manager = SnapshotManager::new();

    manager.create_snapshot(1, &[]);
    manager.create_snapshot(2, &[]);
    manager.release_snapshot(1);

    let stats = manager.stats().snapshot();
    assert_eq!(stats.snapshots_created, 2);
    assert_eq!(stats.snapshots_released, 1);
    assert_eq!(stats.active_count, 1);
}

#[test]
fn test_snapshot_empty_active_set() {
    let snapshot = Snapshot::new(5, vec![]);

    assert!(snapshot.is_visible(1));
    assert!(snapshot.is_visible(4));

    assert!(!snapshot.is_visible(5));
    assert!(!snapshot.is_visible(6));
}

#[test]
fn test_transaction_creation() {
    let txn = Transaction::new(1, TransactionState::Active);

    assert_eq!(txn.id(), 1);
    assert_eq!(txn.state(), TransactionState::Active);
    assert!(txn.is_active());
    assert!(!txn.is_committed());
    assert!(!txn.is_aborted());
    assert_eq!(txn.write_count(), 0);
}

#[test]
fn test_transaction_writes() {
    let mut txn = Transaction::new(2, TransactionState::Active);

    txn.put("key1".to_string(), b"value1".to_vec());
    txn.put("key2".to_string(), b"value2".to_vec());
    txn.delete("key3".to_string());

    assert_eq!(txn.write_count(), 3);

    assert!(matches!(txn.get_write("key1"), Some(WriteOperation::Put(_))));
    assert!(matches!(txn.get_write("key2"), Some(WriteOperation::Put(_))));
    assert!(matches!(txn.get_write("key3"), Some(WriteOperation::Delete)));
    assert!(txn.get_write("key4").is_none());
}

#[test]
fn test_transaction_state_transitions() {
    let mut txn = Transaction::new(3, TransactionState::Active);

    txn.set_state(TransactionState::Committed);
    assert!(txn.is_committed());
    assert!(!txn.is_active());
}

#[test]
fn test_transaction_read_set() {
    let mut txn = Transaction::new(4, TransactionState::Active);

    txn.record_read("key1".to_string(), b"value1".to_vec());
    txn.record_read("key2".to_string(), b"value2".to_vec());

    assert_eq!(txn.get_read_set().len(), 2);
    assert_eq!(txn.get_read_set().get("key1"), Some(&b"value1".to_vec()));
}

#[test]
fn test_transaction_clear() {
    let mut txn = Transaction::new(5, TransactionState::Active);

    txn.put("key1".to_string(), b"value1".to_vec());
    txn.record_read("key2".to_string(), b"value2".to_vec());

    txn.clear();

    assert_eq!(txn.write_count(), 0);
    assert!(txn.get_read_set().is_empty());
}

#[test]
fn test_transaction_manager_lifecycle() {
    let mut manager = TransactionManager::new();

    manager.register_transaction(1);
    manager.register_transaction(2);
    manager.register_transaction(3);

    assert_eq!(manager.active_count(), 3);
    assert!(manager.is_active(1));
    assert!(manager.is_active(2));
    assert!(manager.is_active(3));

    manager.commit_transaction(1);
    assert!(!manager.is_active(1));
    assert!(manager.is_active(2));
    assert!(manager.is_active(3));
    assert_eq!(manager.active_count(), 2);

    manager.abort_transaction(2);
    assert!(!manager.is_active(2));
    assert!(manager.is_active(3));
    assert_eq!(manager.active_count(), 1);

    assert_eq!(manager.get_committed_transactions(), &[1]);
    assert_eq!(manager.get_aborted_transactions(), &[2]);
}

#[test]
fn test_transaction_manager_history_limit() {
    let mut manager = TransactionManager::new();
    manager.max_history = 5;

    for i in 1..=10 {
        manager.register_transaction(i);
        manager.commit_transaction(i);
    }

    assert_eq!(manager.get_committed_transactions().len(), 5);
    assert_eq!(manager.get_committed_transactions(), &[6, 7, 8, 9, 10]);
}

#[test]
fn test_mvcc_manager_creation() {
    let config = MvccConfig::default();
    let manager = MvccManager::new(config);

    assert_eq!(manager.next_transaction_id(), 1);
    assert_eq!(manager.active_transaction_count(), 0);
    assert_eq!(manager.active_snapshot_count(), 0);
}

#[test]
fn test_transaction_lifecycle() {
    let mut manager = MvccManager::new(MvccConfig::default());

    let mut txn = manager.begin_rw_transaction();
    assert_eq!(txn.id(), 1);
    assert_eq!(txn.state(), TransactionState::Active);
    assert_eq!(manager.active_transaction_count(), 1);

    manager.commit_transaction(&mut txn).unwrap();
    assert_eq!(txn.state(), TransactionState::Committed);
    assert_eq!(manager.active_transaction_count(), 0);
}

#[test]
fn test_snapshot_lifecycle() {
    let mut manager = MvccManager::new(MvccConfig::default());

    let mut snapshot = manager.begin_snapshot();
    assert_eq!(snapshot.id(), 1);
    assert_eq!(manager.active_snapshot_count(), 1);

    manager.release_snapshot(&mut snapshot).unwrap();
    assert_eq!(manager.active_snapshot_count(), 0);
}

#[test]
fn test_visibility_rules() {
    let mut manager = MvccManager::new(MvccConfig::default());

    let mut txn1 = manager.begin_rw_transaction();
    let txn1_id = txn1.id();

    let mut snapshot = manager.begin_snapshot();
    let snapshot_id = snapshot.id();

    assert!(snapshot.active_transactions().contains(&txn1_id));
    assert!(!manager.is_visible(txn1_id, &snapshot));

    let hypothetical_txn_id = snapshot_id - 1;
    let test_snapshot = Snapshot::new(snapshot_id, vec![]);
    assert!(manager.is_visible(hypothetical_txn_id, &test_snapshot));

    manager.release_snapshot(&mut snapshot).unwrap();
    manager.abort_transaction(&mut txn1).unwrap();
}

#[test]
fn test_transaction_abort() {
    let mut manager = MvccManager::new(MvccConfig::default());

    let mut txn = manager.begin_rw_transaction();
    assert_eq!(manager.active_transaction_count(), 1);

    manager.abort_transaction(&mut txn).unwrap();
    assert_eq!(txn.state(), TransactionState::Aborted);
    assert_eq!(manager.active_transaction_count(), 0);
}

#[test]
fn test_stats_tracking() {
    let mut manager = MvccManager::new(MvccConfig::default());

    let mut txn = manager.begin_rw_transaction();
    manager.commit_transaction(&mut txn).unwrap();

    let mut snapshot = manager.begin_snapshot();
    manager.release_snapshot(&mut snapshot).unwrap();

    let stats = manager.stats().snapshot();
    assert_eq!(stats.transactions_started, 1);
    assert_eq!(stats.transactions_committed, 1);
    assert_eq!(stats.snapshots_created, 1);
    assert_eq!(stats.snapshots_released, 1);
}

#[test]
fn test_concurrent_transactions() {
    let mut manager = MvccManager::new(MvccConfig::default());

    let mut txn1 = manager.begin_rw_transaction();
    let mut txn2 = manager.begin_rw_transaction();
    let mut txn3 = manager.begin_rw_transaction();

    assert_eq!(manager.active_transaction_count(), 3);

    manager.commit_transaction(&mut txn1).unwrap();
    assert_eq!(manager.active_transaction_count(), 2);

    manager.abort_transaction(&mut txn2).unwrap();
    assert_eq!(manager.active_transaction_count(), 1);

    manager.commit_transaction(&mut txn3).unwrap();
    assert_eq!(manager.active_transaction_count(), 0);
}

#[test]
fn committing_twice_is_refused() {
    let mut manager = MvccManager::new(MvccConfig::default());
    let mut txn = manager.begin_rw_transaction();
    manager.commit_transaction(&mut txn).unwrap();
    assert!(manager.commit_transaction(&mut txn).is_err());
    assert!(manager.abort_transaction(&mut txn).is_err());
}

#[test]
fn test_version_creation() {
    let version = Version::new(1, Some(b"hello".to_vec()), false);

    assert_eq!(version.txn_id, 1);
    assert_eq!(version.value_bytes(), Some(b"hello".as_slice()));
    assert!(!version.deleted);
    assert!(version.has_value());
}

#[test]
fn test_version_tombstone() {
    let version = Version::new(2, None, true);

    assert_eq!(version.txn_id, 2);
    assert!(version.deleted);
    assert!(!version.has_value());
    assert_eq!(version.value_bytes(), None);
}

#[test]
fn test_version_chain_append() {
    let mut chain = VersionChain::new("key1".to_string(), None);

    chain.put(1, b"value1".to_vec());
    chain.put(2, b"value2".to_vec());
    chain.put(3, b"value3".to_vec());

    assert_eq!(chain.version_count(), 3);

    let latest = chain.get_latest().unwrap();
    assert_eq!(latest.txn_id, 3);
    assert_eq!(latest.value_bytes(), Some(b"value3".as_slice()));
}

#[test]
fn test_version_chain_delete() {
    let mut chain = VersionChain::new("key2".to_string(), None);

    chain.put(1, b"value".to_vec());
    chain.delete(2);

    assert_eq!(chain.version_count(), 2);

    let latest = chain.get_latest().unwrap();
    assert_eq!(latest.txn_id, 2);
    assert!(latest.deleted);
}

#[test]
fn test_version_chain_get_visible() {
    let mut chain = VersionChain::new("key3".to_string(), None);

    chain.put(1, b"v1".to_vec());
    chain.put(2, b"v2".to_vec());
    chain.put(3, b"v3".to_vec());
    chain.put(5, b"v5".to_vec());

    let visible = chain.get_visible(|txn_id| txn_id < 4);
    assert!(visible.is_some());
    assert_eq!(visible.unwrap().txn_id, 3);

    let visible = chain.get_visible(|txn_id| txn_id < 2);
    assert!(visible.is_some());
    assert_eq!(visible.unwrap().txn_id, 1);

    let visible = chain.get_visible(|txn_id| txn_id < 1);
    assert!(visible.is_none());
}

#[test]
fn test_version_chain_with_active_set() {
    let mut chain = VersionChain::new("key4".to_string(), None);

    chain.put(1, b"v1".to_vec());
    chain.put(3, b"v3".to_vec());
    chain.put(5, b"v5".to_vec());

    let active_set = [3, 5];

    let visible = chain.get_visible(|txn_id| txn_id < 6 && !active_set.contains(&txn_id));
    assert!(visible.is_some());
    assert_eq!(visible.unwrap().txn_id, 1);
}

#[test]
fn test_version_chain_garbage_collection() {
    let mut chain = VersionChain::new("key5".to_string(), Some(MvccStats::default()));

    for i in 1..=10 {
        chain.put(i, format!("v{}", i).into_bytes());
    }

    assert_eq!(chain.version_count(), 10);

    let collected = chain.garbage_collect(5, 5);

    assert_eq!(collected, 5);
    assert_eq!(chain.version_count(), 5);

    let latest = chain.get_latest().unwrap();
    assert_eq!(latest.txn_id, 10);

    let all = chain.get_all_versions();
    let txn_ids: Vec<_> = all.iter().map(|v| v.txn_id).collect();
    assert_eq!(txn_ids, vec![10, 9, 8, 7, 6]);
}

#[test]
fn test_version_registry() {
    let mut registry = VersionChainRegistry::new();

    registry.get_or_create("key1");
    registry.get_or_create("key2");

    registry.put("key1", 1, b"v1".to_vec());
    registry.put("key2", 1, b"v2".to_vec());

    assert_eq!(registry.key_count(), 2);
    assert_eq!(registry.total_version_count(), 2);

    let retrieved = registry.get("key1");
    assert!(retrieved.is_some());
    assert_eq!(retrieved.unwrap().version_count(), 1);
}

#[test]
fn registry_collects_every_chain() {
    let mut registry = VersionChainRegistry::new();
    for i in 1..=4 {
        registry.put("a", i, vec![i as u8]);
        registry.put("b", i, vec![i as u8]);
    }
    registry.delete("c", 9);
    let mut keys = registry.get_all_keys();
    keys.sort();
    assert_eq!(keys, vec!["a", "b", "c"]);
    assert_eq!(registry.total_version_count(), 9);
    let collected = registry.garbage_collect_all(3, 10);
    assert_eq!(collected, 4);
    assert_eq!(registry.total_version_count(), 5);
    let a = registry.get("a").unwrap();
    let ids: Vec<u64> = a.get_all_versions().iter().map(|v| v.txn_id).collect();
    assert_eq!(ids, vec![4, 3]);
    registry.clear();
    assert_eq!(registry.key_count(), 0);
}

#[test]
fn test_version_chain_all_versions() {
    let mut chain = VersionChain::new("key".to_string(), None);

    chain.put(1, b"v1".to_vec());
    chain.put(2, b"v2".to_vec());
    chain.put(3, b"v3".to_vec());

    let all = chain.get_all_versions();
    assert_eq!(all.len(), 3);

    assert_eq!(all[0].txn_id, 3);
    assert_eq!(all[1].txn_id, 2);
    assert_eq!(all[2].txn_id, 1);
}

#[test]
fn test_version_stats() {
    let mut chain = VersionChain::new("key".to_string(), Some(MvccStats::default()));

    chain.put(1, b"v1".to_vec());
    chain.put(2, b"v2".to_vec());
    chain.delete(3);

    let snapshot = chain.stats().unwrap().snapshot();
    assert_eq!(snapshot.versions_created, 3);

    chain.garbage_collect(2, 2);

    let snapshot = chain.stats().unwrap().snapshot();
    assert_eq!(snapshot.versions_gc_collected, 1);
}

#[test]
fn snapshots_see_transactions_committed_before_them() {
    let mut manager = MvccManager::new(MvccConfig::default());
    let mut txn = manager.begin_rw_transaction();
    txn.put("key1".to_string(), b"value1".to_vec());
    manager.commit_transaction(&mut txn).unwrap();
    let snapshot = manager.begin_snapshot();
    assert!(snapshot.id() > txn.id());
    assert!(manager.is_visible(txn.id(), &snapshot));
    assert!(snapshot.is_visible(txn.id()));
}

#[test]
fn commit_sets_the_commit_time() {
    let mut manager = MvccManager::new(MvccConfig::default());
    let mut txn = manager.begin_rw_transaction();
    assert!(txn.commit_time().is_none());
    manager.commit_transaction(&mut txn).unwrap();
    assert!(txn.commit_time().unwrap() >= txn.start_time());
}

#[test]
fn history_limit_can_be_set() {
    let mut manager = TransactionManager::new();
    manager.set_max_history(2);
    for i in 1..=4 {
        manager.register_transaction(i);
        manager.commit_transaction(i);
    }
    assert_eq!(manager.get_committed_transactions(), &[3, 4]);
}

#[test]
fn write_count_counts_distinct_keys() {
    let mut txn = Transaction::new(3, TransactionState::Active);
    txn.put("a".to_string(), b"x".to_vec());
    txn.put("a".to_string(), b"y".to_vec());
    txn.delete("a".to_string());
    txn.delete("b".to_string());
    assert_eq!(txn.write_count(), 2);
    txn.clear();
    assert_eq!(txn.write_count(), 0);
    txn.put("b".to_string(), b"z".to_vec());
    assert_eq!(txn.write_count(), 1);
}

#[test]
fn garbage_collection_keeps_the_latest_version() {
    let mut chain = VersionChain::new("k".to_string(), None);
    for i in 1..=3 {
        chain.put(i, vec![i as u8]);
    }
    assert_eq!(chain.garbage_collect(10, 5), 2);
    assert_eq!(chain.version_count(), 1);
    assert_eq!(chain.get_latest().unwrap().txn_id, 3);
    chain.put(4, vec![4]);
    assert_eq!(chain.garbage_collect(0, 0), 1);
    assert_eq!(chain.get_latest().unwrap().txn_id, 4);
}
