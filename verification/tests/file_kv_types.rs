use tokitai_context::file_kv::types::{path_findings, PathProbe};
use tokitai_context::file_kv::flush::{background_step, FlushMessage, FlushStep, FlushTrigger};
use tokitai_context::file_kv::memtable::MemTableConfig;
use tokitai_context::file_kv::types::{
    limit_errors, size_warnings, validation_of, FileKVConfigError, ValuePointer, MIN_BLOCK_CACHE_ITEMS,
};

#[test]
fn value_pointer_round_trips_through_bytes() {
    let p = ValuePointer::new(0x0102030405060708, 42, 7, 0xDEADBEEF);
    let b = p.to_bytes();
    assert_eq!(&b[0..8], &0x0102030405060708u64.to_le_bytes());
    assert_eq!(&b[8..16], &42u64.to_le_bytes());
    assert_eq!(&b[16..20], &7u32.to_le_bytes());
    assert_eq!(&b[20..24], &0xDEADBEEFu32.to_le_bytes());
    assert_eq!(ValuePointer::from_bytes(&b), p);
}

#[test]
fn limits_give_errors_in_order() {
    let memtable = MemTableConfig { flush_threshold_bytes: 1, max_entries: 1, max_memory_bytes: 1 };
    let errors = limit_errors(&memtable, 1, 1, true, 1, 100, 10, 20);
    assert_eq!(errors.len(), 7);
    assert_eq!(errors[0].message(), "MemTable flush threshold too low: 1 bytes (minimum: 65536)");
    assert_eq!(errors[3], FileKVConfigError::BlockCacheMaxItemsTooLow(1, MIN_BLOCK_CACHE_ITEMS));
    assert_eq!(errors[4].message(), "Background flush interval too short: 1ms (minimum: 10ms)");
    assert_eq!(errors[6].message(), "Segment max size smaller than target: max=10, target=20");
    let v = validation_of(errors, Vec::new());
    assert!(!v.is_valid());
    assert_eq!(v.all_issues().len(), 7);
}

#[test]
fn good_limits_are_valid() {
    let errors = limit_errors(&MemTableConfig::default(), 64 * 1024 * 1024, 10000, false, 0, 4, 20, 10);
    assert!(errors.is_empty());
    let v = validation_of(errors, size_warnings(128 * 1024 * 1024, 1024));
    assert!(v.is_valid());
    assert_eq!(v.warnings, vec!["Large MemTable threshold (134217728 bytes) may cause long flush pauses".to_string()]);
}

#[test]
fn path_errors_have_messages() {
    assert_eq!(FileKVConfigError::InvalidPath("x".to_string()).message(), "Invalid path: x");
    assert_eq!(FileKVConfigError::PathNotWritable("y".to_string()).message(), "Path is not writable: y");
}

#[test]
fn flush_trigger_flag() {
    let mut t = FlushTrigger::new();
    assert!(!t.is_requested());
    t.request();
    assert!(t.is_requested());
    t.mark_completed();
    assert!(!t.is_requested());
    assert!(!t.send_trigger());
}

#[test]
fn background_worker_decisions() {
    assert_eq!(background_step(Some(FlushMessage::Stop), true), FlushStep::Stop);
    assert_eq!(background_step(Some(FlushMessage::Trigger), false), FlushStep::RequestFlush);
    assert_eq!(background_step(None, true), FlushStep::RequestFlush);
    assert_eq!(background_step(None, false), FlushStep::Idle);
}

#[test]
fn directory_probes_give_errors_and_warnings() {
    let (e, w) = path_findings("wal_dir", &PathProbe::Empty);
    assert_eq!(e.len(), 1);
    assert_eq!(e[0].message(), "Invalid path: wal_dir is empty");
    assert!(w.is_empty());
    let (e, _) = path_findings("segment_dir", &PathProbe::Directory(false));
    assert_eq!(e[0].message(), "Path is not writable: segment_dir");
    let (e, _) = path_findings("index_dir", &PathProbe::ParentDirectory(false));
    assert_eq!(e[0].message(), "Path is not writable: index_dir parent");
    let (e, w) = path_findings("checkpoint_dir", &PathProbe::ParentMissing("\"/nope\"".to_string()));
    assert!(e.is_empty());
    assert_eq!(w, vec!["checkpoint_dir parent directory does not exist: \"/nope\"".to_string()]);
    assert!(path_findings("x", &PathProbe::Directory(true)).0.is_empty());
    assert!(path_findings("x", &PathProbe::NoParent).0.is_empty());
    let (e, _) = path_findings("x", &PathProbe::ParentNotDirectory);
    assert_eq!(e[0].message(), "Invalid path: x parent is not a directory");
    let (e, _) = path_findings("x", &PathProbe::NotDirectory);
    assert_eq!(e[0].message(), "Invalid path: x is not a directory");
}

#[test]
fn trigger_and_stop_messages_reach_the_worker() {
    let (tx, rx) = std::sync::mpsc::channel();
    let t = FlushTrigger::with_sender(tx);
    assert!(t.send_trigger());
    assert!(matches!(rx.recv().unwrap(), FlushMessage::Trigger));
    assert!(t.stop());
    assert!(matches!(rx.recv().unwrap(), FlushMessage::Stop));
    drop(rx);
    assert!(!t.send_trigger());
    assert!(!t.stop());
    let lone = FlushTrigger::new();
    assert!(!lone.send_trigger());
    assert!(!lone.stop());
}
