use tokitai_context::file_kv::write_coalescer::{WriteCoalescer, WriteCoalescerConfig};

#[test]
fn test_write_coalescer_add() {
    let config = WriteCoalescerConfig { time_window_us: 1000, size_threshold_bytes: 1024, enabled: true };
    let mut coalescer = WriteCoalescer::new(config);

    let should_flush = coalescer.add("key1".to_string(), b"value1".to_vec());
    assert!(!should_flush);
    assert_eq!(coalescer.pending_count(), 1);

    let should_flush = coalescer.add("key2".to_string(), b"value2".to_vec());
    assert!(!should_flush);
    assert_eq!(coalescer.pending_count(), 2);
}

#[test]
fn test_write_coalescer_drain() {
    let mut coalescer = WriteCoalescer::new(WriteCoalescerConfig::default());

    coalescer.add("key1".to_string(), b"value1".to_vec());
    coalescer.add("key2".to_string(), b"value2".to_vec());

    let drained = coalescer.drain();
    assert_eq!(drained.len(), 2);
    assert_eq!(coalescer.pending_count(), 0);
    assert!(!coalescer.has_pending());
}

#[test]
fn test_write_coalescer_disabled() {
    let config = WriteCoalescerConfig { enabled: false, ..Default::default() };
    let mut coalescer = WriteCoalescer::new(config);

    let should_flush = coalescer.add("key1".to_string(), b"value1".to_vec());
    assert!(should_flush);
    assert_eq!(coalescer.pending_count(), 0);
}

#[test]
fn test_write_coalescer_size_threshold() {
    let config = WriteCoalescerConfig { time_window_us: 1000000, size_threshold_bytes: 100, enabled: true };
    let mut coalescer = WriteCoalescer::new(config);

    let mut should_flush = false;
    for i in 0..10 {
        should_flush = coalescer.add(format!("key_{}", i), vec![0u8; 20]);
        if should_flush {
            break;
        }
    }

    assert!(should_flush);
}

#[test]
fn time_window_decides_with_a_given_clock() {
    let config = WriteCoalescerConfig { time_window_us: 1000, size_threshold_bytes: 1 << 20, enabled: true };
    let mut c = WriteCoalescer::with_start(config, 5000);
    assert!(!c.add_at("a".to_string(), vec![1], 5999));
    assert!(!c.add_at("b".to_string(), vec![2], 6999));
    // The oldest buffered write is now more than the window old: flush, and
    // the write is not buffered.
    assert!(c.add_at("c".to_string(), vec![3], 7000));
    assert_eq!(c.pending_count(), 2);
    assert_eq!(c.buffer_size(), 2 + 2);
    let w = c.force_flush();
    assert_eq!(w.len(), 2);
    assert_eq!(w[0].key, "a");
    assert_eq!(w[1].value, vec![2]);
    assert_eq!(c.buffer_size(), 0);
}
