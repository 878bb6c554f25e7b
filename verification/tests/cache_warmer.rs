use tokitai_context::file_kv::cache_warmer::{
    collect_candidates, load_candidates, scan_segment_for_candidates, CacheWarmingStats, CandidateEntry,
    WarmSegment, WarmingLimits, WarmingStrategy,
};
use tokitai_context::file_kv::segment::{encode_entry, encode_header};

fn segment(id: u64, entries: &[(&str, usize)]) -> WarmSegment {
    let mut data = encode_header();
    for (k, n) in entries {
        let (bytes, _) = encode_entry(k, &vec![b'x'; *n]);
        data.extend_from_slice(&bytes);
    }
    let size = data.len() as u64;
    WarmSegment { id, data, size, entry_count: entries.len() as u64 }
}

fn limits(strategy: WarmingStrategy) -> WarmingLimits {
    WarmingLimits {
        enabled: true,
        max_entries: 1000,
        max_memory_bytes: 16 * 1024 * 1024,
        min_entry_size: 64,
        max_entry_size: 64 * 1024,
        strategy,
        recent_entries_per_segment: 50,
    }
}

#[test]
fn test_warming_strategy_enum() {
    let _recent = WarmingStrategy::Recent;
    let _frequent = WarmingStrategy::Frequent;
    let _size_based = WarmingStrategy::SizeBased;
    let _hybrid = WarmingStrategy::Hybrid;
}

#[test]
fn default_stats_are_empty() {
    let stats = CacheWarmingStats::default();
    assert!(!stats.completed);
    assert_eq!(stats.entries_loaded, 0);
}

#[test]
fn scanning_reads_every_entry_from_the_header_on() {
    let seg = segment(3, &[("a", 100), ("bb", 200)]);
    let c = scan_segment_for_candidates(limits(WarmingStrategy::Hybrid), &seg, 1);
    assert_eq!(c.len(), 2);
    assert_eq!((c[0].segment_id, c[0].offset, c[0].key.as_str(), c[0].value_len, c[0].segment_index), (3, 8, "a", 100, 1));
    assert_eq!((c[1].offset, c[1].key.as_str(), c[1].value_len), (8 + 4 + 1 + 4 + 100 + 4, "bb", 200));
}

#[test]
fn empty_segments_give_no_candidates() {
    let seg = segment(1, &[]);
    assert!(scan_segment_for_candidates(limits(WarmingStrategy::Hybrid), &seg, 0).is_empty());
}

#[test]
fn loading_respects_the_limits() {
    let segs = vec![segment(1, &[("a", 100), ("tiny", 10), ("b", 300)]), segment(2, &[("c", 200)])];
    let mut l = limits(WarmingStrategy::Hybrid);
    let cands = collect_candidates(l, &segs);
    assert_eq!(cands.len(), 4);
    l.max_memory_bytes = 450;
    let (loads, loaded, memory, skipped) = load_candidates(l, &cands, &segs);
    // "a" (100) loads, "tiny" is too small, "b" (300) loads, "c" (200) would pass the memory limit.
    assert_eq!(loaded, 2);
    assert_eq!(memory, 400);
    assert_eq!(skipped, 1);
    assert_eq!(loads.len(), 2);
    assert_eq!(loads[1].segment_id, 1);
    assert_eq!(loads[1].value, vec![b'x'; 300]);
}

#[test]
fn entries_that_do_not_read_back_are_skipped() {
    let segs = vec![segment(1, &[("a", 100)])];
    let wrong_key = CandidateEntry { segment_id: 1, offset: 8, key: "z".to_string(), value_len: 100, segment_index: 0 };
    let missing = CandidateEntry { segment_id: 9, offset: 8, key: "a".to_string(), value_len: 100, segment_index: 0 };
    let (loads, loaded, _, skipped) = load_candidates(limits(WarmingStrategy::Frequent), &vec![wrong_key, missing], &segs);
    assert!(loads.is_empty());
    assert_eq!(loaded, 0);
    assert_eq!(skipped, 2);
}
