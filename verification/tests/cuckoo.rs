use tokitai_context::optimization::cache::cuckoo::{CuckooConflictDetector, CuckooFilter, BUCKET_SIZE};

// `CuckooFilter::new(1000, 0.01)` sizes its table so: 12-bit fingerprints,
// 278 buckets, at most 500 displacements.
fn filter_for_1000() -> CuckooFilter {
    CuckooFilter::with_parameters(278, 12, 500)
}

// `CuckooFilter::new(10000, 0.01)`: 12-bit fingerprints, 2778 buckets.
fn filter_for_10000() -> CuckooFilter {
    CuckooFilter::with_parameters(2778, 12, 500)
}

#[test]
fn test_cuckoo_filter_basic() {
    let mut filter = filter_for_1000();

    assert!(filter.insert("apple"));
    assert!(filter.insert("banana"));
    assert!(filter.insert("cherry"));

    assert!(filter.contains("apple"));
    assert!(filter.contains("banana"));
    assert!(filter.contains("cherry"));

    assert!(!filter.contains("dragon"));
    assert!(!filter.contains("elephant"));
}

#[test]
fn test_cuckoo_filter_delete() {
    let mut filter = filter_for_1000();

    filter.insert("apple");
    filter.insert("banana");

    assert!(filter.contains("apple"));

    assert!(filter.remove("apple"));
    assert!(!filter.contains("apple"));
    assert!(filter.contains("banana"));
}

#[test]
fn test_cuckoo_filter_load() {
    let mut filter = filter_for_10000();

    let insert_count = 3000;
    for i in 0..insert_count {
        assert!(filter.insert(&format!("item_{}", i)), "Failed to insert item {}", i);
    }

    for i in 0..insert_count {
        assert!(filter.contains(&format!("item_{}", i)), "Failed to find item {}", i);
    }
}

#[test]
fn test_cuckoo_vs_bloom_parameters() {
    let expected_items = 10000;
    let cuckoo = filter_for_10000();
    let counts = cuckoo.counts();
    println!("  Items: {}", counts.item_count);
    println!("  Buckets: {}", counts.num_buckets);
    println!("  Bits per element: {}", (counts.num_buckets * BUCKET_SIZE * 16) / expected_items);
    assert_eq!(counts.item_count, 0);
}

#[test]
fn clear_empties_the_filter() {
    let mut filter = filter_for_1000();
    filter.insert("x");
    filter.insert("x");
    assert_eq!(filter.len(), 1);
    filter.clear();
    assert!(filter.is_empty());
    assert!(!filter.contains("x"));
}

#[test]
fn conflicts_are_paths_whose_contents_differ() {
    let mut d = CuckooConflictDetector::with_parameters(278, 12, 500);
    let source = vec![
        ("/b/a.txt".to_string(), b"same".to_vec()),
        ("/b/b.txt".to_string(), b"mine".to_vec()),
        ("/b/c.txt".to_string(), b"only here".to_vec()),
    ];
    let target = vec![("/b/a.txt".to_string(), b"same".to_vec()), ("/b/b.txt".to_string(), b"theirs".to_vec())];
    assert_eq!(d.build_source(&source), 3);
    assert_eq!(d.build_target(&target), 2);
    let conflicts = d.detect_conflicts();
    assert_eq!(conflicts.len(), 1);
    assert_eq!(conflicts[0].item_id, "/b/b.txt");
    assert_eq!(conflicts[0].conflict_id, "conflict_/b/b.txt");
    assert_ne!(conflicts[0].source_hash, conflicts[0].target_hash);
    assert_eq!(conflicts[0].source_hash.len(), 64);
}

#[test]
fn accepted_items_stay_found_through_displacement() {
    // Two buckets of four slots: displacement starts once both of an
    // item's buckets are full.
    let mut filter = CuckooFilter::with_parameters(2, 12, 50);
    let mut accepted: Vec<String> = Vec::new();
    for i in 0..20 {
        let item = format!("key_{}", i);
        let before = filter.len();
        if filter.insert(&item) {
            accepted.push(item);
        } else {
            assert_eq!(filter.len(), before);
        }
        for a in &accepted {
            assert!(filter.contains(a), "{} lost after inserting key_{}", a, i);
        }
    }
    assert!(filter.len() <= 8);
    assert!(accepted.len() >= 4);
}

#[test]
fn refused_insert_leaves_the_filter_unchanged() {
    let mut filter = CuckooFilter::with_parameters(1, 12, 10);
    for i in 0..4 {
        assert!(filter.insert(&format!("item_{}", i)));
    }
    assert_eq!(filter.len(), 4);
    let mut refused = 0;
    for i in 4..40 {
        let item = format!("item_{}", i);
        if !filter.contains(&item) {
            assert!(!filter.insert(&item));
            refused += 1;
        }
        assert_eq!(filter.len(), 4);
        for j in 0..4 {
            assert!(filter.contains(&format!("item_{}", j)));
        }
    }
    assert!(refused > 0);
}

#[test]
fn complete_detector_reports_every_differing_file() {
    let mut d = CuckooConflictDetector::with_parameters(8, 12, 500);
    let mut source = Vec::new();
    let mut target = Vec::new();
    for i in 0..20 {
        source.push((format!("/s/f{}", i), format!("left {}", i).into_bytes()));
        let right = if i % 3 == 0 { format!("right {}", i) } else { format!("left {}", i) };
        target.push((format!("/s/f{}", i), right.into_bytes()));
    }
    d.build_source(&source);
    d.build_target(&target);
    assert!(d.target_filter_complete());
    let mut ids: Vec<String> = d.detect_conflicts().into_iter().map(|c| c.item_id).collect();
    ids.sort();
    let mut expected: Vec<String> = (0..20).filter(|i| i % 3 == 0).map(|i| format!("/s/f{}", i)).collect();
    expected.sort();
    assert_eq!(ids, expected);
}
