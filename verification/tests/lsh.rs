use tokitai_context::optimization::algorithms::lsh::MinHashGenerator;

fn estimate_jaccard(a: &[u64], b: &[u64]) -> f64 {
    if a.len() != b.len() {
        return 0.0;
    }
    a.iter().zip(b.iter()).filter(|(x, y)| x == y).count() as f64 / a.len() as f64
}

#[test]
fn test_minhash_generator() {
    let generator = MinHashGenerator::new(128);

    let doc1 = "The quick brown fox jumps over the lazy dog";
    let doc2 = "The quick brown fox jumps over the lazy dog";
    let doc3 = "Completely different text about something else";

    let sig1 = generator.generate_signature(doc1);
    let sig2 = generator.generate_signature(doc2);
    let sig3 = generator.generate_signature(doc3);

    assert_eq!(sig1, sig2);
    assert_ne!(sig1, sig3);

    let sim_1_2 = estimate_jaccard(&sig1, &sig2);
    let sim_1_3 = estimate_jaccard(&sig1, &sig3);

    assert!(sim_1_2 > sim_1_3);
    assert!((sim_1_2 - 1.0).abs() < 0.01);
}

#[test]
fn test_chinese_text() {
    let generator = MinHashGenerator::new(128);

    let doc1 = "人工智能是计算机科学的一个分支";
    let doc2 = "人工智能是计算机科学的一个分支";
    let doc3 = "今天天气很好，适合出去玩";

    let sig1 = generator.generate_signature(doc1);
    let sig2 = generator.generate_signature(doc2);
    let sig3 = generator.generate_signature(doc3);

    assert_eq!(sig1, sig2);
    assert_ne!(sig1, sig3);

    let sim_1_2 = estimate_jaccard(&sig1, &sig2);
    let sim_1_3 = estimate_jaccard(&sig1, &sig3);

    assert!(sim_1_2 > sim_1_3);
}

#[test]
fn signatures_have_one_value_per_permutation() {
    let generator = MinHashGenerator::new(16);
    assert_eq!(generator.signature_length(), 16);
    assert_eq!(generator.generate_signature("hello world").len(), 16);
    assert_eq!(generator.generate_signature("").len(), 16);
}

#[test]
fn case_and_spaces_do_not_change_the_signature() {
    let generator = MinHashGenerator::new(32);
    assert_eq!(generator.generate_signature("Hello  World"), generator.generate_signature("helloworld"));
}

use tokitai_context::optimization::algorithms::lsh::{matching_positions, LSHIndex};

// The banding that a threshold of one half gives for `n` permutations:
// the rows per band whose threshold (1/b)^(1/r) comes closest.
fn banding_for_half(n: usize) -> (usize, usize) {
    let mut best_r = 4;
    let mut best_diff = f64::MAX;
    for r in 2..=16 {
        let b = n / r;
        if b < 1 {
            continue;
        }
        let diff = ((1.0 / b as f64).powf(1.0 / r as f64) - 0.5).abs();
        if diff < best_diff {
            best_diff = diff;
            best_r = r;
        }
    }
    (n / best_r, best_r)
}

#[test]
fn test_lsh_index() {
    let (bands, rows) = banding_for_half(128);
    let mut index: LSHIndex<(String, u64)> = LSHIndex::new(bands, rows);
    let generator = MinHashGenerator::new(128);

    for i in 0..10 {
        let doc = format!("Document number {} with some content", i);
        let sig = generator.generate_signature(&doc);
        index.add_document(format!("doc_{}", i), sig, (format!("/docs/doc_{}.txt", i), doc.len() as u64));
    }

    let query = "Document number 5 with some content";
    let query_sig = generator.generate_signature(query);
    let candidates = index.query_similar(&query_sig);
    assert!(candidates.contains(&"doc_5".to_string()));

    let stats = index.stats();
    assert_eq!(stats.num_documents, 10);
}

#[test]
fn bands_share_buckets_where_rows_agree() {
    let mut index: LSHIndex<()> = LSHIndex::new(2, 2);
    index.add_document("a".to_string(), vec![1, 2, 3, 4], ());
    index.add_document("b".to_string(), vec![1, 2, 9, 9], ());
    index.add_document("c".to_string(), vec![7, 7, 3, 4], ());
    let mut found = index.query_similar(&[1, 2, 3, 4]);
    found.sort();
    assert_eq!(found, vec!["a", "b", "c"]);
    assert_eq!(index.query_similar(&[1, 2, 0, 0]), vec!["a", "b"]);
    assert!(index.query_similar(&[5, 5, 5, 5]).is_empty());
    let s = index.stats();
    assert_eq!(s.total_buckets, 4);
    assert_eq!(s.num_bands, 2);
    assert_eq!(s.rows_per_band, 2);
}

#[test]
fn removed_documents_leave_their_buckets() {
    let mut index: LSHIndex<u32> = LSHIndex::new(2, 2);
    index.add_document("a".to_string(), vec![1, 2, 3, 4], 1);
    index.add_document("b".to_string(), vec![1, 2, 9, 9], 2);
    index.remove_document("a");
    assert_eq!(index.query_similar(&[1, 2, 3, 4]), vec!["b"]);
    assert!(index.signature("a").is_none());
    assert!(index.metadata_of("a").is_none());
    assert_eq!(index.metadata_of("b"), Some(&2));
    // Emptied buckets are still counted.
    assert_eq!(index.stats().total_buckets, 3);
    assert_eq!(index.stats().num_documents, 1);
}

#[test]
fn short_signatures_use_the_bands_they_reach() {
    let mut index: LSHIndex<()> = LSHIndex::new(3, 2);
    index.add_document("x".to_string(), vec![1, 2, 3], ());
    // The last band holds the one row left.
    assert_eq!(index.query_similar(&[0, 0, 3]), vec!["x"]);
    assert!(index.query_similar(&[]).is_empty());
}

#[test]
fn matching_positions_counts_agreement() {
    assert_eq!(matching_positions(&[1, 2, 3], &[1, 0, 3]), 2);
    assert_eq!(matching_positions(&[1, 2], &[1, 2, 3]), 0);
    assert_eq!(matching_positions(&[], &[]), 0);
}
