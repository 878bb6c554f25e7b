use std::path::PathBuf;
use tokitai_context::optimization::dedup::cas::{
    compress, compute_hash, decompress, snapshot_metadata, ChangeType, CompressionAlgorithm, CompressionConfig,
    ContentAddressableStorage, GcResult, SnapshotMetadata, StorePlan,
};

/// Stores `content` as the store's `store` does, keeping written files in
/// `files` in place of the disk.
fn store(cas: &mut ContentAddressableStorage, files: &mut Vec<(PathBuf, Vec<u8>)>, content: &[u8]) -> String {
    match cas.store_plan(content) {
        StorePlan::Existing { hash } => {
            cas.record_existing(&hash).unwrap();
            hash
        }
        StorePlan::New { hash, data, path } => {
            let stored_len = data.len() as u64;
            files.push((path.clone(), data));
            cas.record_new(hash.clone(), content.len() as u64, stored_len, path, 0);
            hash
        }
    }
}

fn retrieve(cas: &mut ContentAddressableStorage, files: &[(PathBuf, Vec<u8>)], hash: &str) -> Vec<u8> {
    let (path, _) = cas.locate(hash).unwrap();
    let stored = files.iter().find(|(p, _)| *p == path).unwrap().1.clone();
    cas.finish_retrieve(hash, &stored, 1)
}

fn new_store(config: CompressionConfig) -> ContentAddressableStorage {
    ContentAddressableStorage::with_entries(PathBuf::from("/cas"), config, Vec::new())
}

#[test]
fn test_cas_store_retrieve() {
    let mut cas = new_store(CompressionConfig::default());
    let mut files = Vec::new();

    let content = b"Hello, World!";
    let hash = store(&mut cas, &mut files, content);

    assert!(hash.starts_with("0x"));
    assert!(cas.contains(&hash));

    let retrieved = retrieve(&mut cas, &files, &hash);
    assert_eq!(retrieved, content);
}

#[test]
fn test_cas_deduplication() {
    let mut cas = new_store(CompressionConfig::default());
    let mut files = Vec::new();

    let content = b"Duplicate content";

    let hash1 = store(&mut cas, &mut files, content);
    let hash2 = store(&mut cas, &mut files, content);

    assert_eq!(hash1, hash2);

    let stats = cas.stats();
    assert_eq!(stats.total_objects, 1);
    assert_eq!(cas.get_reference_count(&hash1), Some(2));
    assert_eq!(files.len(), 1);
}

#[test]
fn test_cas_reference_counting() {
    let mut cas = new_store(CompressionConfig::default());
    let mut files = Vec::new();

    let content = b"Test content";
    let hash = store(&mut cas, &mut files, content);

    cas.increment_reference(&hash).unwrap();
    cas.increment_reference(&hash).unwrap();

    let count1 = cas.decrement_reference(&hash);
    assert_eq!(count1, 2);

    let count2 = cas.decrement_reference(&hash);
    assert_eq!(count2, 1);

    let count3 = cas.decrement_reference(&hash);
    assert_eq!(count3, 0);
}

#[test]
fn test_compression() {
    let config = CompressionConfig { algorithm: CompressionAlgorithm::Zstd, level: 3, min_size: 10, compress_binary: false };
    let mut cas = new_store(config);
    let mut files = Vec::new();

    let content = vec![b'a'; 1000];
    let hash = store(&mut cas, &mut files, &content);

    let retrieved = retrieve(&mut cas, &files, &hash);
    assert_eq!(retrieved, content);

    let stats = cas.stats();
    let ratio = stats.total_compressed_size as f64 / stats.total_uncompressed_size as f64;
    assert!(ratio < 1.0);
}

#[test]
fn cas_test_snapshot_creation() {
    let changes = [ChangeType::Added, ChangeType::Modified];
    let metadata = snapshot_metadata(Some("Test snapshot"), &changes);
    assert_eq!(metadata.total_changes, 2);
    assert_eq!(metadata.added_count, 1);
    assert_eq!(metadata.modified_count, 1);
    assert_eq!(metadata.description.as_deref(), Some("Test snapshot"));
}

#[test]
fn run_length_coding_round_trips() {
    let data: Vec<u8> = (0..600).map(|i| if i < 300 { 7 } else { (i % 3) as u8 }).collect();
    let packed = compress(CompressionAlgorithm::Gzip, &data);
    // 300 sevens are two runs: 255 and 45.
    assert_eq!(&packed[0..4], &[255, 7, 45, 7]);
    assert_eq!(decompress(CompressionAlgorithm::Gzip, &packed), data);
    assert_eq!(compress(CompressionAlgorithm::Uncompressed, &data), data);
    // Every algorithm but none uses the run-length coding both ways.
    let lz = compress(CompressionAlgorithm::Lz4, &data);
    assert_eq!(lz, packed);
    assert_eq!(decompress(CompressionAlgorithm::Lz4, &lz), data);
    assert!(compress(CompressionAlgorithm::Zstd, &[]).is_empty());
}

#[test]
fn garbage_collection_removes_unreferenced_objects() {
    let mut cas = new_store(CompressionConfig::default());
    let mut files = Vec::new();
    let keep = store(&mut cas, &mut files, b"keep");
    let drop = store(&mut cas, &mut files, b"drop");
    assert_eq!(cas.decrement_reference(&drop), 0);
    let collectable = cas.collectable();
    assert_eq!(collectable, vec![drop.clone()]);
    let mut gc = GcResult::default();
    for h in &collectable {
        if let Some(e) = cas.remove_object(h) {
            gc.deleted_files += 1;
            gc.freed_space += e.compressed_size;
        }
    }
    gc.collected_count = collectable.len();
    assert_eq!(gc.collected_count, 1);
    assert_eq!(gc.freed_space, 4);
    assert!(cas.contains(&keep));
    assert!(!cas.contains(&drop));
    assert_eq!(cas.object_count(), 1);
    assert_eq!(cas.stats().total_objects, 1);
}

#[test]
fn missing_objects_are_reported() {
    let mut cas = new_store(CompressionConfig::default());
    assert!(cas.locate("0xnone").is_err());
    assert!(cas.increment_reference("0xnone").is_err());
    assert_eq!(cas.decrement_reference("0xnone"), 0);
    assert_eq!(cas.get_reference_count("0xnone"), None);
    let m = SnapshotMetadata::default();
    assert_eq!(m.total_changes, 0);
}

#[test]
fn hashes_are_prefixed_sha256() {
    let h = compute_hash(b"abc");
    assert_eq!(h, "0xba7816bf8f01cfea414140de5dae2223b00361a396177a9cb410ff61f20015ad");
    let cas = new_store(CompressionConfig::default());
    assert_eq!(cas.storage_path(&h), PathBuf::from("/cas/ba").join(&h));
}

#[test]
fn equal_length_compression_reads_back_the_stored_bytes() {
    // "aabb" codes to [2, a, 2, b]: as long as the content, so the store
    // takes the stored bytes for uncompressed ones.
    let config = CompressionConfig { algorithm: CompressionAlgorithm::Zstd, level: 3, min_size: 1, compress_binary: false };
    let mut cas = new_store(config);
    let mut files = Vec::new();
    let hash = store(&mut cas, &mut files, b"aabb");
    assert_eq!(retrieve(&mut cas, &files, &hash), vec![2, b'a', 2, b'b']);
}
