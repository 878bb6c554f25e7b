use std::hash::Hasher;
use tokitai_context::error::ContextError;
use tokitai_context::file_kv::segment::{
    check_segment_header, encode_entry, encode_header, read_entry_at, read_value_at, scan_from, SegmentStats,
    SEGMENT_MAGIC, SEGMENT_VERSION,
};

fn segment_with(entries: &[(&str, &[u8])]) -> (Vec<u8>, Vec<u64>) {
    let mut data = encode_header();
    let mut offsets = Vec::new();
    for (k, v) in entries {
        offsets.push(data.len() as u64);
        let (bytes, _) = encode_entry(k, v);
        data.extend_from_slice(&bytes);
    }
    (data, offsets)
}

fn crc(parts: &[&[u8]]) -> u32 {
    let mut hasher = crc32c::Crc32cHasher::default();
    for p in parts {
        hasher.write(p);
    }
    hasher.finish() as u32
}

#[test]
fn test_segment_file_append_read() {
    let (data, offsets) = segment_with(&[("key1", b"value1")]);
    let offset = offsets[0];
    let (_, checksum) = encode_entry("key1", b"value1");

    assert!(offset > 0);
    assert!(checksum > 0);

    let value = read_value_at(&data, offset).unwrap();
    assert_eq!(value, b"value1");
    assert_eq!(checksum, crc(&[b"key1", b"value1"]));
}

#[test]
fn test_segment_file_read_entry() {
    let (data, offsets) = segment_with(&[("test_key", b"test_value")]);

    let (key, value, checksum) = read_entry_at(&data, offsets[0]).unwrap();

    assert_eq!(key, "test_key");
    assert_eq!(value, b"test_value");
    assert_eq!(checksum, crc(&[b"test_key", b"test_value"]));
}

#[test]
fn test_segment_read_at_out_of_bounds() {
    let (data, offsets) = segment_with(&[("key1", b"value1")]);

    let result = read_value_at(&data, offsets[0] + 10000);
    match result {
        Err(ContextError::OperationFailed(m)) => {
            assert!(m.contains("out of bounds"));
            assert_eq!(m, format!("Read offset {} out of bounds (file size: {})", offsets[0] + 10000, data.len()));
        }
        other => panic!("unexpected {:?}", other),
    }
}

#[test]
fn test_segment_scan_from_bounds() {
    let (data, _) = segment_with(&[("key1", b"value1")]);
    assert_eq!(scan_from(&data, 10000, "key1"), None);
}

#[test]
fn corrupted_entries_are_refused() {
    let (data, offsets) = segment_with(&[("key1", b"value1")]);
    let truncated = &data[..(offsets[0] + 2) as usize];
    assert!(read_entry_at(truncated, offsets[0]).is_err());
    let mut flipped = data.clone();
    let n = flipped.len();
    flipped[n - 5] ^= 1;
    match read_entry_at(&flipped, offsets[0]) {
        Err(ContextError::OperationFailed(m)) => assert!(m.starts_with("Checksum mismatch at offset 8")),
        other => panic!("unexpected {:?}", other),
    }
}

#[test]
fn value_read_errors_name_the_position() {
    let (data, offsets) = segment_with(&[("key1", b"value1")]);
    let cut = &data[..(offsets[0] + 10) as usize];
    match read_value_at(cut, offsets[0]) {
        Err(ContextError::OperationFailed(m)) => {
            assert_eq!(m, "Invalid offset: not enough data for value length (pos=16, mmap_size=18)")
        }
        other => panic!("unexpected {:?}", other),
    }
}

#[test]
fn scan_finds_a_key_from_the_start_and_stops_after_it() {
    let (data, offsets) = segment_with(&[("a", b"1"), ("b", b"22"), ("d", b"4")]);
    let found = scan_from(&data, offsets[0], "b").unwrap();
    assert_eq!(found.0, "b");
    assert_eq!(found.1, b"22");
    assert_eq!(found.2, offsets[0]);
    assert_eq!(found.3, crc(&[b"b", b"22"]));
    // "c" sorts before "d": the scan stops there.
    assert_eq!(scan_from(&data, offsets[0], "c"), None);
}

#[test]
fn headers_are_checked_before_opening() {
    assert!(check_segment_header(&[]).is_ok());
    assert!(check_segment_header(&encode_header()).is_ok());
    match check_segment_header(&SEGMENT_MAGIC.to_le_bytes()) {
        Err(ContextError::OperationFailed(m)) => {
            assert!(m.contains("too small"));
            assert_eq!(m, "Segment file too small: 4 bytes (minimum: 8 bytes for header)");
        }
        other => panic!("unexpected {:?}", other),
    }
    let mut bad_magic = 0xDEADBEEFu32.to_le_bytes().to_vec();
    bad_magic.extend_from_slice(&SEGMENT_VERSION.to_le_bytes());
    match check_segment_header(&bad_magic) {
        Err(ContextError::OperationFailed(m)) => {
            assert!(m.contains("Invalid segment file magic"));
            assert_eq!(m, "Invalid segment file magic: expected 54435347, got DEADBEEF");
        }
        other => panic!("unexpected {:?}", other),
    }
    let mut bad_version = SEGMENT_MAGIC.to_le_bytes().to_vec();
    bad_version.extend_from_slice(&99u32.to_le_bytes());
    match check_segment_header(&bad_version) {
        Err(ContextError::OperationFailed(m)) => {
            assert!(m.contains("Unsupported segment version"));
            assert_eq!(m, "Unsupported segment version: expected 1, got 99");
        }
        other => panic!("unexpected {:?}", other),
    }
}

#[test]
fn entry_bytes_follow_the_layout() {
    let (bytes, checksum) = encode_entry("ab", b"xyz");
    let mut expected = Vec::new();
    expected.extend_from_slice(&2u32.to_le_bytes());
    expected.extend_from_slice(b"ab");
    expected.extend_from_slice(&3u32.to_le_bytes());
    expected.extend_from_slice(b"xyz");
    expected.extend_from_slice(&checksum.to_le_bytes());
    assert_eq!(bytes, expected);
    let stats = SegmentStats { id: 1, size_bytes: 8 + bytes.len() as u64, entry_count: 1, path: "s".to_string() };
    assert_eq!(stats.size_bytes, 25);
}

fn bitwise_crc32c(data: &[u8]) -> u32 {
    let mut c: u32 = 0xffff_ffff;
    for &b in data {
        c ^= b as u32;
        for _ in 0..8 {
            c = if c & 1 == 1 { (c >> 1) ^ 0x82F6_3B78 } else { c >> 1 };
        }
    }
    c ^ 0xffff_ffff
}

#[test]
fn entry_checksums_are_crc32c() {
    let (_, checksum) = encode_entry("12345", b"6789");
    assert_eq!(checksum, 0xE306_9283);
    let value: Vec<u8> = (0..1000u32).map(|i| (i * 7 + 3) as u8).collect();
    let (_, checksum) = encode_entry("some key", &value);
    let mut all = b"some key".to_vec();
    all.extend_from_slice(&value);
    assert_eq!(checksum, bitwise_crc32c(&all));
}
