use tokitai_context::optimization::compression::dictionary::{
    DictionaryCompressionConfig, DictionaryCompressor, DICT_PREFIX_MAX,
};

#[test]
fn test_dictionary_compression() {
    let config = DictionaryCompressionConfig::default();
    let mut compressor = DictionaryCompressor::new(config);

    let samples: Vec<Vec<u8>> = (0..50)
        .map(|i| {
            format!(
                r#"{{"type": "context", "id": {}, "content": "This is a sample context with some repeated patterns. It contains enough characters to exceed the minimum sample size requirement for dictionary training. Session ID: {}"}}"#,
                i, i
            )
            .into_bytes()
        })
        .collect();

    let dictionary = compressor.train_dictionary(&samples).unwrap();
    assert!(!dictionary.is_empty());
    compressor.set_dictionary(dictionary);

    let test_data = b"{\"type\": \"context\", \"id\": 999, \"content\": \"Test data with sufficient length for compression\"}";
    let compressed = compressor.compress(test_data).unwrap();

    assert!(compressed.len() <= test_data.len());

    let decompressed = compressor.decompress(&compressed).unwrap();
    assert_eq!(decompressed, test_data);
}

#[test]
fn test_dictionary_vs_standard() {
    let config = DictionaryCompressionConfig::default();
    let mut compressor = DictionaryCompressor::new(config.clone());

    let samples: Vec<Vec<u8>> = (0..100)
        .map(|i| {
            format!(
                r#"{{"session": "test", "message": {}, "text": "Common patterns in context data. This sample is designed to be large enough for dictionary training. Extra content added for size."}}"#,
                i
            )
            .into_bytes()
        })
        .collect();

    let dictionary = compressor.train_dictionary(&samples).unwrap();
    compressor.set_dictionary(dictionary);

    let test_data =
        b"{\"session\": \"new\", \"message\": 101, \"text\": \"Common patterns in context data. Extra content for size.\"}"
            .to_vec();

    let compressed_with_dict = compressor.compress(&test_data).unwrap();

    let compressed_standard = zstd::bulk::compress(&test_data, config.base_config.level as i32).unwrap();

    println!("Original size: {}", test_data.len());
    println!("With dictionary: {}", compressed_with_dict.len());
    println!("Standard: {}", compressed_standard.len());

    assert!(compressed_with_dict.len() <= compressed_standard.len() + 10);
}

#[test]
fn test_small_file_compression() {
    let config = DictionaryCompressionConfig::default();
    let mut compressor = DictionaryCompressor::new(config);

    let samples: Vec<Vec<u8>> = (0..50)
        .map(|i| format!("Small context data number {}. This sample is padded to exceed the minimum size requirement for dictionary training.", i).into_bytes())
        .collect();
    let dictionary = compressor.train_dictionary(&samples).unwrap();
    compressor.set_dictionary(dictionary);

    let small_data = b"Small context data number 999. Padded for size.".to_vec();
    let compressed = compressor.compress(&small_data).unwrap();
    let decompressed = compressor.decompress(&compressed).unwrap();

    assert_eq!(decompressed, small_data);
}

fn noise(n: usize, seed: u64) -> Vec<u8> {
    let mut x = seed;
    (0..n)
        .map(|_| {
            x = x.wrapping_mul(6364136223846793005).wrapping_add(1442695040888963407);
            (x >> 56) as u8
        })
        .collect()
}

fn long_text(n: usize) -> Vec<u8> {
    let mut v = Vec::new();
    for i in 0..n {
        v.extend_from_slice(format!("line {} of a longer context file with repeated words; ", i % 7).as_bytes());
    }
    v
}

#[test]
fn dictionary_frames_round_trip() {
    let mut compressor = DictionaryCompressor::new(DictionaryCompressionConfig::default());
    let dictionary = noise(5000, 1);
    compressor.set_dictionary(dictionary.clone());
    let data = noise(2000, 2);
    let compressed = compressor.compress(&data).unwrap();
    // Header: the number of dictionary bytes used, little-endian.
    assert_eq!(&compressed[..4], &(DICT_PREFIX_MAX as u32).to_le_bytes());
    let mut framed = dictionary[..DICT_PREFIX_MAX].to_vec();
    framed.extend_from_slice(&data);
    assert_eq!(&compressed[4..], zstd::bulk::compress(&framed, 3).unwrap().as_slice());
    let s = compressor.stats();
    assert_eq!(s.dictionary_compress_count, 1);
    assert_eq!(s.dictionary_uncompressed_size, data.len() as u64);
    assert_eq!(s.dictionary_compressed_size, compressed.len() as u64);
    assert_eq!(s.standard_compress_count, 0);
    assert_eq!(compressor.decompress(&compressed).unwrap(), data);
}

#[test]
fn standard_compression_round_trip() {
    let mut compressor = DictionaryCompressor::new(DictionaryCompressionConfig::default());
    assert!(compressor.dictionary().is_none());
    let data = noise(2000, 3);
    let compressed = compressor.compress(&data).unwrap();
    assert_eq!(compressed, zstd::bulk::compress(&data, 3).unwrap());
    let s = compressor.stats();
    assert_eq!(s.standard_compress_count, 1);
    assert_eq!(s.standard_uncompressed_size, data.len() as u64);
    assert_eq!(s.standard_compressed_size, compressed.len() as u64);
    assert_eq!(s.dictionary_compress_count, 0);
    assert_eq!(compressor.decompress(&compressed).unwrap(), data);
}

#[test]
fn short_contents_pass_through() {
    let mut compressor = DictionaryCompressor::new(DictionaryCompressionConfig::default());
    let data = vec![7u8; 255];
    assert_eq!(compressor.compress(&data).unwrap(), data);
    assert_eq!(compressor.decompress(&data).unwrap(), data);
    assert_eq!(compressor.stats().standard_compress_count, 0);
    assert_eq!(compressor.compress_with_dict(&data, b"dict").unwrap(), data);
}

#[test]
fn short_frames_pass_through() {
    let compressor = DictionaryCompressor::new(DictionaryCompressionConfig::default());
    assert_eq!(compressor.decompress_with_dict(&[1, 2, 3], b"").unwrap(), vec![1, 2, 3]);
}

#[test]
fn corrupt_data_fails_to_decompress() {
    let compressor = DictionaryCompressor::new(DictionaryCompressionConfig::default());
    let garbage = vec![0u8; 300];
    let e = compressor.decompress(&garbage).unwrap_err();
    assert!(e.starts_with("Decompression failed: "));
    let e = compressor.decompress_with_dict(&garbage, b"").unwrap_err();
    assert!(e.starts_with("Decompression failed: "));
}

#[test]
fn training_needs_samples_in_range() {
    let mut compressor = DictionaryCompressor::new(DictionaryCompressionConfig::default());
    assert_eq!(compressor.train_dictionary(&[]).unwrap_err(), "No training samples provided");
    assert_eq!(
        compressor.train_dictionary(&[vec![1u8; 10]]).unwrap_err(),
        "No samples in valid size range [100, 65536]"
    );
    assert_eq!(compressor.stats().dictionary_train_count, 0);
}

#[test]
fn trained_dictionary_ranks_windows_by_frequency() {
    let mut compressor = DictionaryCompressor::new(DictionaryCompressionConfig::default());
    // "abcd" repeated, then "a": windows start before len - 4, so "abcd"
    // is counted 25 times and "bcda", "cdab", "dabc" 24 times each; the
    // short sample lies outside the size range and is not counted.
    let mut sample: Vec<u8> = b"abcd".repeat(25);
    sample.push(b'a');
    let d = compressor.train_dictionary(&[sample, vec![0u8; 50]]).unwrap();
    assert_eq!(d.len(), 16);
    assert_eq!(&d[..4], b"abcd");
    let mut rest: Vec<&[u8]> = d[4..].chunks(4).collect();
    rest.sort();
    assert_eq!(rest, vec![&b"bcda"[..], &b"cdab"[..], &b"dabc"[..]]);
    assert_eq!(compressor.stats().dictionary_train_count, 1);
    assert!(compressor.dictionary().is_none());
}

#[test]
fn enough_samples_train_and_set_a_dictionary() {
    let mut config = DictionaryCompressionConfig::default();
    config.training_samples = 3;
    let mut compressor = DictionaryCompressor::new(config);
    compressor.add_training_sample(vec![1u8; 10]);
    compressor.add_training_sample(long_text(3));
    compressor.add_training_sample(long_text(4));
    assert!(compressor.dictionary().is_none());
    compressor.add_training_sample(long_text(5));
    assert!(compressor.dictionary().is_some());
    assert_eq!(compressor.stats().dictionary_train_count, 1);
}
