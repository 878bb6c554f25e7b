//! Compression of small contents with a dictionary: the dictionary's first
//! bytes are compressed in front of the data, and a four-byte header says
//! how many, so that decompression can strip them again. Without a
//! dictionary, contents are compressed by zstd alone.
use vstd::prelude::*;
use vstd::string::StringExecFns;
use crate::optimization::dedup::cas::{CompressionAlgorithm, CompressionConfig};
use crate::file_kv::types::{le_bytes_u32, lemma_u32_round_trip, u32_from_le, u32_le};
use crate::digest::sha256_hex;
use crate::clock::unix_millis;
use crate::text::{decimal, decimal_text};
use std::collections::HashMap;

verus! {

broadcast use vstd::std_specs::hash::group_hash_axioms;

/// Largest decompressed size accepted, in bytes (10 MiB).
pub const MAX_DECOMPRESSED: usize = 10485760;

/// Most dictionary bytes put in front of the data.
pub const DICT_PREFIX_MAX: usize = 4096;

/// What `zstd::bulk::compress` gives for `data` at `level`.
pub uninterp spec fn zstd_compressed(data: Seq<u8>, level: i32) -> Seq<u8>;

/// What `zstd::bulk::decompress` gives for `data` with room for
/// `capacity` bytes.
pub uninterp spec fn zstd_decompressed(data: Seq<u8>, capacity: usize) -> Seq<u8>;

/// `zstd::bulk::compress(data, level)`. Claimed: a successful result is
/// `zstd_compressed(data, level)`, a function of the two arguments. When it
/// fails is not stated; the error is the I/O error's text.
#[verifier::external_body]
fn zstd_compress(data: &[u8], level: i32) -> (r: Result<Vec<u8>, String>)
    ensures
        r matches Ok(c) ==> c@ == zstd_compressed(data@, level),
{
    match zstd::bulk::compress(data, level) {
        Ok(c) => Ok(c),
        Err(e) => Err(e.to_string()),
    }
}

/// `zstd::bulk::decompress(data, capacity)`. Claimed: a successful result
/// is `zstd_decompressed(data, capacity)`; and, zstd being lossless, where
/// `data` is what compression of `x` at some level gave and `x` has at most
/// `capacity` bytes, the call succeeds with `x`. When it fails otherwise is
/// not stated; the error is the I/O error's text.
#[verifier::external_body]
fn zstd_decompress(data: &[u8], capacity: usize) -> (r: Result<Vec<u8>, String>)
    ensures
        r matches Ok(d) ==> d@ == zstd_decompressed(data@, capacity),
        r matches Ok(d) ==> forall|x: Seq<u8>, level: i32| #[trigger] zstd_compressed(x, level) == data@ ==> d@ == x,
        r is Ok || !exists|x: Seq<u8>, level: i32| #[trigger] zstd_compressed(x, level) == data@ && x.len() <= capacity,
{
    match zstd::bulk::decompress(data, capacity) {
        Ok(d) => Ok(d),
        Err(e) => Err(e.to_string()),
    }
}

/// The dictionary bytes put in front of the data: at most the first
/// `DICT_PREFIX_MAX`.
pub open spec fn dict_prefix(d: Seq<u8>) -> Seq<u8> {
    if d.len() > DICT_PREFIX_MAX {
        d.take(DICT_PREFIX_MAX as int)
    } else {
        d
    }
}

/// The framed compression of `data` with dictionary `d` at `level`: the
/// prefix length as four little-endian bytes, then the compression of the
/// prefix followed by the data.
pub open spec fn dict_frame(d: Seq<u8>, data: Seq<u8>, level: i32) -> Seq<u8> {
    le_bytes_u32(dict_prefix(d).len() as u32) + zstd_compressed(dict_prefix(d) + data, level)
}

/// `d` without its first `k` bytes where it is longer than `k`, else `d`.
pub open spec fn strip_prefix(d: Seq<u8>, k: int) -> Seq<u8> {
    if d.len() > k {
        d.skip(k)
    } else {
        d
    }
}

/// What reading a framed compression `data` of at least four bytes gives:
/// the decompression of what follows the header, without as many leading
/// bytes as the header says where it is longer.
pub open spec fn dict_unframed(data: Seq<u8>) -> Seq<u8> {
    strip_prefix(zstd_decompressed(data.skip(4), MAX_DECOMPRESSED), u32_from_le(data, 0) as int)
}

/// `text` behind `Decompression failed: `.
pub open spec fn decompression_failure(text: Seq<char>) -> Seq<char> {
    "Decompression failed: "@ + text
}

/// A counter raised by `n`, stopping at `u64::MAX`.
pub open spec fn raised(c: u64, n: int) -> u64 {
    if c + n > u64::MAX {
        u64::MAX
    } else {
        (c + n) as u64
    }
}

fn raise(c: u64, n: usize) -> (r: u64)
    ensures
        r == raised(c, n as int),
{
    c.saturating_add(n as u64)
}

fn failure_text(e: &str) -> (s: String)
    ensures
        s@ == decompression_failure(e@),
{
    let mut s = String::from_str("Decompression failed: ");
    s.append(e);
    s
}

/// The bytes of `d` from `k` on.
fn tail_from(d: &Vec<u8>, k: usize) -> (r: Vec<u8>)
    requires
        k <= d@.len(),
    ensures
        r@ == d@.skip(k as int),
{
    let mut r: Vec<u8> = Vec::new();
    let mut j: usize = k;
    while j < d.len()
        invariant
            k <= j <= d@.len(),
            r@ == d@.subrange(k as int, j as int),
        decreases d@.len() - j,
    {
        r.push(d[j]);
        assert(d@.subrange(k as int, j + 1) =~= d@.subrange(k as int, j as int).push(d@[j as int]));
        j += 1;
    }
    assert(d@.subrange(k as int, j as int) =~= d@.skip(k as int));
    r
}

/// The bytes of `s` as a vector.
fn bytes_of(s: &[u8]) -> (r: Vec<u8>)
    ensures
        r@ == s@,
{
    let mut r: Vec<u8> = Vec::new();
    let mut j: usize = 0;
    while j < s.len()
        invariant
            j <= s@.len(),
            r@ == s@.take(j as int),
        decreases s@.len() - j,
    {
        r.push(s[j]);
        assert(s@.take(j + 1) =~= s@.take(j as int).push(s@[j as int]));
        j += 1;
    }
    assert(s@.take(j as int) =~= s@);
    r
}

/// Appends the first `n` bytes of `src` to `dst`.
fn append_first(dst: &mut Vec<u8>, src: &[u8], n: usize)
    requires
        n <= src@.len(),
    ensures
        final(dst)@ == old(dst)@ + src@.take(n as int),
{
    let mut i: usize = 0;
    while i < n
        invariant
            i <= n <= src@.len(),
            dst@ == old(dst)@ + src@.take(i as int),
        decreases n - i,
    {
        dst.push(src[i]);
        assert(src@.take(i + 1) =~= src@.take(i as int).push(src@[i as int]));
        i += 1;
    }
}

/// Settings of the dictionary compressor.
#[derive(Debug, Clone)]
pub struct DictionaryCompressionConfig {
    /// Compression settings: the level and the smallest content compressed
    pub base_config: CompressionConfig,
    /// Whether the dictionary is used
    pub enable_dictionary: bool,
    /// Dictionary size (bytes)
    pub dictionary_size: usize,
    /// Samples gathered before a dictionary is trained
    pub training_samples: usize,
    /// Smallest sample kept (bytes)
    pub min_sample_size: usize,
    /// Largest sample kept (bytes)
    pub max_sample_size: usize,
    /// Share of new samples, in percent of `training_samples`, at which a
    /// trained dictionary is trained again
    pub dictionary_update_percent: u64,
}

impl Default for DictionaryCompressionConfig {
    fn default() -> (c: Self)
        ensures
            c.base_config.algorithm == CompressionAlgorithm::Zstd,
            c.base_config.level == 3,
            c.base_config.min_size == 256,
            !c.base_config.compress_binary,
            c.enable_dictionary,
            c.dictionary_size == 16384,
            c.training_samples == 100,
            c.min_sample_size == 100,
            c.max_sample_size == 65536,
            c.dictionary_update_percent == 20,
    {
        DictionaryCompressionConfig {
            base_config: CompressionConfig {
                algorithm: CompressionAlgorithm::Zstd,
                level: 3,
                min_size: 256,
                compress_binary: false,
            },
            enable_dictionary: true,
            dictionary_size: 16384,
            training_samples: 100,
            min_sample_size: 100,
            max_sample_size: 65536,
            dictionary_update_percent: 20,
        }
    }
}

/// The numbers that the dictionary compressor keeps.
#[derive(Debug, Clone, Copy)]
pub struct DictionaryStats {
    /// Compressions with the dictionary
    pub dictionary_compress_count: u64,
    /// Decompressions with the dictionary
    pub dictionary_decompress_count: u64,
    /// Compressions without a dictionary
    pub standard_compress_count: u64,
    /// Bytes compressed with the dictionary
    pub dictionary_uncompressed_size: u64,
    /// Bytes those compressions gave
    pub dictionary_compressed_size: u64,
    /// Bytes compressed without a dictionary
    pub standard_uncompressed_size: u64,
    /// Bytes those compressions gave
    pub standard_compressed_size: u64,
    /// Dictionary trainings
    pub dictionary_train_count: u64,
}

impl DictionaryStats {
    /// All counters zero.
    pub open spec fn zero() -> DictionaryStats {
        DictionaryStats {
            dictionary_compress_count: 0,
            dictionary_decompress_count: 0,
            standard_compress_count: 0,
            dictionary_uncompressed_size: 0,
            dictionary_compressed_size: 0,
            standard_uncompressed_size: 0,
            standard_compressed_size: 0,
            dictionary_train_count: 0,
        }
    }
}

impl Default for DictionaryStats {
    fn default() -> (s: Self)
        ensures
            s.dictionary_compress_count == 0 && s.dictionary_decompress_count == 0
                && s.standard_compress_count == 0 && s.dictionary_uncompressed_size == 0
                && s.dictionary_compressed_size == 0 && s.standard_uncompressed_size == 0
                && s.standard_compressed_size == 0 && s.dictionary_train_count == 0,
    {
        DictionaryStats {
            dictionary_compress_count: 0,
            dictionary_decompress_count: 0,
            standard_compress_count: 0,
            dictionary_uncompressed_size: 0,
            dictionary_compressed_size: 0,
            standard_uncompressed_size: 0,
            standard_compressed_size: 0,
            dictionary_train_count: 0,
        }
    }
}


/// Whether the stats `s1` follow from `s0` by a compression of `data` at
/// `level` without a dictionary that gave `r`: one more such compression,
/// `data`'s length added to the bytes compressed, and the result's length
/// to the bytes they gave; a successful result is zstd's compression.
pub open spec fn standard_compression(
    s0: DictionaryStats,
    s1: DictionaryStats,
    data: Seq<u8>,
    level: i32,
    r: Result<Vec<u8>, String>,
) -> bool {
    &&& s1.standard_compress_count == raised(s0.standard_compress_count, 1)
    &&& s1.standard_uncompressed_size == raised(s0.standard_uncompressed_size, data.len() as int)
    &&& match r {
        Ok(c) => c@ == zstd_compressed(data, level) && s1.standard_compressed_size == raised(
            s0.standard_compressed_size,
            c@.len() as int,
        ),
        Err(_) => s1.standard_compressed_size == s0.standard_compressed_size,
    }
}

/// Whether `s1` keeps the dictionary counters of `s0`.
pub open spec fn same_dictionary_counts(s0: DictionaryStats, s1: DictionaryStats) -> bool {
    &&& s1.dictionary_compress_count == s0.dictionary_compress_count
    &&& s1.dictionary_decompress_count == s0.dictionary_decompress_count
    &&& s1.dictionary_uncompressed_size == s0.dictionary_uncompressed_size
    &&& s1.dictionary_compressed_size == s0.dictionary_compressed_size
    &&& s1.dictionary_train_count == s0.dictionary_train_count
}

/// Whether `s1` keeps the counters of compressions without a dictionary of
/// `s0`.
pub open spec fn same_standard_counts(s0: DictionaryStats, s1: DictionaryStats) -> bool {
    &&& s1.standard_compress_count == s0.standard_compress_count
    &&& s1.standard_uncompressed_size == s0.standard_uncompressed_size
    &&& s1.standard_compressed_size == s0.standard_compressed_size
}

/// Compresses contents, with a dictionary where one is set and enabled.
pub struct DictionaryCompressor {
    config: DictionaryCompressionConfig,
    dictionary: Option<Vec<u8>>,
    dictionary_metadata: Option<DictionaryMetadata>,
    training_samples: Vec<Vec<u8>>,
    stats: DictionaryStats,
}

/// What is known of a trained dictionary.
#[derive(Debug, Clone)]
pub struct DictionaryMetadata {
    /// Hex SHA-256 of the dictionary
    pub dictionary_hash: String,
    /// Training time (milliseconds since the Unix epoch)
    pub created_at_millis: u64,
    /// Samples trained on
    pub training_samples: usize,
    /// Their total size (bytes)
    pub total_sample_size: u64,
    /// For each sample that compressed, its compressed and its own length
    pub compressed_lengths: Vec<(usize, usize)>,
}

impl DictionaryCompressor {
    /// The settings.
    pub closed spec fn settings(&self) -> DictionaryCompressionConfig {
        self.config
    }

    /// Smallest content compressed.
    pub open spec fn min_size(&self) -> usize {
        self.settings().base_config.min_size
    }

    /// The zstd level.
    pub open spec fn level(&self) -> i32 {
        self.settings().base_config.level as i32
    }

    /// The dictionary's bytes, where one is set.
    pub closed spec fn dict(&self) -> Option<Seq<u8>> {
        match self.dictionary {
            Some(d) => Some(d@),
            None => None,
        }
    }

    /// The dictionary's bytes; empty where none is set.
    pub open spec fn dict_bytes(&self) -> Seq<u8> {
        match self.dict() {
            Some(d) => d,
            None => Seq::empty(),
        }
    }

    /// Whether compression goes through the dictionary: one is set and
    /// the settings enable it.
    pub open spec fn uses_dictionary(&self) -> bool {
        self.settings().enable_dictionary && self.dict() is Some
    }

    /// The counters.
    pub closed spec fn counters(&self) -> DictionaryStats {
        self.stats
    }

    /// The samples gathered for the next training.
    pub closed spec fn pending_samples(&self) -> Seq<Seq<u8>> {
        self.training_samples@.map_values(|s: Vec<u8>| s@)
    }

    /// Whether a dictionary has been trained.
    pub closed spec fn trained(&self) -> bool {
        self.dictionary_metadata is Some
    }

    /// A compressor with the settings `config`, no dictionary, no samples
    /// and zero counters.
    pub fn new(config: DictionaryCompressionConfig) -> (c: Self)
        ensures
            c.settings() == config,
            c.dict() is None,
            !c.trained(),
            c.pending_samples() == Seq::<Seq<u8>>::empty(),
            c.counters() == DictionaryStats::zero(),
    {
        let c = DictionaryCompressor {
            config,
            dictionary: None,
            dictionary_metadata: None,
            training_samples: Vec::new(),
            stats: DictionaryStats::default(),
        };
        proof {
            assert(c.pending_samples() =~= Seq::<Seq<u8>>::empty());
        }
        c
    }

    /// Compresses `data` with `dictionary`: contents shorter than the
    /// minimum size come back as they are; others become the number of
    /// dictionary bytes used (at most `DICT_PREFIX_MAX`) as four
    /// little-endian bytes, then zstd's compression of those dictionary
    /// bytes followed by `data`.
    pub fn compress_with_dict(&self, data: &[u8], dictionary: &[u8]) -> (r: Result<Vec<u8>, String>)
        ensures
            data@.len() < self.min_size() ==> (r matches Ok(c) && c@ == data@),
            data@.len() >= self.min_size() ==> (r matches Ok(c) ==> c@ == dict_frame(dictionary@, data@, self.level())),
    {
        if data.len() < self.config.base_config.min_size {
            return Ok(bytes_of(data));
        }
        let n: usize = if dictionary.len() > DICT_PREFIX_MAX { DICT_PREFIX_MAX } else { dictionary.len() };
        let mut with_dict: Vec<u8> = Vec::new();
        append_first(&mut with_dict, dictionary, n);
        append_first(&mut with_dict, data, data.len());
        proof {
            assert(dictionary@.take(n as int) =~= dict_prefix(dictionary@));
            assert(data@.take(data@.len() as int) =~= data@);
            assert(with_dict@ =~= dict_prefix(dictionary@) + data@);
        }
        let compressed = match zstd_compress(with_dict.as_slice(), self.config.base_config.level as i32) {
            Ok(c) => c,
            Err(e) => {
                return Err(e);
            },
        };
        let header = u32_le(n as u32);
        let mut result: Vec<u8> = vec![header[0], header[1], header[2], header[3]];
        append_first(&mut result, compressed.as_slice(), compressed.len());
        proof {
            assert(compressed@.take(compressed@.len() as int) =~= compressed@);
            assert(result@ =~= dict_frame(dictionary@, data@, self.level()));
        }
        Ok(result)
    }

    /// Reads a framed compression: data shorter than four bytes comes back
    /// as it is; otherwise the four-byte header gives the number of
    /// dictionary bytes, the rest is decompressed (at most
    /// `MAX_DECOMPRESSED` bytes), and that many leading bytes are dropped
    /// where the result is longer. A framed compression of non-empty data
    /// that fits gives the data back.
    pub fn decompress_with_dict(&self, data: &[u8], dictionary: &[u8]) -> (r: Result<Vec<u8>, String>)
        ensures
            data@.len() < 4 ==> (r matches Ok(o) && o@ == data@),
            data@.len() >= 4 ==> (r matches Ok(o) ==> o@ == dict_unframed(data@)),
            r matches Err(e) ==> exists|t: Seq<char>| e@ == decompression_failure(t),
            forall|d: Seq<u8>, x: Seq<u8>, level: i32|
                #[trigger] dict_frame(d, x, level) == data@ && x.len() > 0 && dict_prefix(d).len() + x.len()
                    <= MAX_DECOMPRESSED ==> (r matches Ok(o) && o@ == x),
    {
        if data.len() < 4 {
            let r = Ok(bytes_of(data));
            proof {
                assert forall|d: Seq<u8>, x: Seq<u8>, level: i32|
                    #[trigger] dict_frame(d, x, level) == data@ && x.len() > 0 && dict_prefix(d).len() + x.len()
                        <= MAX_DECOMPRESSED implies (r matches Ok(o) && o@ == x) by {
                    assert(dict_frame(d, x, level).len() >= 4);
                }
            }
            return r;
        }
        let dict_len = (data[0] as u32) | ((data[1] as u32) << 8u32) | ((data[2] as u32) << 16u32) | ((data[3] as u32) << 24u32);
        let rest = tail_from_slice(data, 4);
        let r = match zstd_decompress(rest.as_slice(), MAX_DECOMPRESSED) {
            Ok(d) => {
                if d.len() > dict_len as usize {
                    Ok(tail_from(&d, dict_len as usize))
                } else {
                    Ok(d)
                }
            },
            Err(e) => Err(failure_text(e.as_str())),
        };
        proof {
            assert(dict_len == u32_from_le(data@, 0));
            assert forall|d: Seq<u8>, x: Seq<u8>, level: i32|
                #[trigger] dict_frame(d, x, level) == data@ && x.len() > 0 && dict_prefix(d).len() + x.len()
                    <= MAX_DECOMPRESSED implies (r matches Ok(o) && o@ == x) by {
                let p = dict_prefix(d);
                let h = le_bytes_u32(p.len() as u32);
                assert(data@.skip(4) =~= zstd_compressed(p + x, level));
                assert(zstd_compressed(p + x, level) == rest@);
                lemma_u32_round_trip(p.len() as u32);
                assert(data@[0] == h[0] && data@[1] == h[1] && data@[2] == h[2] && data@[3] == h[3]);
                assert(u32_from_le(data@, 0) == u32_from_le(h, 0));
                assert((p + x).skip(p.len() as int) =~= x);
            }
        }
        r
    }

    /// Compresses `data`. Contents shorter than the minimum size come back
    /// as they are, with the counters unchanged. Otherwise, where the
    /// dictionary is in use, the dictionary counters count the attempt and
    /// a framed compression with the dictionary is returned; where that
    /// fails, or no dictionary is in use, zstd compresses the data alone
    /// and the standard counters count it.
    pub fn compress(&mut self, data: &[u8]) -> (r: Result<Vec<u8>, String>)
        ensures
            final(self).settings() == old(self).settings(),
            final(self).dict() == old(self).dict(),
            final(self).trained() == old(self).trained(),
            final(self).pending_samples() == old(self).pending_samples(),
            data@.len() < old(self).min_size() ==> (r matches Ok(c) && c@ == data@) && final(self).counters()
                == old(self).counters(),
            data@.len() >= old(self).min_size() && !old(self).uses_dictionary() ==> same_dictionary_counts(
                old(self).counters(),
                final(self).counters(),
            ) && standard_compression(old(self).counters(), final(self).counters(), data@, old(self).level(), r),
            data@.len() >= old(self).min_size() && old(self).uses_dictionary() ==> {
                let s0 = old(self).counters();
                let s1 = final(self).counters();
                &&& s1.dictionary_compress_count == raised(s0.dictionary_compress_count, 1)
                &&& s1.dictionary_uncompressed_size == raised(s0.dictionary_uncompressed_size, data@.len() as int)
                &&& s1.dictionary_decompress_count == s0.dictionary_decompress_count
                &&& s1.dictionary_train_count == s0.dictionary_train_count
                &&& ((r matches Ok(c) && c@ == dict_frame(old(self).dict_bytes(), data@, old(self).level())
                    && s1.dictionary_compressed_size == raised(s0.dictionary_compressed_size, c@.len() as int)
                    && same_standard_counts(s0, s1)) || (s1.dictionary_compressed_size == s0.dictionary_compressed_size
                    && standard_compression(s0, s1, data@, old(self).level(), r)))
            },
    {
        if data.len() < self.config.base_config.min_size {
            return Ok(bytes_of(data));
        }
        if self.config.enable_dictionary {
            let attempt = match &self.dictionary {
                Some(d) => Some(self.compress_with_dict(data, d.as_slice())),
                None => None,
            };
            match attempt {
                Some(result) => {
                    self.stats.dictionary_compress_count = raise(self.stats.dictionary_compress_count, 1);
                    self.stats.dictionary_uncompressed_size = raise(self.stats.dictionary_uncompressed_size, data.len());
                    match result {
                        Ok(c) => {
                            self.stats.dictionary_compressed_size = raise(self.stats.dictionary_compressed_size, c.len());
                            return Ok(c);
                        },
                        Err(_) => {},
                    }
                },
                None => {},
            }
        }
        self.stats.standard_compress_count = raise(self.stats.standard_compress_count, 1);
        self.stats.standard_uncompressed_size = raise(self.stats.standard_uncompressed_size, data.len());
        match zstd_compress(data, self.config.base_config.level as i32) {
            Ok(c) => {
                self.stats.standard_compressed_size = raise(self.stats.standard_compressed_size, c.len());
                Ok(c)
            },
            Err(e) => Err(e),
        }
    }

    /// Decompresses `data`. Contents shorter than the minimum size come
    /// back as they are. Otherwise, where the dictionary is in use, a
    /// non-empty result of reading `data` as a framed compression is
    /// returned; else zstd decompresses `data` (at most `MAX_DECOMPRESSED`
    /// bytes). What `compress` gave back, at least the minimum size long,
    /// decompresses to the data again with the same dictionary setting.
    pub fn decompress(&self, data: &[u8]) -> (r: Result<Vec<u8>, String>)
        ensures
            data@.len() < self.min_size() ==> (r matches Ok(o) && o@ == data@),
            data@.len() >= self.min_size() ==> (r matches Ok(o) ==> (self.uses_dictionary() && data@.len() >= 4
                && o@ == dict_unframed(data@) && o@.len() > 0) || (self.uses_dictionary() && data@.len() < 4
                && o@ == data@) || o@ == zstd_decompressed(data@, MAX_DECOMPRESSED)),
            data@.len() >= self.min_size() ==> (r matches Err(e) ==> exists|t: Seq<char>| e@ == decompression_failure(t)),
            data@.len() >= self.min_size() && !self.uses_dictionary() ==> forall|x: Seq<u8>|
                #[trigger] zstd_compressed(x, self.level()) == data@ && x.len() <= MAX_DECOMPRESSED ==> (r matches Ok(o)
                    && o@ == x),
            data@.len() >= self.min_size() && self.uses_dictionary() ==> forall|x: Seq<u8>|
                #[trigger] dict_frame(self.dict_bytes(), x, self.level()) == data@ && x.len() > 0 && dict_prefix(
                    self.dict_bytes(),
                ).len() + x.len() <= MAX_DECOMPRESSED ==> (r matches Ok(o) && o@ == x),
    {
        if data.len() < self.config.base_config.min_size {
            return Ok(bytes_of(data));
        }
        if self.config.enable_dictionary {
            match &self.dictionary {
                Some(d) => {
                    match self.decompress_with_dict(data, d.as_slice()) {
                        Ok(res) => {
                            if res.len() > 0 || data.len() == 0 {
                                return Ok(res);
                            }
                        },
                        Err(_) => {},
                    }
                },
                None => {},
            }
        }
        let r = match zstd_decompress(data, MAX_DECOMPRESSED) {
            Ok(o) => Ok(o),
            Err(e) => Err(failure_text(e.as_str())),
        };
        proof {
            if !self.uses_dictionary() {
                assert forall|x: Seq<u8>|
                    #[trigger] zstd_compressed(x, self.level()) == data@ && x.len() <= MAX_DECOMPRESSED implies (r matches Ok(o)
                        && o@ == x) by {
                    assert(zstd_compressed(x, self.level()) == data@);
                }
            }
        }
        r
    }

    /// Trains a dictionary on the samples whose size lies between the
    /// smallest and largest sample size: their four-byte windows (all but
    /// the last of each sample), ranked by how often they occur, at most
    /// `MAX_DICTIONARY_GRAMS`, one after the other. Records what is known of
    /// it and counts the training; the dictionary is returned, not set.
    pub fn train_dictionary(&mut self, samples: &[Vec<u8>]) -> (r: Result<Vec<u8>, String>)
        requires
            total_len(views(samples@), samples@.len() as int) <= usize::MAX,
        ensures
            final(self).settings() == old(self).settings(),
            final(self).dict() == old(self).dict(),
            final(self).pending_samples() == old(self).pending_samples(),
            samples@.len() == 0 ==> (r matches Err(e) && e@ == "No training samples provided"@),
            samples@.len() > 0 && !some_in_range(
                views(samples@),
                old(self).settings().min_sample_size,
                old(self).settings().max_sample_size,
            ) ==> (r matches Err(e) && e@ == "No samples in valid size range ["@ + decimal(
                old(self).settings().min_sample_size as nat,
            ) + ", "@ + decimal(old(self).settings().max_sample_size as nat) + "]"@),
            r is Err ==> final(self).counters() == old(self).counters() && final(self).trained() == old(self).trained(),
            samples@.len() > 0 && some_in_range(
                views(samples@),
                old(self).settings().min_sample_size,
                old(self).settings().max_sample_size,
            ) ==> (r matches Ok(d) && trained_dictionary(
                d@,
                views(samples@),
                old(self).settings().min_sample_size,
                old(self).settings().max_sample_size,
            )) && final(self).trained() && final(self).counters() == (DictionaryStats {
                dictionary_train_count: raised(old(self).counters().dictionary_train_count, 1),
                ..old(self).counters()
            }),
    {
        if samples.len() == 0 {
            return Err(String::from_str("No training samples provided"));
        }
        let lo = self.config.min_sample_size;
        let hi = self.config.max_sample_size;
        let ghost sv = views(samples@);
        let mut kept: usize = 0;
        let mut total: u64 = 0;
        let mut i: usize = 0;
        while i < samples.len()
            invariant
                i <= samples@.len(),
                sv == views(samples@),
                kept <= i,
                (kept > 0) <==> exists|k: int| 0 <= k < i && in_range(#[trigger] sv[k], lo, hi),
            decreases samples@.len() - i,
        {
            let n = samples[i].len();
            proof {
                assert(sv[i as int] == samples@[i as int]@);
            }
            if lo <= n && n <= hi {
                kept += 1;
                total = raise(total, n);
            }
            i += 1;
        }
        if kept == 0 {
            let mut e = String::from_str("No samples in valid size range [");
            e.append(decimal_text(lo as u64).as_str());
            e.append(", ");
            e.append(decimal_text(hi as u64).as_str());
            e.append("]");
            return Err(e);
        }
        let dictionary = heuristic_dictionary(samples, lo, hi);
        let dictionary_hash = sha256_hex(dictionary.as_slice());
        let mut compressed_lengths: Vec<(usize, usize)> = Vec::new();
        let mut j: usize = 0;
        while j < samples.len()
            invariant
                j <= samples@.len(),
            decreases samples@.len() - j,
        {
            let s = samples[j].as_slice();
            if lo <= s.len() && s.len() <= hi {
                match self.compress_with_dict(s, dictionary.as_slice()) {
                    Ok(c) => {
                        compressed_lengths.push((c.len(), s.len()));
                    },
                    Err(_) => {},
                }
            }
            j += 1;
        }
        self.dictionary_metadata = Some(
            DictionaryMetadata {
                dictionary_hash,
                created_at_millis: unix_millis(),
                training_samples: kept,
                total_sample_size: total,
                compressed_lengths,
            },
        );
        self.stats.dictionary_train_count = raise(self.stats.dictionary_train_count, 1);
        Ok(dictionary)
    }

    /// Whether adding `sample` to the gathered samples starts a training:
    /// enough samples are then gathered, no dictionary was trained yet or
    /// the share of new ones reaches the update percentage, and their total
    /// size fits in a `usize`.
    pub open spec fn retrains(&self, sample: Seq<u8>) -> bool {
        let p = self.pending_samples().push(sample);
        &&& p.len() >= self.settings().training_samples
        &&& (!self.trained() || p.len() * 100 >= self.settings().dictionary_update_percent
            * self.settings().training_samples)
        &&& total_len(p, p.len() as int) <= usize::MAX
    }

    /// Gathers `sample` where its size lies between the smallest and
    /// largest sample size; once enough are gathered, trains a dictionary
    /// on them where none was trained or enough are new, sets it and
    /// forgets the samples.
    pub fn add_training_sample(&mut self, sample: Vec<u8>)
        ensures
            final(self).settings() == old(self).settings(),
            !in_range(sample@, old(self).settings().min_sample_size, old(self).settings().max_sample_size)
                ==> final(self).pending_samples() == old(self).pending_samples() && final(self).dict() == old(
                self,
            ).dict() && final(self).counters() == old(self).counters() && final(self).trained() == old(
                self,
            ).trained(),
            in_range(sample@, old(self).settings().min_sample_size, old(self).settings().max_sample_size)
                && !old(self).retrains(sample@) ==> final(self).pending_samples() == old(self).pending_samples().push(
                sample@,
            ) && final(self).dict() == old(self).dict() && final(self).counters() == old(self).counters()
                && final(self).trained() == old(self).trained(),
            in_range(sample@, old(self).settings().min_sample_size, old(self).settings().max_sample_size)
                && old(self).retrains(sample@) ==> final(self).pending_samples() == Seq::<Seq<u8>>::empty()
                && final(self).trained() && (final(self).dict() matches Some(d) && trained_dictionary(
                d,
                old(self).pending_samples().push(sample@),
                old(self).settings().min_sample_size,
                old(self).settings().max_sample_size,
            )) && final(self).counters() == (DictionaryStats {
                dictionary_train_count: raised(old(self).counters().dictionary_train_count, 1),
                ..old(self).counters()
            }),
    {
        let n = sample.len();
        if !(self.config.min_sample_size <= n && n <= self.config.max_sample_size) {
            return;
        }
        let ghost s = sample@;
        self.training_samples.push(sample);
        proof {
            assert(self.pending_samples() =~= old(self).pending_samples().push(s));
        }
        if self.training_samples.len() < self.config.training_samples {
            return;
        }
        let have = self.training_samples.len() as u128;
        let pct = self.config.dictionary_update_percent as u128;
        let want = self.config.training_samples as u128;
        proof {
            assert(pct * want <= 0xffff_ffff_ffff_ffffu128 * 0xffff_ffff_ffff_ffffu128) by (nonlinear_arith)
                requires
                    pct <= 0xffff_ffff_ffff_ffffu128,
                    want <= 0xffff_ffff_ffff_ffffu128,
            ;
        }
        let should = match &self.dictionary_metadata {
            None => true,
            Some(_) => have * 100 >= pct * want,
        };
        if !should {
            return;
        }
        match checked_total(self.training_samples.as_slice()) {
            Some(_) => {},
            None => {
                return;
            },
        }
        let mut samples: Vec<Vec<u8>> = Vec::new();
        core::mem::swap(&mut samples, &mut self.training_samples);
        proof {
            assert(self.pending_samples() =~= Seq::<Seq<u8>>::empty());
            assert(views(samples@) == old(self).pending_samples().push(s));
            let p = views(samples@);
            assert(in_range(p[p.len() - 1], self.config.min_sample_size, self.config.max_sample_size));
        }
        match self.train_dictionary(samples.as_slice()) {
            Ok(d) => {
                self.dictionary = Some(d);
            },
            Err(_) => {
                self.training_samples = samples;
            },
        }
    }

    /// Sets the dictionary.
    pub fn set_dictionary(&mut self, dictionary: Vec<u8>)
        ensures
            final(self).dict() == Some(dictionary@),
            final(self).settings() == old(self).settings(),
            final(self).trained() == old(self).trained(),
            final(self).pending_samples() == old(self).pending_samples(),
            final(self).counters() == old(self).counters(),
    {
        self.dictionary = Some(dictionary);
    }

    /// The dictionary, where one is set.
    pub fn dictionary(&self) -> (r: Option<&Vec<u8>>)
        ensures
            r matches Some(d) ==> self.dict() == Some(d@),
            r is None <==> self.dict() is None,
    {
        match &self.dictionary {
            Some(d) => Some(d),
            None => None,
        }
    }

    /// The counters.
    pub fn stats(&self) -> (s: &DictionaryStats)
        ensures
            *s == self.counters(),
    {
        &self.stats
    }
}


/// The four bytes of `s` at `i`, read as a little-endian number.
pub open spec fn gram_at(s: Seq<u8>, i: int) -> u32 {
    u32_from_le(s, i)
}

/// Number of four-byte windows of `s` that are counted: those that start
/// before `s.len() - 4`.
pub open spec fn window_count(s: Seq<u8>) -> int {
    if s.len() > 4 {
        s.len() - 4
    } else {
        0
    }
}

/// How many of the first `k` windows of `s` are `g`.
pub open spec fn count_in(s: Seq<u8>, g: u32, k: int) -> nat
    decreases k,
{
    if k <= 0 {
        0
    } else {
        count_in(s, g, k - 1) + if gram_at(s, k - 1) == g { 1nat } else { 0nat }
    }
}

/// Whether a sample's size lies in `[lo, hi]`.
pub open spec fn in_range(s: Seq<u8>, lo: usize, hi: usize) -> bool {
    lo <= s.len() <= hi
}

/// How often `g` occurs among the counted windows of the first `m`
/// samples whose size lies in `[lo, hi]`.
pub open spec fn gram_count(samples: Seq<Seq<u8>>, lo: usize, hi: usize, g: u32, m: int) -> nat
    decreases m,
{
    if m <= 0 {
        0
    } else {
        gram_count(samples, lo, hi, g, m - 1) + if in_range(samples[m - 1], lo, hi) {
            count_in(samples[m - 1], g, window_count(samples[m - 1]))
        } else {
            0nat
        }
    }
}

/// How often `g` occurs in all samples whose size lies in `[lo, hi]`.
pub open spec fn occurrences(samples: Seq<Seq<u8>>, lo: usize, hi: usize, g: u32) -> nat {
    gram_count(samples, lo, hi, g, samples.len() as int)
}

/// Total size of the first `m` samples.
pub open spec fn total_len(samples: Seq<Seq<u8>>, m: int) -> nat
    decreases m,
{
    if m <= 0 {
        0
    } else {
        total_len(samples, m - 1) + samples[m - 1].len()
    }
}

/// The little-endian bytes of each of `gs`, one after the other.
pub open spec fn flat(gs: Seq<u32>) -> Seq<u8>
    decreases gs.len(),
{
    if gs.len() == 0 {
        Seq::empty()
    } else {
        flat(gs.drop_last()) + le_bytes_u32(gs.last())
    }
}

/// Most windows a dictionary is made of.
pub const MAX_DICTIONARY_GRAMS: usize = 1000;

/// Whether `gs` ranks the windows of the samples in `[lo, hi]` by how
/// often they occur: no window twice, each occurring, the more frequent
/// first, and a window left out only where `gs` is full and each of its
/// windows occurs at least as often.
pub open spec fn ranked(gs: Seq<u32>, samples: Seq<Seq<u8>>, lo: usize, hi: usize) -> bool {
    &&& gs.no_duplicates()
    &&& gs.len() <= MAX_DICTIONARY_GRAMS
    &&& forall|j: int| 0 <= j < gs.len() ==> occurrences(samples, lo, hi, #[trigger] gs[j]) > 0
    &&& forall|j: int, k: int|
        0 <= j < k < gs.len() ==> occurrences(samples, lo, hi, #[trigger] gs[j]) >= occurrences(
            samples,
            lo,
            hi,
            #[trigger] gs[k],
        )
    &&& forall|g: u32|
        #![trigger occurrences(samples, lo, hi, g)]
        occurrences(samples, lo, hi, g) > 0 && !gs.contains(g) ==> gs.len() == MAX_DICTIONARY_GRAMS && forall|
            j: int,
        |
            0 <= j < gs.len() ==> occurrences(samples, lo, hi, #[trigger] gs[j]) >= occurrences(samples, lo, hi, g)
}

/// Whether `d` is a dictionary trained on `samples`: the bytes of a
/// ranking of their windows.
pub open spec fn trained_dictionary(d: Seq<u8>, samples: Seq<Seq<u8>>, lo: usize, hi: usize) -> bool {
    exists|gs: Seq<u32>| ranked(gs, samples, lo, hi) && d == flat(gs)
}

/// Whether some sample's size lies in `[lo, hi]`.
pub open spec fn some_in_range(samples: Seq<Seq<u8>>, lo: usize, hi: usize) -> bool {
    exists|i: int| 0 <= i < samples.len() && in_range(#[trigger] samples[i], lo, hi)
}

proof fn lemma_count_in_bound(s: Seq<u8>, g: u32, k: int)
    requires
        k >= 0,
    ensures
        count_in(s, g, k) <= k,
    decreases k,
{
    if k > 0 {
        lemma_count_in_bound(s, g, k - 1);
    }
}

proof fn lemma_gram_count_bound(samples: Seq<Seq<u8>>, lo: usize, hi: usize, g: u32, m: int)
    requires
        0 <= m <= samples.len(),
    ensures
        gram_count(samples, lo, hi, g, m) <= total_len(samples, m),
    decreases m,
{
    if m > 0 {
        lemma_gram_count_bound(samples, lo, hi, g, m - 1);
        lemma_count_in_bound(samples[m - 1], g, window_count(samples[m - 1]));
    }
}

proof fn lemma_total_len_mono(samples: Seq<Seq<u8>>, m: int, n: int)
    requires
        0 <= m <= n <= samples.len(),
    ensures
        total_len(samples, m) <= total_len(samples, n),
    decreases n - m,
{
    if m < n {
        lemma_total_len_mono(samples, m, n - 1);
    }
}

/// The views of `samples`.
pub open spec fn views(samples: Seq<Vec<u8>>) -> Seq<Seq<u8>> {
    samples.map_values(|s: Vec<u8>| s@)
}

/// The counted windows of the samples whose size lies in `[lo, hi]`, each
/// once, with how often each occurs.
fn count_grams(samples: &[Vec<u8>], lo: usize, hi: usize) -> (r: (Vec<u32>, Vec<usize>))
    requires
        total_len(views(samples@), samples@.len() as int) <= usize::MAX,
    ensures
        r.0@.no_duplicates(),
        r.0@.len() == r.1@.len(),
        forall|j: int| 0 <= j < r.0@.len() ==> r.1@[j] == occurrences(views(samples@), lo, hi, #[trigger] r.0@[j]),
        forall|g: u32| occurrences(views(samples@), lo, hi, g) > 0 <==> #[trigger] r.0@.contains(g),
{
    let ghost sv = views(samples@);
    let mut keys: Vec<u32> = Vec::new();
    let mut cnts: Vec<usize> = Vec::new();
    let mut index: HashMap<u32, usize> = HashMap::new();
    let mut m: usize = 0;
    while m < samples.len()
        invariant
            sv == views(samples@),
            m <= samples@.len(),
            total_len(sv, samples@.len() as int) <= usize::MAX,
            keys@.len() == cnts@.len(),
            forall|g: u32| #[trigger] index@.contains_key(g) <==> gram_count(sv, lo, hi, g, m as int) > 0,
            forall|g: u32| #[trigger] index@.contains_key(g) ==> index@[g] < keys@.len() && keys@[index@[g] as int] == g,
            forall|j: int| 0 <= j < keys@.len() ==> index@.contains_key(#[trigger] keys@[j]) && index@[keys@[j]] == j,
            forall|j: int| 0 <= j < keys@.len() ==> cnts@[j] == gram_count(sv, lo, hi, #[trigger] keys@[j], m as int),
        decreases samples@.len() - m,
    {
        let s = &samples[m];
        proof {
            assert(sv[m as int] == s@);
            lemma_total_len_mono(sv, m + 1, samples@.len() as int);
        }
        if lo <= s.len() && s.len() <= hi {
            let w: usize = if s.len() > 4 { s.len() - 4 } else { 0 };
            let mut i: usize = 0;
            while i < w
                invariant
                    sv == views(samples@),
                    m < samples@.len(),
                    sv[m as int] == s@,
                    in_range(s@, lo, hi),
                    w == window_count(s@),
                    i <= w,
                    total_len(sv, m + 1) <= usize::MAX,
                    keys@.len() == cnts@.len(),
                    forall|g: u32| #[trigger] index@.contains_key(g) <==> gram_count(sv, lo, hi, g, m as int)
                        + count_in(s@, g, i as int) > 0,
                    forall|g: u32| #[trigger] index@.contains_key(g) ==> index@[g] < keys@.len() && keys@[index@[g] as int] == g,
                    forall|j: int| 0 <= j < keys@.len() ==> index@.contains_key(#[trigger] keys@[j]) && index@[keys@[j]] == j,
                    forall|j: int| 0 <= j < keys@.len() ==> cnts@[j] == gram_count(sv, lo, hi, #[trigger] keys@[j], m as int)
                        + count_in(s@, keys@[j], i as int),
                decreases w - i,
            {
                let g: u32 = (s[i] as u32) | ((s[i + 1] as u32) << 8u32) | ((s[i + 2] as u32) << 16u32) | ((s[i + 3]
                    as u32) << 24u32);
                assert(g == gram_at(s@, i as int));
                match index.get(&g) {
                    Some(k) => {
                        let k: usize = *k;
                        proof {
                            lemma_gram_count_bound(sv, lo, hi, g, m as int);
                            lemma_count_in_bound(s@, g, i as int);
                            assert(total_len(sv, m + 1) == total_len(sv, m as int) + s@.len());
                        }
                        let c = cnts[k];
                        cnts.set(k, c + 1);
                        proof {
                            assert forall|j: int| 0 <= j < keys@.len() implies cnts@[j] == gram_count(sv, lo, hi, #[trigger] keys@[j], m as int)
                                + count_in(s@, keys@[j], i + 1) by {
                                if j != k {
                                    assert(keys@[j] != g);
                                }
                            }
                        }
                    },
                    None => {
                        let ghost old_keys = keys@;
                        let n = keys.len();
                        keys.push(g);
                        cnts.push(1);
                        index.insert(g, n);
                        proof {
                            assert(count_in(s@, g, i as int) == 0);
                            assert forall|j: int| 0 <= j < keys@.len() implies index@.contains_key(#[trigger] keys@[j]) && index@[keys@[j]] == j by {
                                if j < n {
                                    assert(keys@[j] == old_keys[j]);
                                    assert(old_keys[j] != g);
                                }
                            }
                            assert forall|j: int| 0 <= j < keys@.len() implies cnts@[j] == gram_count(sv, lo, hi, #[trigger] keys@[j], m as int)
                                + count_in(s@, keys@[j], i + 1) by {
                                if j < n {
                                    assert(keys@[j] == old_keys[j]);
                                    assert(old_keys[j] != g);
                                }
                            }
                        }
                    },
                }
                i += 1;
            }
            proof {
                assert forall|g: u32| gram_count(sv, lo, hi, g, m + 1) == gram_count(sv, lo, hi, g, m as int) + count_in(
                    s@,
                    g,
                    w as int,
                ) by {}
            }
        } else {
            proof {
                assert forall|g: u32| gram_count(sv, lo, hi, g, m + 1) == gram_count(sv, lo, hi, g, m as int) by {}
            }
        }
        m += 1;
    }
    proof {
        assert forall|j: int, k: int| 0 <= j < keys@.len() && 0 <= k < keys@.len() && j != k implies keys@[j] != keys@[k] by {
            assert(index@[keys@[j]] == j);
            assert(index@[keys@[k]] == k);
        }
        assert forall|g: u32| occurrences(sv, lo, hi, g) > 0 <==> #[trigger] keys@.contains(g) by {
            if keys@.contains(g) {
                let j = choose|j: int| 0 <= j < keys@.len() && keys@[j] == g;
                assert(index@.contains_key(keys@[j]));
            }
            if occurrences(sv, lo, hi, g) > 0 {
                assert(index@.contains_key(g));
                assert(keys@[index@[g] as int] == g);
            }
        }
    }
    (keys, cnts)
}

/// The windows of `keys` ranked by their counts `cnts`, at most
/// `MAX_DICTIONARY_GRAMS` of them: each round takes the first of the most
/// frequent ones left.
fn rank_grams(keys: &Vec<u32>, cnts: &Vec<usize>, Ghost(occ): Ghost<spec_fn(u32) -> nat>) -> (gs: Vec<u32>)
    requires
        keys@.no_duplicates(),
        keys@.len() == cnts@.len(),
        forall|j: int| 0 <= j < keys@.len() ==> cnts@[j] == occ(#[trigger] keys@[j]),
    ensures
        gs@.no_duplicates(),
        gs@.len() <= MAX_DICTIONARY_GRAMS,
        forall|j: int| 0 <= j < gs@.len() ==> keys@.contains(#[trigger] gs@[j]),
        forall|j: int, k: int| 0 <= j < k < gs@.len() ==> occ(#[trigger] gs@[j]) >= occ(#[trigger] gs@[k]),
        forall|g: u32|
            keys@.contains(g) && !gs@.contains(g) ==> gs@.len() == MAX_DICTIONARY_GRAMS && forall|j: int|
                0 <= j < gs@.len() ==> occ(#[trigger] gs@[j]) >= occ(g),
{
    let mut chosen: Vec<bool> = Vec::new();
    let mut j: usize = 0;
    while j < keys.len()
        invariant
            j <= keys@.len(),
            chosen@.len() == j,
            forall|k: int| 0 <= k < j ==> !(#[trigger] chosen@[k]),
        decreases keys@.len() - j,
    {
        chosen.push(false);
        j += 1;
    }
    let mut gs: Vec<u32> = Vec::new();
    let mut done = false;
    while gs.len() < MAX_DICTIONARY_GRAMS && !done
        invariant
            keys@.no_duplicates(),
            keys@.len() == cnts@.len(),
            forall|j: int| 0 <= j < keys@.len() ==> cnts@[j] == occ(#[trigger] keys@[j]),
            chosen@.len() == keys@.len(),
            gs@.len() <= MAX_DICTIONARY_GRAMS,
            gs@.no_duplicates(),
            forall|k: int| 0 <= k < keys@.len() ==> (#[trigger] chosen@[k] <==> gs@.contains(keys@[k])),
            forall|j: int| 0 <= j < gs@.len() ==> keys@.contains(#[trigger] gs@[j]),
            forall|j: int, k: int| 0 <= j < k < gs@.len() ==> occ(#[trigger] gs@[j]) >= occ(#[trigger] gs@[k]),
            forall|j: int, k: int|
                0 <= j < gs@.len() && 0 <= k < keys@.len() && !chosen@[k] ==> occ(#[trigger] gs@[j]) >= occ(
                    #[trigger] keys@[k],
                ),
            done ==> forall|k: int| 0 <= k < keys@.len() ==> #[trigger] chosen@[k],
        decreases MAX_DICTIONARY_GRAMS - gs@.len(), if done { 0int } else { 1int },
    {
        let mut best: Option<usize> = None;
        let mut k: usize = 0;
        while k < keys.len()
            invariant
                k <= keys@.len(),
                chosen@.len() == keys@.len(),
                keys@.len() == cnts@.len(),
                best matches Some(b) ==> b < k && !chosen@[b as int] && forall|q: int|
                    0 <= q < k && !chosen@[q] ==> cnts@[q] <= cnts@[b as int],
                best is None ==> forall|q: int| 0 <= q < k ==> #[trigger] chosen@[q],
            decreases keys@.len() - k,
        {
            if !chosen[k] {
                match best {
                    Some(b) => {
                        if cnts[k] > cnts[b] {
                            best = Some(k);
                        }
                    },
                    None => {
                        best = Some(k);
                    },
                }
            }
            k += 1;
        }
        match best {
            Some(b) => {
                let g = keys[b];
                let ghost old_gs = gs@;
                let ghost old_chosen = chosen@;
                proof {
                    assert(!old_gs.contains(g));
                }
                gs.push(g);
                chosen.set(b, true);
                proof {
                    assert forall|q: int| 0 <= q < keys@.len() implies (#[trigger] chosen@[q] <==> gs@.contains(keys@[q])) by {
                        if q != b {
                            assert(keys@[q] != keys@[b as int]);
                            if old_gs.contains(keys@[q]) {
                                let t = choose|t: int| 0 <= t < old_gs.len() && old_gs[t] == keys@[q];
                                assert(gs@[t] == keys@[q]);
                            }
                            if gs@.contains(keys@[q]) {
                                let t = choose|t: int| 0 <= t < gs@.len() && gs@[t] == keys@[q];
                                if t < old_gs.len() {
                                    assert(old_gs[t] == keys@[q]);
                                }
                            }
                        } else {
                            assert(gs@[old_gs.len() as int] == g);
                        }
                    }
                    assert forall|j: int| 0 <= j < gs@.len() implies keys@.contains(#[trigger] gs@[j]) by {
                        if j < old_gs.len() {
                            assert(gs@[j] == old_gs[j]);
                        } else {
                            assert(keys@[b as int] == g);
                        }
                    }
                    assert forall|x: int, y: int| 0 <= x < y < gs@.len() implies occ(#[trigger] gs@[x]) >= occ(#[trigger] gs@[y]) by {
                        if y == old_gs.len() {
                            assert(gs@[x] == old_gs[x]);
                        } else {
                            assert(gs@[x] == old_gs[x] && gs@[y] == old_gs[y]);
                        }
                    }
                    assert forall|x: int, q: int|
                        0 <= x < gs@.len() && 0 <= q < keys@.len() && !chosen@[q] implies occ(#[trigger] gs@[x]) >= occ(
                            #[trigger] keys@[q],
                        ) by {
                        assert(!old_chosen[q]);
                        if x < old_gs.len() {
                            assert(gs@[x] == old_gs[x]);
                        } else {
                            assert(cnts@[q] <= cnts@[b as int]);
                        }
                    }
                    assert forall|x: int, y: int| 0 <= x < gs@.len() && 0 <= y < gs@.len() && x != y implies gs@[x] != gs@[y] by {
                        if x < old_gs.len() && y < old_gs.len() {
                            assert(gs@[x] == old_gs[x] && gs@[y] == old_gs[y]);
                        } else if x < old_gs.len() {
                            assert(gs@[x] == old_gs[x]);
                            assert(old_gs.contains(gs@[x]));
                        } else {
                            assert(gs@[y] == old_gs[y]);
                            assert(old_gs.contains(gs@[y]));
                        }
                    }
                }
            },
            None => {
                done = true;
            },
        }
    }
    proof {
        assert forall|g: u32|
            keys@.contains(g) && !gs@.contains(g) implies gs@.len() == MAX_DICTIONARY_GRAMS && forall|j: int|
                0 <= j < gs@.len() ==> occ(#[trigger] gs@[j]) >= occ(g) by {
            let k = choose|k: int| 0 <= k < keys@.len() && keys@[k] == g;
            assert(!chosen@[k]);
        }
    }
    gs
}

/// The little-endian bytes of each of `gs`, one after the other.
fn flatten_grams(gs: &Vec<u32>) -> (d: Vec<u8>)
    ensures
        d@ == flat(gs@),
{
    let mut d: Vec<u8> = Vec::new();
    let mut j: usize = 0;
    while j < gs.len()
        invariant
            j <= gs@.len(),
            d@ == flat(gs@.take(j as int)),
        decreases gs@.len() - j,
    {
        let b = u32_le(gs[j]);
        d.push(b[0]);
        d.push(b[1]);
        d.push(b[2]);
        d.push(b[3]);
        proof {
            assert(gs@.take(j + 1).drop_last() =~= gs@.take(j as int));
            assert(d@ =~= flat(gs@.take(j as int)) + le_bytes_u32(gs@[j as int]));
        }
        j += 1;
    }
    assert(gs@.take(j as int) =~= gs@);
    d
}

/// A dictionary for `samples`: the windows of those whose size lies in
/// `[lo, hi]`, ranked by how often they occur.
fn heuristic_dictionary(samples: &[Vec<u8>], lo: usize, hi: usize) -> (d: Vec<u8>)
    requires
        total_len(views(samples@), samples@.len() as int) <= usize::MAX,
    ensures
        trained_dictionary(d@, views(samples@), lo, hi),
{
    let ghost sv = views(samples@);
    let (keys, cnts) = count_grams(samples, lo, hi);
    let ghost occ = |g: u32| occurrences(sv, lo, hi, g);
    let gs = rank_grams(&keys, &cnts, Ghost(occ));
    let d = flatten_grams(&gs);
    proof {
        assert(ranked(gs@, sv, lo, hi));
    }
    d
}

/// The total size of `samples`, where it fits in a `usize`.
fn checked_total(samples: &[Vec<u8>]) -> (r: Option<usize>)
    ensures
        r matches Some(n) ==> n == total_len(views(samples@), samples@.len() as int),
        r is None ==> total_len(views(samples@), samples@.len() as int) > usize::MAX,
{
    let ghost sv = views(samples@);
    let mut total: usize = 0;
    let mut i: usize = 0;
    while i < samples.len()
        invariant
            i <= samples@.len(),
            sv == views(samples@),
            total == total_len(sv, i as int),
        decreases samples@.len() - i,
    {
        proof {
            assert(sv[i as int] == samples@[i as int]@);
        }
        let n = samples[i].len();
        match total.checked_add(n) {
            Some(t) => {
                total = t;
            },
            None => {
                proof {
                    lemma_total_len_mono(sv, i + 1, samples@.len() as int);
                }
                return None;
            },
        }
        i += 1;
    }
    Some(total)
}

/// The bytes of `s` from `k` on.
fn tail_from_slice(s: &[u8], k: usize) -> (r: Vec<u8>)
    requires
        k <= s@.len(),
    ensures
        r@ == s@.skip(k as int),
{
    let mut r: Vec<u8> = Vec::new();
    let mut j: usize = k;
    while j < s.len()
        invariant
            k <= j <= s@.len(),
            r@ == s@.subrange(k as int, j as int),
        decreases s@.len() - j,
    {
        r.push(s[j]);
        assert(s@.subrange(k as int, j + 1) =~= s@.subrange(k as int, j as int).push(s@[j as int]));
        j += 1;
    }
    assert(s@.subrange(k as int, j as int) =~= s@.skip(k as int));
    r
}

} // verus!
