//! Core value types of the file store: pointers into segment files and
//! configuration checks.
use vstd::prelude::*;
use vstd::string::StringExecFns;
use crate::file_kv::memtable::MemTableConfig;
use crate::text::{decimal, decimal_text};

verus! {

/// Magic number of bloom filter files ("BLOO").
pub const BLOOM_MAGIC: u32 = 0x424C4F4F;
/// Version of the bloom filter file format.
pub const BLOOM_VERSION: u32 = 1;
/// Magic number of bloom filter files, as exported to the bloom module.
pub const BLOOM_MAGIC_PUB: u32 = 0x424C4F4F;
/// Version of the bloom filter file format, as exported to the bloom module.
pub const BLOOM_VERSION_PUB: u32 = 1;

/// The eight bytes of `x`, least significant first.
pub open spec fn le_bytes_u64(x: u64) -> Seq<u8> {
    seq![
        (x & 0xff) as u8,
        ((x >> 8u64) & 0xff) as u8,
        ((x >> 16u64) & 0xff) as u8,
        ((x >> 24u64) & 0xff) as u8,
        ((x >> 32u64) & 0xff) as u8,
        ((x >> 40u64) & 0xff) as u8,
        ((x >> 48u64) & 0xff) as u8,
        ((x >> 56u64) & 0xff) as u8,
    ]
}

/// The four bytes of `x`, least significant first.
pub open spec fn le_bytes_u32(x: u32) -> Seq<u8> {
    seq![
        (x & 0xff) as u8,
        ((x >> 8u32) & 0xff) as u8,
        ((x >> 16u32) & 0xff) as u8,
        ((x >> 24u32) & 0xff) as u8,
    ]
}

/// The `u64` whose little-endian bytes are `b[at..at + 8]`.
pub open spec fn u64_from_le(b: Seq<u8>, at: int) -> u64 {
    (b[at] as u64) | ((b[at + 1] as u64) << 8u64) | ((b[at + 2] as u64) << 16u64) | ((b[at
        + 3] as u64) << 24u64) | ((b[at + 4] as u64) << 32u64) | ((b[at + 5] as u64) << 40u64)
        | ((b[at + 6] as u64) << 48u64) | ((b[at + 7] as u64) << 56u64)
}

/// The `u32` whose little-endian bytes are `b[at..at + 4]`.
pub open spec fn u32_from_le(b: Seq<u8>, at: int) -> u32 {
    (b[at] as u32) | ((b[at + 1] as u32) << 8u32) | ((b[at + 2] as u32) << 16u32) | ((b[at
        + 3] as u32) << 24u32)
}

fn u64_le(x: u64) -> (r: [u8; 8])
    ensures
        r@ == le_bytes_u64(x),
{
    let r = [
        (x & 0xff) as u8,
        ((x >> 8u64) & 0xff) as u8,
        ((x >> 16u64) & 0xff) as u8,
        ((x >> 24u64) & 0xff) as u8,
        ((x >> 32u64) & 0xff) as u8,
        ((x >> 40u64) & 0xff) as u8,
        ((x >> 48u64) & 0xff) as u8,
        ((x >> 56u64) & 0xff) as u8,
    ];
    assert(r@ =~= le_bytes_u64(x));
    r
}

pub(crate) fn u32_le(x: u32) -> (r: [u8; 4])
    ensures
        r@ == le_bytes_u32(x),
{
    let r = [
        (x & 0xff) as u8,
        ((x >> 8u32) & 0xff) as u8,
        ((x >> 16u32) & 0xff) as u8,
        ((x >> 24u32) & 0xff) as u8,
    ];
    assert(r@ =~= le_bytes_u32(x));
    r
}

fn read_u64_le(b: &[u8; 24], at: usize) -> (x: u64)
    requires
        at + 8 <= 24,
    ensures
        x == u64_from_le(b@, at as int),
{
    (b[at] as u64) | ((b[at + 1] as u64) << 8u64) | ((b[at + 2] as u64) << 16u64) | ((b[at
        + 3] as u64) << 24u64) | ((b[at + 4] as u64) << 32u64) | ((b[at + 5] as u64) << 40u64)
        | ((b[at + 6] as u64) << 48u64) | ((b[at + 7] as u64) << 56u64)
}

fn read_u32_le(b: &[u8; 24], at: usize) -> (x: u32)
    requires
        at + 4 <= 24,
    ensures
        x == u32_from_le(b@, at as int),
{
    (b[at] as u32) | ((b[at + 1] as u32) << 8u32) | ((b[at + 2] as u32) << 16u32) | ((b[at
        + 3] as u32) << 24u32)
}

pub proof fn lemma_u64_round_trip(x: u64)
    ensures
        u64_from_le(le_bytes_u64(x), 0) == x,
{
    let b = le_bytes_u64(x);
    let b0 = b[0];
    let b1 = b[1];
    let b2 = b[2];
    let b3 = b[3];
    let b4 = b[4];
    let b5 = b[5];
    let b6 = b[6];
    let b7 = b[7];
    assert((b0 as u64) | ((b1 as u64) << 8u64) | ((b2 as u64) << 16u64) | ((b3 as u64) << 24u64)
        | ((b4 as u64) << 32u64) | ((b5 as u64) << 40u64) | ((b6 as u64) << 48u64) | ((b7 as u64)
        << 56u64) == x) by (bit_vector)
        requires
            b0 == (x & 0xff) as u8,
            b1 == ((x >> 8u64) & 0xff) as u8,
            b2 == ((x >> 16u64) & 0xff) as u8,
            b3 == ((x >> 24u64) & 0xff) as u8,
            b4 == ((x >> 32u64) & 0xff) as u8,
            b5 == ((x >> 40u64) & 0xff) as u8,
            b6 == ((x >> 48u64) & 0xff) as u8,
            b7 == ((x >> 56u64) & 0xff) as u8,
    ;
}

pub proof fn lemma_u32_round_trip(x: u32)
    ensures
        u32_from_le(le_bytes_u32(x), 0) == x,
{
    let b = le_bytes_u32(x);
    let b0 = b[0];
    let b1 = b[1];
    let b2 = b[2];
    let b3 = b[3];
    assert((b0 as u32) | ((b1 as u32) << 8u32) | ((b2 as u32) << 16u32) | ((b3 as u32) << 24u32)
        == x) by (bit_vector)
        requires
            b0 == (x & 0xff) as u8,
            b1 == ((x >> 8u32) & 0xff) as u8,
            b2 == ((x >> 16u32) & 0xff) as u8,
            b3 == ((x >> 24u32) & 0xff) as u8,
    ;
}

proof fn lemma_u64_bytes_back(b: Seq<u8>, at: int)
    requires
        0 <= at,
        at + 8 <= b.len(),
    ensures
        le_bytes_u64(u64_from_le(b, at)) == b.subrange(at, at + 8),
{
    let x = u64_from_le(b, at);
    let b0 = b[at];
    let b1 = b[at + 1];
    let b2 = b[at + 2];
    let b3 = b[at + 3];
    let b4 = b[at + 4];
    let b5 = b[at + 5];
    let b6 = b[at + 6];
    let b7 = b[at + 7];
    assert((x & 0xff) as u8 == b0 && ((x >> 8u64) & 0xff) as u8 == b1 && ((x >> 16u64) & 0xff) as u8
        == b2 && ((x >> 24u64) & 0xff) as u8 == b3 && ((x >> 32u64) & 0xff) as u8 == b4 && ((x
        >> 40u64) & 0xff) as u8 == b5 && ((x >> 48u64) & 0xff) as u8 == b6 && ((x >> 56u64)
        & 0xff) as u8 == b7) by (bit_vector)
        requires
            x == (b0 as u64) | ((b1 as u64) << 8u64) | ((b2 as u64) << 16u64) | ((b3 as u64)
                << 24u64) | ((b4 as u64) << 32u64) | ((b5 as u64) << 40u64) | ((b6 as u64)
                << 48u64) | ((b7 as u64) << 56u64),
    ;
    assert(le_bytes_u64(x) =~= b.subrange(at, at + 8));
}

proof fn lemma_u32_bytes_back(b: Seq<u8>, at: int)
    requires
        0 <= at,
        at + 4 <= b.len(),
    ensures
        le_bytes_u32(u32_from_le(b, at)) == b.subrange(at, at + 4),
{
    let x = u32_from_le(b, at);
    let b0 = b[at];
    let b1 = b[at + 1];
    let b2 = b[at + 2];
    let b3 = b[at + 3];
    assert((x & 0xff) as u8 == b0 && ((x >> 8u32) & 0xff) as u8 == b1 && ((x >> 16u32) & 0xff) as u8
        == b2 && ((x >> 24u32) & 0xff) as u8 == b3) by (bit_vector)
        requires
            x == (b0 as u32) | ((b1 as u32) << 8u32) | ((b2 as u32) << 16u32) | ((b3 as u32)
                << 24u32),
    ;
    assert(le_bytes_u32(x) =~= b.subrange(at, at + 4));
}

/// Where a value lies in a segment file.
#[derive(Debug, Clone, Copy, PartialEq, Eq, Structural)]
pub struct ValuePointer {
    /// Segment file id.
    pub segment_id: u64,
    /// Offset inside the segment.
    pub offset: u64,
    /// Length of the value.
    pub len: u32,
    /// CRC32 checksum of the value.
    pub checksum: u32,
}

impl ValuePointer {
    /// The 24-byte encoding: segment id, offset, length and checksum, each
    /// little-endian, in that order.
    pub open spec fn encoding(self) -> Seq<u8> {
        le_bytes_u64(self.segment_id) + le_bytes_u64(self.offset) + le_bytes_u32(self.len)
            + le_bytes_u32(self.checksum)
    }

    /// The pointer that the 24 bytes `b` encode.
    pub open spec fn decoding(b: Seq<u8>) -> ValuePointer {
        ValuePointer {
            segment_id: u64_from_le(b, 0),
            offset: u64_from_le(b, 8),
            len: u32_from_le(b, 16),
            checksum: u32_from_le(b, 20),
        }
    }

    /// A pointer with the given fields.
    pub fn new(segment_id: u64, offset: u64, len: u32, checksum: u32) -> (p: Self)
        ensures
            p == (ValuePointer { segment_id, offset, len, checksum }),
    {
        ValuePointer { segment_id, offset, len, checksum }
    }

    /// The 24-byte encoding used in the write-ahead log.
    pub fn to_bytes(&self) -> (buf: [u8; 24])
        ensures
            buf@ == self.encoding(),
    {
        let s = u64_le(self.segment_id);
        let o = u64_le(self.offset);
        let l = u32_le(self.len);
        let c = u32_le(self.checksum);
        let buf = [
            s[0], s[1], s[2], s[3], s[4], s[5], s[6], s[7],
            o[0], o[1], o[2], o[3], o[4], o[5], o[6], o[7],
            l[0], l[1], l[2], l[3],
            c[0], c[1], c[2], c[3],
        ];
        assert(buf@ =~= self.encoding());
        buf
    }

    /// The pointer encoded by `buf`.
    pub fn from_bytes(buf: &[u8; 24]) -> (p: Self)
        ensures
            p == Self::decoding(buf@),
    {
        ValuePointer {
            segment_id: read_u64_le(buf, 0),
            offset: read_u64_le(buf, 8),
            len: read_u32_le(buf, 16),
            checksum: read_u32_le(buf, 20),
        }
    }
}

/// Decoding the encoding of a pointer gives the pointer back.
pub proof fn lemma_value_pointer_round_trip(p: ValuePointer)
    ensures
        ValuePointer::decoding(p.encoding()) == p,
{
    let e = p.encoding();
    lemma_u64_round_trip(p.segment_id);
    lemma_u64_round_trip(p.offset);
    lemma_u32_round_trip(p.len);
    lemma_u32_round_trip(p.checksum);
    assert(e.subrange(0, 8) =~= le_bytes_u64(p.segment_id));
    assert(e.subrange(8, 16) =~= le_bytes_u64(p.offset));
    assert(e.subrange(16, 20) =~= le_bytes_u32(p.len));
    assert(e.subrange(20, 24) =~= le_bytes_u32(p.checksum));
    assert(u64_from_le(e, 0) == u64_from_le(e.subrange(0, 8), 0));
    assert(u64_from_le(e, 8) == u64_from_le(e.subrange(8, 16), 0));
    assert(u32_from_le(e, 16) == u32_from_le(e.subrange(16, 20), 0));
    assert(u32_from_le(e, 20) == u32_from_le(e.subrange(20, 24), 0));
}

/// Encoding the pointer that 24 bytes decode to gives the bytes back.
pub proof fn lemma_value_pointer_bytes_round_trip(b: Seq<u8>)
    requires
        b.len() == 24,
    ensures
        ValuePointer::decoding(b).encoding() == b,
{
    lemma_u64_bytes_back(b, 0);
    lemma_u64_bytes_back(b, 8);
    lemma_u32_bytes_back(b, 16);
    lemma_u32_bytes_back(b, 20);
    assert(ValuePointer::decoding(b).encoding() =~= b);
}

/// Smallest flush threshold of the in-memory table, in bytes.
pub const MIN_MEMTABLE_THRESHOLD: usize = 65536;
/// Smallest entry limit of the in-memory table.
pub const MIN_MEMTABLE_ENTRIES: usize = 100;
/// Smallest block cache, in bytes.
pub const MIN_BLOCK_CACHE_SIZE: usize = 1048576;
/// Smallest item limit of the block cache.
pub const MIN_BLOCK_CACHE_ITEMS: usize = 100;
/// Shortest background flush interval, in milliseconds.
pub const MIN_FLUSH_INTERVAL_MS: u64 = 10;
/// Largest `min_segments` of compaction.
pub const MAX_MIN_SEGMENTS: usize = 20;
/// Flush threshold above which a warning is given, in bytes.
pub const LARGE_MEMTABLE_THRESHOLD: usize = 67108864;
/// Block cache size above which a warning is given, in bytes.
pub const LARGE_BLOCK_CACHE_SIZE: usize = 536870912;

/// A problem found in a store configuration.
#[derive(Debug, Clone, PartialEq, Eq)]
pub enum FileKVConfigError {
    MemTableThresholdTooLow(usize, usize),
    MemTableMaxEntriesTooLow(usize, usize),
    BlockCacheTooSmall(usize, usize),
    BlockCacheMaxItemsTooLow(usize, usize),
    BackgroundFlushIntervalTooShort(u64, u64),
    CompactionMinSegmentsTooLarge(usize, usize),
    SegmentSizeMismatch { max: u64, target: u64 },
    InvalidPath(String),
    PathNotWritable(String),
}

/// `prefix`, `a` in decimal, `middle`, `b` in decimal and `suffix`.
pub open spec fn two_numbers(prefix: &str, a: nat, middle: &str, b: nat, suffix: &str) -> Seq<char> {
    prefix@ + decimal(a) + middle@ + decimal(b) + suffix@
}

fn two_numbers_text(prefix: &str, a: u64, middle: &str, b: u64, suffix: &str) -> (s: String)
    ensures
        s@ == two_numbers(prefix, a as nat, middle, b as nat, suffix),
{
    let mut s = String::from_str(prefix);
    s.append(decimal_text(a).as_str());
    s.append(middle);
    s.append(decimal_text(b).as_str());
    s.append(suffix);
    s
}

impl FileKVConfigError {
    /// The text of the error.
    pub open spec fn message_spec(&self) -> Seq<char> {
        match self {
            FileKVConfigError::MemTableThresholdTooLow(a, b) => two_numbers(
                "MemTable flush threshold too low: ", *a as nat, " bytes (minimum: ", *b as nat, ")"),
            FileKVConfigError::MemTableMaxEntriesTooLow(a, b) => two_numbers(
                "MemTable max entries too low: ", *a as nat, " (minimum: ", *b as nat, ")"),
            FileKVConfigError::BlockCacheTooSmall(a, b) => two_numbers(
                "Block cache size too small: ", *a as nat, " bytes (minimum: ", *b as nat, ")"),
            FileKVConfigError::BlockCacheMaxItemsTooLow(a, b) => two_numbers(
                "Block cache max items too low: ", *a as nat, " (minimum: ", *b as nat, ")"),
            FileKVConfigError::BackgroundFlushIntervalTooShort(a, b) => two_numbers(
                "Background flush interval too short: ", *a as nat, "ms (minimum: ", *b as nat, "ms)"),
            FileKVConfigError::CompactionMinSegmentsTooLarge(a, b) => two_numbers(
                "Compaction min_segments too large: ", *a as nat, " (maximum: ", *b as nat, ")"),
            FileKVConfigError::SegmentSizeMismatch { max, target } => two_numbers(
                "Segment max size smaller than target: max=", *max as nat, ", target=", *target as nat, ""),
            FileKVConfigError::InvalidPath(p) => "Invalid path: "@ + p@,
            FileKVConfigError::PathNotWritable(p) => "Path is not writable: "@ + p@,
        }
    }

    /// The text of the error, as its display form writes it.
    pub fn message(&self) -> (s: String)
        ensures
            s@ == self.message_spec(),
    {
        match self {
            FileKVConfigError::MemTableThresholdTooLow(a, b) => two_numbers_text(
                "MemTable flush threshold too low: ", *a as u64, " bytes (minimum: ", *b as u64, ")"),
            FileKVConfigError::MemTableMaxEntriesTooLow(a, b) => two_numbers_text(
                "MemTable max entries too low: ", *a as u64, " (minimum: ", *b as u64, ")"),
            FileKVConfigError::BlockCacheTooSmall(a, b) => two_numbers_text(
                "Block cache size too small: ", *a as u64, " bytes (minimum: ", *b as u64, ")"),
            FileKVConfigError::BlockCacheMaxItemsTooLow(a, b) => two_numbers_text(
                "Block cache max items too low: ", *a as u64, " (minimum: ", *b as u64, ")"),
            FileKVConfigError::BackgroundFlushIntervalTooShort(a, b) => two_numbers_text(
                "Background flush interval too short: ", *a, "ms (minimum: ", *b, "ms)"),
            FileKVConfigError::CompactionMinSegmentsTooLarge(a, b) => two_numbers_text(
                "Compaction min_segments too large: ", *a as u64, " (maximum: ", *b as u64, ")"),
            FileKVConfigError::SegmentSizeMismatch { max, target } => two_numbers_text(
                "Segment max size smaller than target: max=", *max, ", target=", *target, ""),
            FileKVConfigError::InvalidPath(p) => {
                let mut s = String::from_str("Invalid path: ");
                s.append(p.as_str());
                s
            },
            FileKVConfigError::PathNotWritable(p) => {
                let mut s = String::from_str("Path is not writable: ");
                s.append(p.as_str());
                s
            },
        }
    }
}

/// The outcome of checking a store configuration.
#[derive(Debug, Clone)]
pub struct FileKVConfigValidation {
    pub is_valid: bool,
    pub warnings: Vec<String>,
    pub errors: Vec<FileKVConfigError>,
}

/// The characters of each string of `v`.
pub open spec fn texts(v: Seq<String>) -> Seq<Seq<char>> {
    v.map_values(|s: String| s@)
}

/// The message of each error of `v`.
pub open spec fn messages(v: Seq<FileKVConfigError>) -> Seq<Seq<char>> {
    v.map_values(|e: FileKVConfigError| e.message_spec())
}

impl FileKVConfigValidation {
    /// Whether the configuration passed: marked valid and without errors.
    pub fn is_valid(&self) -> (r: bool)
        ensures
            r == (self.is_valid && self.errors@.len() == 0),
    {
        self.is_valid && self.errors.len() == 0
    }

    /// The warnings, then the message of each error.
    pub fn all_issues(&self) -> (issues: Vec<String>)
        ensures
            texts(issues@) == texts(self.warnings@) + messages(self.errors@),
    {
        let mut issues: Vec<String> = Vec::new();
        let mut i: usize = 0;
        while i < self.warnings.len()
            invariant
                i <= self.warnings.len(),
                texts(issues@) == texts(self.warnings@.take(i as int)),
            decreases self.warnings.len() - i,
        {
            let w = String::from_str(self.warnings[i].as_str());
            issues.push(w);
            proof {
                assert(texts(self.warnings@.take(i + 1)) =~= texts(self.warnings@.take(i as int)).push(w@));
                assert(texts(issues@) =~= texts(self.warnings@.take(i as int)).push(w@));
            }
            i += 1;
        }
        assert(self.warnings@.take(i as int) =~= self.warnings@);
        let mut j: usize = 0;
        while j < self.errors.len()
            invariant
                j <= self.errors.len(),
                texts(issues@) == texts(self.warnings@) + messages(self.errors@.take(j as int)),
            decreases self.errors.len() - j,
        {
            let m = self.errors[j].message();
            let ghost before = issues@;
            issues.push(m);
            proof {
                assert(texts(issues@) =~= texts(before).push(m@));
                assert(messages(self.errors@.take(j + 1)) =~= messages(self.errors@.take(j as int)).push(m@));
                assert(texts(issues@) =~= texts(self.warnings@) + messages(self.errors@.take(j + 1)));
            }
            j += 1;
        }
        assert(self.errors@.take(j as int) =~= self.errors@);
        issues
    }
}

/// `e` alone where `cond` holds, else nothing.
pub open spec fn when<T>(cond: bool, e: T) -> Seq<T> {
    if cond { seq![e] } else { Seq::empty() }
}

/// The errors that the numeric limits of a configuration give, in the
/// order in which they are checked.
pub open spec fn limit_errors_spec(
    memtable: MemTableConfig,
    cache_max_memory_bytes: usize,
    cache_max_items: usize,
    enable_background_flush: bool,
    background_flush_interval_ms: u64,
    compaction_min_segments: usize,
    max_segment_size_bytes: u64,
    target_segment_size_bytes: u64,
) -> Seq<FileKVConfigError> {
    when(memtable.flush_threshold_bytes < MIN_MEMTABLE_THRESHOLD,
        FileKVConfigError::MemTableThresholdTooLow(memtable.flush_threshold_bytes, MIN_MEMTABLE_THRESHOLD))
    + when(memtable.max_entries < MIN_MEMTABLE_ENTRIES,
        FileKVConfigError::MemTableMaxEntriesTooLow(memtable.max_entries, MIN_MEMTABLE_ENTRIES))
    + when(cache_max_memory_bytes < MIN_BLOCK_CACHE_SIZE,
        FileKVConfigError::BlockCacheTooSmall(cache_max_memory_bytes, MIN_BLOCK_CACHE_SIZE))
    + when(cache_max_items < MIN_BLOCK_CACHE_ITEMS,
        FileKVConfigError::BlockCacheMaxItemsTooLow(cache_max_items, MIN_BLOCK_CACHE_ITEMS))
    + when(enable_background_flush && background_flush_interval_ms < MIN_FLUSH_INTERVAL_MS,
        FileKVConfigError::BackgroundFlushIntervalTooShort(background_flush_interval_ms, MIN_FLUSH_INTERVAL_MS))
    + when(compaction_min_segments > MAX_MIN_SEGMENTS,
        FileKVConfigError::CompactionMinSegmentsTooLarge(compaction_min_segments, MAX_MIN_SEGMENTS))
    + when(max_segment_size_bytes < target_segment_size_bytes,
        FileKVConfigError::SegmentSizeMismatch { max: max_segment_size_bytes, target: target_segment_size_bytes })
}

fn push_when<T>(v: &mut Vec<T>, cond: bool, e: T)
    ensures
        final(v)@ == old(v)@ + when(cond, e),
{
    if cond {
        v.push(e);
        assert(v@ =~= old(v)@ + when(cond, e));
    } else {
        assert(v@ =~= old(v)@ + when(cond, e));
    }
}

/// Checks the numeric limits of a configuration: the in-memory table, the
/// block cache, the background flush interval and the compaction sizes.
pub fn limit_errors(
    memtable: &MemTableConfig,
    cache_max_memory_bytes: usize,
    cache_max_items: usize,
    enable_background_flush: bool,
    background_flush_interval_ms: u64,
    compaction_min_segments: usize,
    max_segment_size_bytes: u64,
    target_segment_size_bytes: u64,
) -> (errors: Vec<FileKVConfigError>)
    ensures
        errors@ == limit_errors_spec(*memtable, cache_max_memory_bytes, cache_max_items,
            enable_background_flush, background_flush_interval_ms, compaction_min_segments,
            max_segment_size_bytes, target_segment_size_bytes),
{
    let mut errors: Vec<FileKVConfigError> = Vec::new();
    push_when(&mut errors, memtable.flush_threshold_bytes < MIN_MEMTABLE_THRESHOLD,
        FileKVConfigError::MemTableThresholdTooLow(memtable.flush_threshold_bytes, MIN_MEMTABLE_THRESHOLD));
    push_when(&mut errors, memtable.max_entries < MIN_MEMTABLE_ENTRIES,
        FileKVConfigError::MemTableMaxEntriesTooLow(memtable.max_entries, MIN_MEMTABLE_ENTRIES));
    push_when(&mut errors, cache_max_memory_bytes < MIN_BLOCK_CACHE_SIZE,
        FileKVConfigError::BlockCacheTooSmall(cache_max_memory_bytes, MIN_BLOCK_CACHE_SIZE));
    push_when(&mut errors, cache_max_items < MIN_BLOCK_CACHE_ITEMS,
        FileKVConfigError::BlockCacheMaxItemsTooLow(cache_max_items, MIN_BLOCK_CACHE_ITEMS));
    push_when(&mut errors, enable_background_flush && background_flush_interval_ms < MIN_FLUSH_INTERVAL_MS,
        FileKVConfigError::BackgroundFlushIntervalTooShort(background_flush_interval_ms, MIN_FLUSH_INTERVAL_MS));
    push_when(&mut errors, compaction_min_segments > MAX_MIN_SEGMENTS,
        FileKVConfigError::CompactionMinSegmentsTooLarge(compaction_min_segments, MAX_MIN_SEGMENTS));
    push_when(&mut errors, max_segment_size_bytes < target_segment_size_bytes,
        FileKVConfigError::SegmentSizeMismatch { max: max_segment_size_bytes, target: target_segment_size_bytes });
    assert(errors@ =~= limit_errors_spec(*memtable, cache_max_memory_bytes, cache_max_items,
        enable_background_flush, background_flush_interval_ms, compaction_min_segments,
        max_segment_size_bytes, target_segment_size_bytes));
    errors
}

/// The warnings that large sizes give, in order.
pub open spec fn size_warnings_spec(flush_threshold_bytes: usize, cache_max_memory_bytes: usize) -> Seq<Seq<char>> {
    when(flush_threshold_bytes > LARGE_MEMTABLE_THRESHOLD,
        "Large MemTable threshold ("@ + decimal(flush_threshold_bytes as nat) + " bytes) may cause long flush pauses"@)
    + when(cache_max_memory_bytes > LARGE_BLOCK_CACHE_SIZE,
        "Large block cache size ("@ + decimal(cache_max_memory_bytes as nat) + " bytes) may cause memory pressure"@)
}

fn number_in_text(prefix: &str, n: u64, suffix: &str) -> (s: String)
    ensures
        s@ == prefix@ + decimal(n as nat) + suffix@,
{
    let mut s = String::from_str(prefix);
    s.append(decimal_text(n).as_str());
    s.append(suffix);
    s
}

/// Warnings on a large flush threshold and a large block cache.
pub fn size_warnings(flush_threshold_bytes: usize, cache_max_memory_bytes: usize) -> (w: Vec<String>)
    ensures
        texts(w@) == size_warnings_spec(flush_threshold_bytes, cache_max_memory_bytes),
{
    let mut w: Vec<String> = Vec::new();
    if flush_threshold_bytes > LARGE_MEMTABLE_THRESHOLD {
        w.push(number_in_text("Large MemTable threshold (", flush_threshold_bytes as u64, " bytes) may cause long flush pauses"));
    }
    if cache_max_memory_bytes > LARGE_BLOCK_CACHE_SIZE {
        w.push(number_in_text("Large block cache size (", cache_max_memory_bytes as u64, " bytes) may cause memory pressure"));
    }
    assert(texts(w@) =~= size_warnings_spec(flush_threshold_bytes, cache_max_memory_bytes));
    w
}

/// The outcome of a check that found `errors` and `warnings`: valid
/// exactly when there are no errors.
pub fn validation_of(errors: Vec<FileKVConfigError>, warnings: Vec<String>) -> (v: FileKVConfigValidation)
    ensures
        v.is_valid == (errors@.len() == 0),
        v.errors@ == errors@,
        v.warnings@ == warnings@,
{
    FileKVConfigValidation { is_valid: errors.len() == 0, warnings, errors }
}

/// What probing one configured directory found.
#[derive(Debug, Clone)]
pub enum PathProbe {
    /// The path is empty.
    Empty,
    /// The path exists and is no directory.
    NotDirectory,
    /// The path is a directory; whether a file could be created in it.
    Directory(bool),
    /// The path does not exist and has no parent.
    NoParent,
    /// The path does not exist, nor does its parent, rendered as given.
    ParentMissing(String),
    /// The path does not exist and its parent is no directory.
    ParentNotDirectory,
    /// The path does not exist and its parent is a directory; whether a
    /// file could be created in it.
    ParentDirectory(bool),
}

/// The errors (as messages) and warnings that the probe `probe` of the
/// directory setting `name` gives.
pub open spec fn path_findings_spec(name: Seq<char>, probe: PathProbe) -> (Seq<Seq<char>>, Seq<Seq<char>>) {
    match probe {
        PathProbe::Empty => (seq!["Invalid path: "@ + (name + " is empty"@)], seq![]),
        PathProbe::NotDirectory => (seq!["Invalid path: "@ + (name + " is not a directory"@)], seq![]),
        PathProbe::Directory(writable) => if writable {
            (seq![], seq![])
        } else {
            (seq!["Path is not writable: "@ + name], seq![])
        },
        PathProbe::NoParent => (seq![], seq![]),
        PathProbe::ParentMissing(parent) => (seq![], seq![name + " parent directory does not exist: "@ + parent@]),
        PathProbe::ParentNotDirectory => (seq!["Invalid path: "@ + (name + " parent is not a directory"@)], seq![]),
        PathProbe::ParentDirectory(writable) => if writable {
            (seq![], seq![])
        } else {
            (seq!["Path is not writable: "@ + (name + " parent"@)], seq![])
        },
    }
}

/// The errors and warnings that the probe `probe` of the directory setting
/// `name` gives: an empty path, a path or parent that is no directory, and
/// a directory in which no file could be created are errors; a missing
/// parent is a warning.
pub fn path_findings(name: &str, probe: &PathProbe) -> (r: (Vec<FileKVConfigError>, Vec<String>))
    ensures
        messages(r.0@) == path_findings_spec(name@, *probe).0,
        texts(r.1@) == path_findings_spec(name@, *probe).1,
{
    let mut errors: Vec<FileKVConfigError> = Vec::new();
    let mut warnings: Vec<String> = Vec::new();
    match probe {
        PathProbe::Empty => {
            let mut t = String::from_str(name);
            t.append(" is empty");
            errors.push(FileKVConfigError::InvalidPath(t));
        },
        PathProbe::NotDirectory => {
            let mut t = String::from_str(name);
            t.append(" is not a directory");
            errors.push(FileKVConfigError::InvalidPath(t));
        },
        PathProbe::Directory(writable) => {
            if !*writable {
                errors.push(FileKVConfigError::PathNotWritable(String::from_str(name)));
            }
        },
        PathProbe::NoParent => {},
        PathProbe::ParentMissing(parent) => {
            let mut t = String::from_str(name);
            t.append(" parent directory does not exist: ");
            t.append(parent.as_str());
            warnings.push(t);
        },
        PathProbe::ParentNotDirectory => {
            let mut t = String::from_str(name);
            t.append(" parent is not a directory");
            errors.push(FileKVConfigError::InvalidPath(t));
        },
        PathProbe::ParentDirectory(writable) => {
            if !*writable {
                let mut t = String::from_str(name);
                t.append(" parent");
                errors.push(FileKVConfigError::PathNotWritable(t));
            }
        },
    }
    proof {
        assert(messages(errors@) =~= path_findings_spec(name@, *probe).0);
        assert(texts(warnings@) =~= path_findings_spec(name@, *probe).1);
    }
    (errors, warnings)
}

/// Counters of the file store.
#[derive(Debug, Clone, Copy, PartialEq, Eq, Structural)]
pub struct FileKVStats {
    pub memtable_size: usize,
    pub memtable_entries: usize,
    pub segment_count: usize,
    pub total_size_bytes: u64,
    pub total_entries: u64,
    pub write_count: u64,
    pub read_count: u64,
    pub flush_count: u64,
    pub cache_hits: u64,
    pub cache_misses: u64,
    pub bloom_filtered: u64,
    pub compaction_runs: u64,
    pub compaction_segments_merged: u64,
    pub compaction_tombstones_removed: u64,
    pub compression_dict_trained: bool,
    pub compression_dict_size: usize,
    pub compressed_writes: u64,
    pub uncompressed_bytes: u64,
    pub compressed_bytes: u64,
}

impl FileKVStats {
    /// Every counter at zero, no dictionary trained.
    pub open spec fn zero() -> Self {
        FileKVStats {
            memtable_size: 0,
            memtable_entries: 0,
            segment_count: 0,
            total_size_bytes: 0,
            total_entries: 0,
            write_count: 0,
            read_count: 0,
            flush_count: 0,
            cache_hits: 0,
            cache_misses: 0,
            bloom_filtered: 0,
            compaction_runs: 0,
            compaction_segments_merged: 0,
            compaction_tombstones_removed: 0,
            compression_dict_trained: false,
            compression_dict_size: 0,
            compressed_writes: 0,
            uncompressed_bytes: 0,
            compressed_bytes: 0,
        }
    }
}

impl Default for FileKVStats {
    fn default() -> (s: Self)
        ensures
            s == Self::zero(),
    {
        FileKVStats {
            memtable_size: 0,
            memtable_entries: 0,
            segment_count: 0,
            total_size_bytes: 0,
            total_entries: 0,
            write_count: 0,
            read_count: 0,
            flush_count: 0,
            cache_hits: 0,
            cache_misses: 0,
            bloom_filtered: 0,
            compaction_runs: 0,
            compaction_segments_merged: 0,
            compaction_tombstones_removed: 0,
            compression_dict_trained: false,
            compression_dict_size: 0,
            compressed_writes: 0,
            uncompressed_bytes: 0,
            compressed_bytes: 0,
        }
    }
}

} // verus!
