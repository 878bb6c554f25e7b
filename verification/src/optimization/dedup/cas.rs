//! Content-addressed storage: the hash contents are stored under, the
//! run-length coding of stored data, and the summary of a snapshot's
//! changes.
use vstd::prelude::*;
use vstd::string::StringExecFns;
use std::path::PathBuf;
use crate::digest::{hex_text, sha256_hex, sha256_of};
use crate::error::ContextError;
use crate::paths::{joined, path_join};
use crate::str_map::StrMap;

verus! {

/// Compression algorithm.
#[derive(Debug, Clone, Copy, PartialEq, Eq, Structural)]
pub enum CompressionAlgorithm {
    /// No compression
    Uncompressed,
    /// zstd
    Zstd,
    /// lz4
    Lz4,
    /// gzip
    Gzip,
}

impl Default for CompressionAlgorithm {
    fn default() -> (a: Self)
        ensures
            a == CompressionAlgorithm::Zstd,
    {
        CompressionAlgorithm::Zstd
    }
}

/// Compression settings.
#[derive(Debug, Clone)]
pub struct CompressionConfig {
    /// Algorithm
    pub algorithm: CompressionAlgorithm,
    /// Level (0-9)
    pub level: u32,
    /// Smallest content that is compressed (bytes)
    pub min_size: usize,
    /// Whether binary files are compressed
    pub compress_binary: bool,
}

impl Default for CompressionConfig {
    fn default() -> (c: Self)
        ensures
            c.algorithm == CompressionAlgorithm::Zstd,
            c.level == 3,
            c.min_size == 1024,
            !c.compress_binary,
    {
        CompressionConfig { algorithm: CompressionAlgorithm::Zstd, level: 3, min_size: 1024, compress_binary: false }
    }
}

/// The result of a garbage collection.
#[derive(Debug, Clone)]
pub struct GcResult {
    /// Objects collected
    pub collected_count: usize,
    /// Files deleted
    pub deleted_files: usize,
    /// Space freed (bytes)
    pub freed_space: u64,
}

impl Default for GcResult {
    fn default() -> (g: Self)
        ensures
            g.collected_count == 0 && g.deleted_files == 0 && g.freed_space == 0,
    {
        GcResult { collected_count: 0, deleted_files: 0, freed_space: 0 }
    }
}

/// The kind of a change in a snapshot.
#[derive(Debug, Clone, Copy, PartialEq, Eq, Structural)]
pub enum ChangeType {
    /// Added
    Added,
    /// Modified
    Modified,
    /// Deleted
    Deleted,
}

/// The summary of a snapshot.
#[derive(Debug, Clone)]
pub struct SnapshotMetadata {
    /// Description
    pub description: Option<String>,
    /// Tags
    pub tags: Vec<String>,
    /// Number of changes
    pub total_changes: usize,
    /// Number of additions
    pub added_count: usize,
    /// Number of modifications
    pub modified_count: usize,
    /// Number of deletions
    pub deleted_count: usize,
}

impl Default for SnapshotMetadata {
    fn default() -> (m: Self)
        ensures
            m.description is None && m.tags@.len() == 0 && m.total_changes == 0 && m.added_count == 0
                && m.modified_count == 0 && m.deleted_count == 0,
    {
        SnapshotMetadata {
            description: None,
            tags: Vec::new(),
            total_changes: 0,
            added_count: 0,
            modified_count: 0,
            deleted_count: 0,
        }
    }
}

/// How many of `changes` are of kind `kind`.
pub open spec fn count_of(changes: Seq<ChangeType>, kind: ChangeType) -> nat
    decreases changes.len(),
{
    if changes.len() == 0 {
        0
    } else {
        count_of(changes.drop_last(), kind) + if changes.last() == kind { 1nat } else { 0nat }
    }
}

/// The summary of a snapshot with `changes` and `description`: the number
/// of changes and of each kind.
pub fn snapshot_metadata(description: Option<&str>, changes: &[ChangeType]) -> (m: SnapshotMetadata)
    ensures
        m.total_changes == changes@.len(),
        m.added_count == count_of(changes@, ChangeType::Added),
        m.modified_count == count_of(changes@, ChangeType::Modified),
        m.deleted_count == count_of(changes@, ChangeType::Deleted),
        m.tags@.len() == 0,
        match description {
            Some(d) => m.description matches Some(t) && t@ == d@,
            None => m.description is None,
        },
{
    let desc = match description {
        Some(d) => Some(String::from_str(d)),
        None => None,
    };
    let mut m = SnapshotMetadata {
        description: desc,
        tags: Vec::new(),
        total_changes: changes.len(),
        added_count: 0,
        modified_count: 0,
        deleted_count: 0,
    };
    let mut i: usize = 0;
    while i < changes.len()
        invariant
            i <= changes@.len(),
            m.total_changes == changes@.len(),
            m.tags@.len() == 0,
            m.description == desc,
            m.added_count == count_of(changes@.take(i as int), ChangeType::Added),
            m.modified_count == count_of(changes@.take(i as int), ChangeType::Modified),
            m.deleted_count == count_of(changes@.take(i as int), ChangeType::Deleted),
            m.added_count + m.modified_count + m.deleted_count == i,
        decreases changes@.len() - i,
    {
        assert(changes@.take(i + 1).drop_last() =~= changes@.take(i as int));
        match changes[i] {
            ChangeType::Added => m.added_count = m.added_count + 1,
            ChangeType::Modified => m.modified_count = m.modified_count + 1,
            ChangeType::Deleted => m.deleted_count = m.deleted_count + 1,
        }
        i += 1;
    }
    assert(changes@.take(i as int) =~= changes@);
    m
}

/// The hash content is stored under: `0x` and the SHA-256 digest in
/// lowercase hexadecimal.
pub fn compute_hash(content: &[u8]) -> (h: String)
    ensures
        h@ == "0x"@ + hex_text(sha256_of(content@)),
        h@.len() == 66,
{
    let mut h = String::from_str("0x");
    h.append(sha256_hex(content).as_str());
    proof {
        reveal_strlit("0x");
    }
    h
}

/// The length of the run that starts `data`, counted from `k` on: the
/// bytes equal to the first, at most 255.
pub open spec fn run_from(data: Seq<u8>, k: int) -> int
    decreases 255 - k,
{
    if 0 < k && k < 255 && k < data.len() && data[k] == data[0] {
        run_from(data, k + 1)
    } else {
        k
    }
}

/// The length of the run that starts `data`.
pub open spec fn run_length(data: Seq<u8>) -> int {
    run_from(data, 1)
}

/// The run-length coding of `data`: for each run of equal bytes, at most
/// 255 long, its length and its byte.
pub open spec fn rle_encode(data: Seq<u8>) -> Seq<u8>
    decreases data.len(),
{
    if data.len() == 0 {
        Seq::empty()
    } else {
        let n = run_length(data);
        if n <= 0 || n > data.len() {
            Seq::empty()
        } else {
            seq![n as u8, data[0]] + rle_encode(data.skip(n))
        }
    }
}

/// The bytes that the pairs of `data` stand for; a last odd byte is
/// ignored.
pub open spec fn rle_decode(data: Seq<u8>) -> Seq<u8>
    decreases data.len(),
{
    if data.len() < 2 {
        Seq::empty()
    } else {
        Seq::new(data[0] as nat, |j: int| data[1]) + rle_decode(data.skip(2))
    }
}

proof fn lemma_run_from(data: Seq<u8>, k: int)
    requires
        1 <= k <= 255,
        k <= data.len(),
        forall|j: int| 0 <= j < k ==> #[trigger] data[j] == data[0],
    ensures
        k <= run_from(data, k) <= 255,
        run_from(data, k) <= data.len(),
        forall|j: int| 0 <= j < run_from(data, k) ==> #[trigger] data[j] == data[0],
    decreases 255 - k,
{
    if k < 255 && k < data.len() && data[k] == data[0] {
        lemma_run_from(data, k + 1);
    }
}

proof fn lemma_run_length(data: Seq<u8>)
    requires
        data.len() > 0,
    ensures
        1 <= run_length(data) <= 255,
        run_length(data) <= data.len(),
        forall|j: int| 0 <= j < run_length(data) ==> #[trigger] data[j] == data[0],
{
    lemma_run_from(data, 1);
}

fn rle_compress(data: &[u8]) -> (r: Vec<u8>)
    ensures
        r@ == rle_encode(data@),
{
    let mut out: Vec<u8> = Vec::new();
    let mut i: usize = 0;
    assert(data@.skip(0) =~= data@);
    assert(out@ + rle_encode(data@) =~= rle_encode(data@));
    while i < data.len()
        invariant
            i <= data@.len(),
            rle_encode(data@) == out@ + rle_encode(data@.skip(i as int)),
        decreases data@.len() - i,
    {
        let ghost rest = data@.skip(i as int);
        let current = data[i];
        let mut count: usize = 1;
        proof {
            lemma_run_length(rest);
        }
        while count < data.len() - i && data[i + count] == current && count < 255
            invariant
                i < data@.len(),
                1 <= count <= 255,
                i + count <= data@.len(),
                rest == data@.skip(i as int),
                current == rest[0],
                run_length(rest) == run_from(rest, count as int),
            decreases 255 - count,
        {
            count += 1;
        }
        let ghost n = run_length(rest);
        assert(n == count);
        out.push(count as u8);
        out.push(current);
        assert(rest.skip(n) =~= data@.skip(i + count));
        assert(rle_encode(rest) == seq![count as u8, current] + rle_encode(rest.skip(n)));
        i += count;
        assert(out@ + rle_encode(data@.skip(i as int)) =~= (out@.drop_last().drop_last() + seq![
            (count as u8),
            current,
        ]) + rle_encode(data@.skip(i as int)));
    }
    assert(data@.skip(i as int) =~= Seq::<u8>::empty());
    assert(out@ + Seq::<u8>::empty() =~= out@);
    out
}

fn rle_decompress(data: &[u8]) -> (r: Vec<u8>)
    ensures
        r@ == rle_decode(data@),
{
    let mut out: Vec<u8> = Vec::new();
    let mut i: usize = 0;
    assert(data@.skip(0) =~= data@);
    assert(out@ + rle_decode(data@) =~= rle_decode(data@));
    while data.len() - i >= 2
        invariant
            i <= data@.len(),
            rle_decode(data@) == out@ + rle_decode(data@.skip(i as int)),
        decreases data@.len() - i,
    {
        let count = data[i] as usize;
        let value = data[i + 1];
        let ghost before = out@;
        let mut k: usize = 0;
        while k < count
            invariant
                k <= count,
                out@ == before + Seq::new(k as nat, |j: int| value),
            decreases count - k,
        {
            out.push(value);
            assert(before + Seq::new((k + 1) as nat, |j: int| value) =~= (before + Seq::new(k as nat, |j: int| value)).push(value));
            k += 1;
        }
        let ghost rest = data@.skip(i as int);
        assert(rest.skip(2) =~= data@.skip(i + 2));
        assert(rle_decode(rest) == Seq::new(rest[0] as nat, |j: int| rest[1]) + rle_decode(rest.skip(2)));
        assert(Seq::new(rest[0] as nat, |j: int| rest[1]) =~= Seq::new(count as nat, |j: int| value));
        i += 2;
    }
    assert(rle_decode(data@.skip(i as int)) =~= Seq::<u8>::empty());
    assert(out@ + Seq::<u8>::empty() =~= out@);
    out
}

/// Run-length decoding gives back the data that was encoded.
pub proof fn lemma_rle_round_trip(data: Seq<u8>)
    ensures
        rle_decode(rle_encode(data)) == data,
    decreases data.len(),
{
    if data.len() > 0 {
        lemma_run_length(data);
        let n = run_length(data);
        let rest = data.skip(n);
        lemma_rle_round_trip(rest);
        let e = rle_encode(data);
        assert(e == seq![n as u8, data[0]] + rle_encode(rest));
        assert(e.skip(2) =~= rle_encode(rest));
        assert(Seq::new(e[0] as nat, |j: int| e[1]) =~= data.take(n));
        assert(data =~= data.take(n) + rest);
    } else {
        assert(rle_encode(data) =~= Seq::<u8>::empty());
        assert(data =~= Seq::<u8>::empty());
    }
}

/// The bytes stored for `data` under `algorithm`: the run-length coding,
/// or `data` itself with no compression.
pub open spec fn compressed(algorithm: CompressionAlgorithm, data: Seq<u8>) -> Seq<u8> {
    match algorithm {
        CompressionAlgorithm::Uncompressed => data,
        _ => rle_encode(data),
    }
}

/// The bytes read back from stored `data` under `algorithm`: the
/// run-length decoding, except with no compression, which gives the stored
/// bytes unchanged.
pub open spec fn decompressed(algorithm: CompressionAlgorithm, data: Seq<u8>) -> Seq<u8> {
    match algorithm {
        CompressionAlgorithm::Uncompressed => data,
        _ => rle_decode(data),
    }
}

/// Compresses `data` with `algorithm`.
pub fn compress(algorithm: CompressionAlgorithm, data: &[u8]) -> (r: Vec<u8>)
    ensures
        r@ == compressed(algorithm, data@),
{
    match algorithm {
        CompressionAlgorithm::Uncompressed => vstd::slice::slice_to_vec(data),
        _ => rle_compress(data),
    }
}

/// Decompresses stored `data` with `algorithm`.
pub fn decompress(algorithm: CompressionAlgorithm, data: &[u8]) -> (r: Vec<u8>)
    ensures
        r@ == decompressed(algorithm, data@),
{
    match algorithm {
        CompressionAlgorithm::Uncompressed => vstd::slice::slice_to_vec(data),
        _ => rle_decompress(data),
    }
}

/// Data compressed and decompressed with the same algorithm comes back
/// unchanged.
pub proof fn lemma_compress_round_trip(algorithm: CompressionAlgorithm, data: Seq<u8>)
    ensures
        decompressed(algorithm, compressed(algorithm, data)) == data,
{
    lemma_rle_round_trip(data);
}


/// An object of the store.
pub struct ContentAddressableEntry {
    /// Content hash
    pub hash: String,
    /// Size of the stored bytes
    pub compressed_size: u64,
    /// Size of the content
    pub uncompressed_size: u64,
    /// References held
    pub reference_count: u32,
    /// Last access, in milliseconds since the Unix epoch
    pub last_accessed_ms: u64,
    /// Where the bytes are stored
    pub storage_path: PathBuf,
}

/// The numbers that the store keeps of its work.
#[derive(Debug, Clone, Copy)]
pub struct StorageStats {
    /// Objects written
    pub total_objects: usize,
    /// Content bytes written
    pub total_uncompressed_size: u64,
    /// Stored bytes written
    pub total_compressed_size: u64,
    /// Space saved by deduplication
    pub dedup_savings: u64,
    /// Writes
    pub write_count: u64,
    /// Reads, deduplicated stores included
    pub read_count: u64,
}

impl Default for StorageStats {
    fn default() -> (s: Self)
        ensures
            s.total_objects == 0 && s.total_uncompressed_size == 0 && s.total_compressed_size == 0
                && s.dedup_savings == 0 && s.write_count == 0 && s.read_count == 0,
    {
        StorageStats {
            total_objects: 0,
            total_uncompressed_size: 0,
            total_compressed_size: 0,
            dedup_savings: 0,
            write_count: 0,
            read_count: 0,
        }
    }
}

/// The index of a content-addressed store: its objects by hash, with their
/// reference counts, and the numbers of its work. Reading and writing the
/// objects' files is left to the caller.
pub struct ContentAddressableStorage {
    storage_dir: PathBuf,
    index: StrMap<ContentAddressableEntry>,
    config: CompressionConfig,
    stats: StorageStats,
}

/// What storing a content asks for.
pub enum StorePlan {
    /// The content is stored already under `hash`.
    Existing { hash: String },
    /// The bytes `data` are to be written to `path`, then recorded.
    New { hash: String, data: Vec<u8>, path: PathBuf },
}

/// The subdirectory of a hash: its third and fourth characters, or `00`
/// for a hash of two characters or fewer.
pub open spec fn hash_prefix(hash: Seq<char>) -> Seq<char> {
    if hash.len() > 2 {
        hash.subrange(2, 4)
    } else {
        "00"@
    }
}

impl ContentAddressableStorage {
    /// The objects, by hash.
    pub closed spec fn objects(&self) -> Map<Seq<char>, ContentAddressableEntry> {
        self.index.contents()
    }

    /// The reference counts, by hash.
    pub open spec fn references(&self) -> Map<Seq<char>, u32> {
        self.objects().map_values(|e: ContentAddressableEntry| e.reference_count)
    }

    /// The directory the objects are stored in.
    pub closed spec fn dir(&self) -> PathBuf {
        self.storage_dir
    }

    /// The compression settings.
    pub closed spec fn settings(&self) -> CompressionConfig {
        self.config
    }

    /// The numbers of the store's work.
    pub closed spec fn counters(&self) -> StorageStats {
        self.stats
    }

    /// A store in `storage_dir` whose index holds `entries`, as read from
    /// its index file; its numbers start at zero.
    pub fn with_entries(storage_dir: PathBuf, config: CompressionConfig, entries: Vec<ContentAddressableEntry>) -> (s: Self)
        ensures
            s.dir() == storage_dir,
            s.settings() == config,
            s.counters().total_objects == 0 && s.counters().total_uncompressed_size == 0
                && s.counters().total_compressed_size == 0 && s.counters().dedup_savings == 0
                && s.counters().write_count == 0 && s.counters().read_count == 0,
            s.objects().dom() == entries@.map_values(|e: ContentAddressableEntry| e.hash@).to_set(),
    {
        let mut index: StrMap<ContentAddressableEntry> = StrMap::new();
        let mut entries = entries;
        let ghost all = entries@.map_values(|e: ContentAddressableEntry| e.hash@).to_set();
        let ghost seen: Set<Seq<char>> = Set::empty();
        while entries.len() > 0
            invariant
                index.contents().dom() + entries@.map_values(|e: ContentAddressableEntry| e.hash@).to_set()
                    == all,
            decreases entries@.len(),
        {
            let ghost before = entries@;
            let e = entries.pop().unwrap();
            let ghost rest = entries@;
            assert(before.map_values(|e: ContentAddressableEntry| e.hash@) =~= rest.map_values(
                |e: ContentAddressableEntry| e.hash@,
            ).push(e.hash@));
            let key = String::from_str(e.hash.as_str());
            index.insert(key, e);
            proof {
                let ms = rest.map_values(|e: ContentAddressableEntry| e.hash@);
                assert(ms.push(e.hash@).to_set() =~= ms.to_set().insert(e.hash@)) by {
                    assert forall|k: Seq<char>| ms.push(e.hash@).to_set().contains(k) implies ms.to_set().insert(e.hash@).contains(k) by {
                        let i = choose|i: int| 0 <= i < ms.push(e.hash@).len() && ms.push(e.hash@)[i] == k;
                        if i < ms.len() {
                            assert(ms[i] == k);
                        }
                    }
                    assert forall|k: Seq<char>| ms.to_set().insert(e.hash@).contains(k) implies ms.push(e.hash@).to_set().contains(k) by {
                        if k == e.hash@ {
                            assert(ms.push(e.hash@)[ms.len() as int] == k);
                        } else {
                            let i = choose|i: int| 0 <= i < ms.len() && ms[i] == k;
                            assert(ms.push(e.hash@)[i] == k);
                        }
                    }
                }
            }
        }
        proof {
            assert(entries@.map_values(|e: ContentAddressableEntry| e.hash@).to_set() =~= Set::<Seq<char>>::empty());
            assert(index.contents().dom() =~= all);
        }
        ContentAddressableStorage { storage_dir, index, config, stats: StorageStats::default() }
    }

    /// The number of objects.
    pub fn object_count(&self) -> (n: usize)
        ensures
            n == self.objects().dom().len(),
    {
        self.index.len()
    }

    /// Whether an object is stored under `hash`.
    pub fn contains(&self, hash: &str) -> (b: bool)
        ensures
            b == self.objects().dom().contains(hash@),
    {
        self.index.contains_key(hash)
    }

    /// The hashes of the objects, each once.
    pub fn list_hashes(&self) -> (hs: Vec<String>)
        ensures
            hs@.len() == self.objects().dom().len(),
            forall|i: int| 0 <= i < hs@.len() ==> self.objects().dom().contains(#[trigger] hs@[i]@),
            forall|k: Seq<char>|
                self.objects().dom().contains(k) ==> exists|i: int|
                    0 <= i < hs@.len() && #[trigger] hs@[i]@ == k,
    {
        self.index.keys()
    }

    /// The numbers of the store's work.
    pub fn stats(&self) -> (s: StorageStats)
        ensures
            s == self.counters(),
    {
        self.stats
    }

    /// The entry of the object `hash`, if it is stored.
    pub fn get_entry(&self, hash: &str) -> (r: Option<&ContentAddressableEntry>)
        ensures
            match r {
                Some(e) => self.objects().dom().contains(hash@) && *e == self.objects()[hash@],
                None => !self.objects().dom().contains(hash@),
            },
    {
        self.index.get(hash)
    }

    /// The reference count of `hash`, if it is stored.
    pub fn get_reference_count(&self, hash: &str) -> (r: Option<u32>)
        ensures
            match r {
                Some(n) => self.references().dom().contains(hash@) && n == self.references()[hash@],
                None => !self.references().dom().contains(hash@),
            },
    {
        match self.index.get(hash) {
            Some(e) => Some(e.reference_count),
            None => None,
        }
    }

    fn with_count(e: &ContentAddressableEntry, n: u32) -> (r: ContentAddressableEntry)
        ensures
            r.hash@ == e.hash@ && r.compressed_size == e.compressed_size && r.uncompressed_size
                == e.uncompressed_size && r.reference_count == n && r.last_accessed_ms == e.last_accessed_ms
                && r.storage_path == e.storage_path,
    {
        ContentAddressableEntry {
            hash: String::from_str(e.hash.as_str()),
            compressed_size: e.compressed_size,
            uncompressed_size: e.uncompressed_size,
            reference_count: n,
            last_accessed_ms: e.last_accessed_ms,
            storage_path: e.storage_path.clone(),
        }
    }

    /// Adds a reference to `hash`; an error where it is not stored.
    pub fn increment_reference(&mut self, hash: &str) -> (r: Result<(), ContextError>)
        requires
            old(self).references().dom().contains(hash@) ==> old(self).references()[hash@] < u32::MAX,
        ensures
            old(self).references().dom().contains(hash@) ==> r is Ok && final(self).references()
                == old(self).references().insert(hash@, (old(self).references()[hash@] + 1) as u32),
            !old(self).references().dom().contains(hash@) ==> (r matches Err(ContextError::OperationFailed(m))
                && m@ == "Hash not found: "@ + hash@) && final(self).references() == old(self).references(),
            final(self).objects().dom() == old(self).objects().dom(),
            final(self).counters() == old(self).counters(),
            final(self).dir() == old(self).dir(),
            final(self).settings() == old(self).settings(),
    {
        let updated = match self.index.get(hash) {
            Some(e) => Self::with_count(e, e.reference_count + 1),
            None => {
                let mut m = String::from_str("Hash not found: ");
                m.append(hash);
                return Err(ContextError::OperationFailed(m));
            },
        };
        let ghost before = self.objects();
        self.index.insert(String::from_str(hash), updated);
        proof {
            assert(self.references() =~= old(self).references().insert(hash@, (old(self).references()[hash@] + 1) as u32));
            assert(self.objects().dom() =~= before.dom());
        }
        Ok(())
    }

    /// Takes a reference from `hash` and gives the count left: 0 where
    /// `hash` is not stored or has no reference left, which leaves the
    /// store unchanged.
    pub fn decrement_reference(&mut self, hash: &str) -> (n: u32)
        ensures
            old(self).references().dom().contains(hash@) && old(self).references()[hash@] > 0 ==> n == old(
                self,
            ).references()[hash@] - 1 && final(self).references() == old(self).references().insert(hash@, n),
            !(old(self).references().dom().contains(hash@) && old(self).references()[hash@] > 0) ==> n == 0
                && final(self).references() == old(self).references(),
            final(self).objects().dom() == old(self).objects().dom(),
            final(self).counters() == old(self).counters(),
            final(self).dir() == old(self).dir(),
            final(self).settings() == old(self).settings(),
    {
        let updated = match self.index.get(hash) {
            Some(e) => {
                if e.reference_count == 0 {
                    return 0;
                }
                Self::with_count(e, e.reference_count - 1)
            },
            None => {
                return 0;
            },
        };
        let n = updated.reference_count;
        let ghost before = self.objects();
        self.index.insert(String::from_str(hash), updated);
        proof {
            assert(self.references() =~= old(self).references().insert(hash@, n));
            assert(self.objects().dom() =~= before.dom());
        }
        n
    }

    /// The path an object with `hash` is stored at: the store's directory,
    /// the hash's subdirectory, then the hash.
    pub fn storage_path(&self, hash: &str) -> (p: PathBuf)
        requires
            hash@.len() != 3,
            vstd::string::is_ascii(hash),
        ensures
            p == joined(joined(self.dir(), hash_prefix(hash@)), hash@),
    {
        let sub = if hash.unicode_len() > 2 {
            path_join(&self.storage_dir, hash.substring_ascii(2, 4))
        } else {
            path_join(&self.storage_dir, "00")
        };
        proof {
            reveal_strlit("00");
        }
        path_join(&sub, hash)
    }

    /// What storing `content` asks for: where an object with its hash is
    /// stored, nothing more; otherwise the bytes to write, compressed where
    /// the content reaches the smallest size to compress, and their path.
    pub fn store_plan(&self, content: &[u8]) -> (p: StorePlan)
        ensures
            ({
                let h = "0x"@ + hex_text(sha256_of(content@));
                &&& self.objects().dom().contains(h) ==> (p matches StorePlan::Existing { hash } && hash@ == h)
                &&& !self.objects().dom().contains(h) ==> (p matches StorePlan::New { hash, data, path }
                    && hash@ == h && path == joined(joined(self.dir(), hash_prefix(h)), h) && data@ == (
                if content@.len() >= self.settings().min_size {
                    compressed(self.settings().algorithm, content@)
                } else {
                    content@
                }))
            }),
    {
        let hash = compute_hash(content);
        if self.index.contains_key(hash.as_str()) {
            return StorePlan::Existing { hash };
        }
        proof {
            crate::digest::lemma_hex_ascii(sha256_of(content@));
            reveal_strlit("0x");
            assert(vstd::utf8::is_ascii_chars(hash@));
        }
        let data = if content.len() >= self.config.min_size {
            compress(self.config.algorithm, content)
        } else {
            vstd::slice::slice_to_vec(content)
        };
        let path = self.storage_path(hash.as_str());
        StorePlan::New { hash, data, path }
    }

    /// Records a store of content that is stored already under `hash`: one
    /// more reference and one more read.
    pub fn record_existing(&mut self, hash: &str) -> (r: Result<(), ContextError>)
        requires
            old(self).references().dom().contains(hash@) ==> old(self).references()[hash@] < u32::MAX,
            old(self).counters().read_count < u64::MAX,
        ensures
            old(self).references().dom().contains(hash@) ==> r is Ok && final(self).references()
                == old(self).references().insert(hash@, (old(self).references()[hash@] + 1) as u32)
                && final(self).counters() == (StorageStats {
                read_count: (old(self).counters().read_count + 1) as u64,
                ..old(self).counters()
            }),
            !old(self).references().dom().contains(hash@) ==> r is Err && final(self).references() == old(
                self,
            ).references() && final(self).counters() == old(self).counters(),
            final(self).objects().dom() == old(self).objects().dom(),
            final(self).dir() == old(self).dir(),
            final(self).settings() == old(self).settings(),
    {
        let r = self.increment_reference(hash);
        if r.is_ok() {
            self.stats.read_count = self.stats.read_count + 1;
        }
        r
    }

    /// Records an object written for a content of `content_len` bytes as
    /// `stored_len` bytes at `path`: its entry, with one reference, and the
    /// numbers of the write.
    pub fn record_new(&mut self, hash: String, content_len: u64, stored_len: u64, path: PathBuf, now_ms: u64)
        requires
            old(self).counters().total_objects < usize::MAX,
            old(self).counters().total_uncompressed_size + content_len <= u64::MAX,
            old(self).counters().total_compressed_size + stored_len <= u64::MAX,
            old(self).counters().write_count < u64::MAX,
        ensures
            final(self).objects() == old(self).objects().insert(
                hash@,
                final(self).objects()[hash@],
            ),
            final(self).objects()[hash@].hash@ == hash@,
            final(self).objects()[hash@].reference_count == 1,
            final(self).objects()[hash@].compressed_size == stored_len,
            final(self).objects()[hash@].uncompressed_size == content_len,
            final(self).objects()[hash@].last_accessed_ms == now_ms,
            final(self).objects()[hash@].storage_path == path,
            final(self).counters() == (StorageStats {
                total_objects: (old(self).counters().total_objects + 1) as usize,
                total_uncompressed_size: (old(self).counters().total_uncompressed_size + content_len) as u64,
                total_compressed_size: (old(self).counters().total_compressed_size + stored_len) as u64,
                write_count: (old(self).counters().write_count + 1) as u64,
                ..old(self).counters()
            }),
            final(self).dir() == old(self).dir(),
            final(self).settings() == old(self).settings(),
    {
        let key = String::from_str(hash.as_str());
        let e = ContentAddressableEntry {
            hash,
            compressed_size: stored_len,
            uncompressed_size: content_len,
            reference_count: 1,
            last_accessed_ms: now_ms,
            storage_path: path,
        };
        self.index.insert(key, e);
        self.stats.total_objects = self.stats.total_objects + 1;
        self.stats.total_uncompressed_size = self.stats.total_uncompressed_size + content_len;
        self.stats.total_compressed_size = self.stats.total_compressed_size + stored_len;
        self.stats.write_count = self.stats.write_count + 1;
    }

    /// Where the object `hash` is stored, and whether its bytes are
    /// compressed (its stored size differs from its content's); an error
    /// where it is not stored.
    pub fn locate(&self, hash: &str) -> (r: Result<(PathBuf, bool), ContextError>)
        ensures
            self.objects().dom().contains(hash@) ==> (r matches Ok((p, c)) && p == self.objects()[hash@].storage_path
                && c == (self.objects()[hash@].uncompressed_size != self.objects()[hash@].compressed_size)),
            !self.objects().dom().contains(hash@) ==> (r matches Err(ContextError::OperationFailed(m)) && m@
                == "Content not found: "@ + hash@),
    {
        match self.index.get(hash) {
            Some(e) => Ok((e.storage_path.clone(), e.uncompressed_size != e.compressed_size)),
            None => {
                let mut m = String::from_str("Content not found: ");
                m.append(hash);
                Err(ContextError::OperationFailed(m))
            },
        }
    }

    /// The content of the object `hash` from its `stored` bytes, decompressed
    /// where they are compressed; the access is recorded at `now_ms`.
    pub fn finish_retrieve(&mut self, hash: &str, stored: &[u8], now_ms: u64) -> (content: Vec<u8>)
        requires
            old(self).objects().dom().contains(hash@),
            old(self).counters().read_count < u64::MAX,
        ensures
            content@ == if old(self).objects()[hash@].uncompressed_size != old(self).objects()[hash@].compressed_size {
                decompressed(old(self).settings().algorithm, stored@)
            } else {
                stored@
            },
            final(self).references() == old(self).references(),
            final(self).objects().dom() == old(self).objects().dom(),
            final(self).objects()[hash@].last_accessed_ms == now_ms,
            final(self).counters() == (StorageStats {
                read_count: (old(self).counters().read_count + 1) as u64,
                ..old(self).counters()
            }),
            final(self).dir() == old(self).dir(),
            final(self).settings() == old(self).settings(),
    {
        let (updated, compressed) = match self.index.get(hash) {
            Some(e) => {
                let mut u = Self::with_count(e, e.reference_count);
                u.last_accessed_ms = now_ms;
                (u, e.uncompressed_size != e.compressed_size)
            },
            None => {
                return Vec::new();
            },
        };
        let content = if compressed {
            decompress(self.config.algorithm, stored)
        } else {
            vstd::slice::slice_to_vec(stored)
        };
        let ghost before = self.objects();
        self.index.insert(String::from_str(hash), updated);
        self.stats.read_count = self.stats.read_count + 1;
        proof {
            assert(self.references() =~= old(self).references());
            assert(self.objects().dom() =~= before.dom());
        }
        content
    }

    /// The hashes of the objects that no reference holds.
    pub fn collectable(&self) -> (hs: Vec<String>)
        ensures
            forall|i: int| 0 <= i < hs@.len() ==> self.references().dom().contains(#[trigger] hs@[i]@)
                && self.references()[hs@[i]@] == 0,
            forall|k: Seq<char>|
                self.references().dom().contains(k) && self.references()[k] == 0 ==> exists|i: int|
                    0 <= i < hs@.len() && #[trigger] hs@[i]@ == k,
    {
        let all = self.index.keys();
        let mut hs: Vec<String> = Vec::new();
        let mut i: usize = 0;
        while i < all.len()
            invariant
                i <= all@.len(),
                forall|j: int| 0 <= j < all@.len() ==> self.objects().dom().contains(#[trigger] all@[j]@),
                forall|k: Seq<char>|
                    self.objects().dom().contains(k) ==> exists|j: int|
                        0 <= j < all@.len() && #[trigger] all@[j]@ == k,
                forall|j: int| 0 <= j < hs@.len() ==> self.references().dom().contains(#[trigger] hs@[j]@)
                    && self.references()[hs@[j]@] == 0,
                forall|j: int|
                    0 <= j < i && self.references()[#[trigger] all@[j]@] == 0 ==> exists|m: int|
                        0 <= m < hs@.len() && #[trigger] hs@[m]@ == all@[j]@,
            decreases all@.len() - i,
        {
            assert(self.objects().dom().contains(all@[i as int]@));
            let ghost old_hs = hs@;
            if self.get_reference_count(all[i].as_str()) == Some(0u32) {
                hs.push(String::from_str(all[i].as_str()));
                assert(hs@[hs@.len() - 1]@ == all@[i as int]@);
            }
            proof {
                assert forall|j: int|
                    0 <= j < i + 1 && self.references()[#[trigger] all@[j]@] == 0 implies exists|m: int|
                        0 <= m < hs@.len() && #[trigger] hs@[m]@ == all@[j]@ by {
                    if j < i {
                        let m = choose|m: int| 0 <= m < old_hs.len() && #[trigger] old_hs[m]@ == all@[j]@;
                        assert(hs@[m] == old_hs[m]);
                    } else {
                        assert(hs@[hs@.len() - 1]@ == all@[j]@);
                    }
                }
            }
            i += 1;
        }
        proof {
            assert forall|k: Seq<char>|
                self.references().dom().contains(k) && self.references()[k] == 0 implies exists|m: int|
                    0 <= m < hs@.len() && #[trigger] hs@[m]@ == k by {
                let j = choose|j: int| 0 <= j < all@.len() && #[trigger] all@[j]@ == k;
                assert(self.references()[all@[j]@] == 0);
            }
        }
        hs
    }

    /// Removes the object `hash`, if stored, and takes it from the numbers
    /// of the store; gives its entry.
    pub fn remove_object(&mut self, hash: &str) -> (r: Option<ContentAddressableEntry>)
        requires
            old(self).objects().dom().contains(hash@) ==> old(self).counters().total_objects >= 1
                && old(self).counters().total_uncompressed_size >= old(self).objects()[hash@].uncompressed_size
                && old(self).counters().total_compressed_size >= old(self).objects()[hash@].compressed_size,
        ensures
            final(self).objects() == old(self).objects().remove(hash@),
            old(self).objects().dom().contains(hash@) ==> r == Some(old(self).objects()[hash@])
                && final(self).counters() == (StorageStats {
                total_objects: (old(self).counters().total_objects - 1) as usize,
                total_uncompressed_size: (old(self).counters().total_uncompressed_size - old(
                    self,
                ).objects()[hash@].uncompressed_size) as u64,
                total_compressed_size: (old(self).counters().total_compressed_size - old(
                    self,
                ).objects()[hash@].compressed_size) as u64,
                ..old(self).counters()
            }),
            !old(self).objects().dom().contains(hash@) ==> r is None && final(self).counters() == old(
                self,
            ).counters(),
            final(self).dir() == old(self).dir(),
            final(self).settings() == old(self).settings(),
    {
        let r = self.index.remove(hash);
        match &r {
            Some(e) => {
                self.stats.total_objects = self.stats.total_objects - 1;
                self.stats.total_uncompressed_size = self.stats.total_uncompressed_size - e.uncompressed_size;
                self.stats.total_compressed_size = self.stats.total_compressed_size - e.compressed_size;
            },
            None => {},
        }
        r
    }
}

/// The three kinds of change add up to all the changes of a snapshot.
pub proof fn lemma_change_counts_sum(changes: Seq<ChangeType>)
    ensures
        count_of(changes, ChangeType::Added) + count_of(changes, ChangeType::Modified) + count_of(
            changes,
            ChangeType::Deleted,
        ) == changes.len(),
    decreases changes.len(),
{
    if changes.len() > 0 {
        lemma_change_counts_sum(changes.drop_last());
    }
}

/// The bytes stored for `content` under `config`.
pub open spec fn stored_bytes(config: CompressionConfig, content: Seq<u8>) -> Seq<u8> {
    if content.len() >= config.min_size {
        compressed(config.algorithm, content)
    } else {
        content
    }
}

/// What reading back `stored` gives for an object whose content was
/// `content_len` bytes long.
pub open spec fn read_back(config: CompressionConfig, content_len: nat, stored: Seq<u8>) -> Seq<u8> {
    if content_len != stored.len() {
        decompressed(config.algorithm, stored)
    } else {
        stored
    }
}

/// A stored content reads back unchanged, unless compression left its
/// length unchanged: the store then takes the stored bytes for
/// uncompressed ones.
pub proof fn lemma_store_then_retrieve(config: CompressionConfig, content: Seq<u8>)
    requires
        content.len() >= config.min_size && config.algorithm != CompressionAlgorithm::Uncompressed
            ==> rle_encode(content).len() != content.len(),
    ensures
        read_back(config, content.len(), stored_bytes(config, content)) == content,
{
    lemma_rle_round_trip(content);
}

} // verus!
