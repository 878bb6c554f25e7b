//! The file format of saved bloom filter keys, and version migration.
//!
//! A file holds the magic number, the format version and the number of
//! keys, each little-endian, then each key as its UTF-8 length (four
//! bytes, little-endian) followed by its bytes.
use std::path::PathBuf;
use vstd::prelude::*;
use vstd::string::{StringExecFns, StringSliceAdditionalSpecFns};
use vstd::utf8::{decode_utf8, encode_utf8, valid_utf8};
use crate::error::{ContextError, IoErrorKind};
use crate::file_kv::types::{le_bytes_u32, le_bytes_u64, lemma_u32_round_trip, lemma_u64_round_trip, u32_from_le, u64_from_le};
use crate::paths::{joined, path_join};
use crate::text::{decimal, decimal_text};

verus! {

/// The current format version.
pub const CURRENT_BLOOM_VERSION: u32 = 1;

/// The magic number of bloom filter files ("BLOO").
pub const BLOOM_MAGIC: u32 = 0x424C4F4F;

/// What loading a file did about its version.
#[derive(Debug, Clone, Copy, PartialEq, Eq, Structural)]
pub enum MigrationResult {
    /// The file is in the current format.
    NoMigrationNeeded,
    /// The file was rewritten from an older version.
    Migrated { from_version: u32, to_version: u32 },
    /// The file is too old to migrate.
    UnsupportedVersion { version: u32 },
    /// The file is newer than this code.
    FutureVersion { version: u32 },
}

/// What to do with a file of format `version`.
#[derive(Debug, Clone, Copy, PartialEq, Eq, Structural)]
pub enum VersionAction {
    /// Rewrite it in the current format.
    Migrate,
    /// Read it, reporting a newer version.
    ReadFuture,
    /// Read it as it is.
    ReadCurrent,
}

/// An older version is migrated, a newer one read with a warning, the
/// current one read as it is.
pub fn version_action(version: u32) -> (a: VersionAction)
    ensures
        a == (if version < CURRENT_BLOOM_VERSION {
            VersionAction::Migrate
        } else if version > CURRENT_BLOOM_VERSION {
            VersionAction::ReadFuture
        } else {
            VersionAction::ReadCurrent
        }),
{
    if version < CURRENT_BLOOM_VERSION {
        VersionAction::Migrate
    } else if version > CURRENT_BLOOM_VERSION {
        VersionAction::ReadFuture
    } else {
        VersionAction::ReadCurrent
    }
}

/// The encoding of one key: its UTF-8 length, then its bytes.
pub open spec fn key_record(k: Seq<char>) -> Seq<u8> {
    le_bytes_u32(encode_utf8(k).len() as u32) + encode_utf8(k)
}

/// The encodings of the keys `ks`, one after another.
pub open spec fn key_records(ks: Seq<Seq<char>>) -> Seq<u8>
    decreases ks.len(),
{
    if ks.len() == 0 {
        Seq::empty()
    } else {
        key_records(ks.drop_last()) + key_record(ks.last())
    }
}

/// The file holding `ks` in the current format.
pub open spec fn bloom_file(ks: Seq<Seq<char>>) -> Seq<u8> {
    le_bytes_u32(BLOOM_MAGIC) + le_bytes_u32(CURRENT_BLOOM_VERSION) + le_bytes_u64(ks.len() as u64)
        + key_records(ks)
}

/// Outcome of reading keys from a file.
pub enum KeysRead {
    /// The keys read.
    Keys(Seq<Seq<char>>),
    /// The file ended early.
    Truncated,
    /// A key was not valid UTF-8.
    BadUtf8,
}

/// `r` with `k` put in front of the keys it read.
pub open spec fn prepend(k: Seq<char>, r: KeysRead) -> KeysRead {
    match r {
        KeysRead::Keys(ks) => KeysRead::Keys(seq![k] + ks),
        other => other,
    }
}

/// Reading `n` keys from `data` at position `pos`.
pub open spec fn read_keys(data: Seq<u8>, pos: int, n: nat) -> KeysRead
    decreases n,
{
    if n == 0 {
        KeysRead::Keys(Seq::empty())
    } else if pos + 4 > data.len() {
        KeysRead::Truncated
    } else {
        let len = u32_from_le(data, pos) as int;
        if pos + 4 + len > data.len() {
            KeysRead::Truncated
        } else {
            let bytes = data.subrange(pos + 4, pos + 4 + len);
            if !valid_utf8(bytes) {
                KeysRead::BadUtf8
            } else {
                prepend(decode_utf8(bytes), read_keys(data, pos + 4 + len, (n - 1) as nat))
            }
        }
    }
}

/// Reading the keys of file `data`: the count at byte 8, the keys from
/// byte 16.
pub open spec fn read_file_keys(data: Seq<u8>) -> KeysRead {
    if data.len() < 16 {
        KeysRead::Truncated
    } else {
        read_keys(data, 16, u64_from_le(data, 8) as nat)
    }
}

fn push_all(dst: &mut Vec<u8>, src: &[u8])
    ensures
        final(dst)@ == old(dst)@ + src@,
{
    let mut i: usize = 0;
    while i < src.len()
        invariant
            i <= src@.len(),
            dst@ == old(dst)@ + src@.take(i as int),
        decreases src@.len() - i,
    {
        dst.push(src[i]);
        assert(src@.take(i + 1) =~= src@.take(i as int).push(src@[i as int]));
        i += 1;
    }
    assert(src@.take(i as int) =~= src@);
}

fn push_u32(dst: &mut Vec<u8>, x: u32)
    ensures
        final(dst)@ == old(dst)@ + le_bytes_u32(x),
{
    let b = [(x & 0xff) as u8, ((x >> 8u32) & 0xff) as u8, ((x >> 16u32) & 0xff) as u8, ((x >> 24u32) & 0xff) as u8];
    assert(b@ =~= le_bytes_u32(x));
    push_all(dst, &b);
}

fn push_u64(dst: &mut Vec<u8>, x: u64)
    ensures
        final(dst)@ == old(dst)@ + le_bytes_u64(x),
{
    let b = [
        (x & 0xff) as u8,
        ((x >> 8u64) & 0xff) as u8,
        ((x >> 16u64) & 0xff) as u8,
        ((x >> 24u64) & 0xff) as u8,
        ((x >> 32u64) & 0xff) as u8,
        ((x >> 40u64) & 0xff) as u8,
        ((x >> 48u64) & 0xff) as u8,
        ((x >> 56u64) & 0xff) as u8,
    ];
    assert(b@ =~= le_bytes_u64(x));
    push_all(dst, &b);
}

/// The file holding `keys` in the current format.
pub fn encode_bloom_file(keys: &[String]) -> (data: Vec<u8>)
    ensures
        data@ == bloom_file(keys@.map_values(|k: String| k@)),
{
    let ghost ks = keys@.map_values(|k: String| k@);
    let mut data: Vec<u8> = Vec::new();
    push_u32(&mut data, BLOOM_MAGIC);
    push_u32(&mut data, CURRENT_BLOOM_VERSION);
    push_u64(&mut data, keys.len() as u64);
    let ghost header = data@;
    let mut i: usize = 0;
    assert(ks.take(0) =~= Seq::<Seq<char>>::empty());
    assert(header + key_records(ks.take(0)) =~= header);
    while i < keys.len()
        invariant
            i <= keys@.len(),
            ks == keys@.map_values(|k: String| k@),
            data@ == header + key_records(ks.take(i as int)),
        decreases keys@.len() - i,
    {
        let bytes = keys[i].as_str().as_bytes();
        push_u32(&mut data, bytes.len() as u32);
        push_all(&mut data, bytes);
        proof {
            assert(ks.take(i + 1).drop_last() =~= ks.take(i as int));
            assert(ks.take(i + 1).last() == keys@[i as int]@);
            assert(data@ =~= header + key_records(ks.take(i + 1)));
        }
        i += 1;
    }
    assert(ks.take(i as int) =~= ks);
    assert(data@ =~= bloom_file(ks));
    data
}

proof fn lemma_key_records_split(ks: Seq<Seq<char>>)
    requires
        ks.len() > 0,
    ensures
        key_records(ks) == key_record(ks[0]) + key_records(ks.drop_first()),
    decreases ks.len(),
{
    if ks.len() == 1 {
        assert(ks.drop_last() =~= Seq::<Seq<char>>::empty());
        assert(ks.drop_first() =~= Seq::<Seq<char>>::empty());
        assert(key_records(ks) =~= key_record(ks[0]) + key_records(ks.drop_first()));
    } else {
        lemma_key_records_split(ks.drop_last());
        assert(ks.drop_last().drop_first() =~= ks.drop_first().drop_last());
        assert(ks.drop_last()[0] == ks[0]);
        assert(ks.drop_first().last() == ks.last());
        assert(key_records(ks) =~= key_record(ks[0]) + key_records(ks.drop_first()));
    }
}

proof fn lemma_read_records(data: Seq<u8>, pos: int, ks: Seq<Seq<char>>)
    requires
        0 <= pos,
        pos + key_records(ks).len() <= data.len(),
        data.subrange(pos, pos + key_records(ks).len()) == key_records(ks),
        forall|j: int| 0 <= j < ks.len() ==> encode_utf8(#[trigger] ks[j]).len() < 0x1_0000_0000,
    ensures
        read_keys(data, pos, ks.len()) == KeysRead::Keys(ks),
    decreases ks.len(),
{
    broadcast use vstd::utf8::encode_utf8_valid_utf8, vstd::utf8::encode_utf8_decode_utf8;
    if ks.len() > 0 {
        lemma_key_records_split(ks);
        let k = ks[0];
        let e = encode_utf8(k);
        let rest = ks.drop_first();
        let rec = key_record(k);
        assert(encode_utf8(ks[0]).len() < 0x1_0000_0000);
        lemma_u32_round_trip(e.len() as u32);
        let whole = key_records(ks);
        assert(data.subrange(pos, pos + 4) =~= le_bytes_u32(e.len() as u32)) by {
            assert forall|t: int| 0 <= t < 4 implies #[trigger] data.subrange(pos, pos + 4)[t] == le_bytes_u32(e.len() as u32)[t] by {
                assert(data.subrange(pos, pos + whole.len())[t] == whole[t]);
                assert(whole[t] == rec[t]);
            }
        }
        assert(u32_from_le(data, pos) == u32_from_le(data.subrange(pos, pos + 4), 0));
        assert(u32_from_le(data, pos) as int == e.len());
        assert(data.subrange(pos + 4, pos + 4 + e.len()) =~= e) by {
            assert forall|t: int| 0 <= t < e.len() implies #[trigger] data.subrange(pos + 4, pos + 4 + e.len())[t] == e[t] by {
                assert(data.subrange(pos, pos + whole.len())[4 + t] == whole[4 + t]);
                assert(whole[4 + t] == rec[4 + t]);
            }
        }
        assert forall|j: int| 0 <= j < rest.len() implies encode_utf8(#[trigger] rest[j]).len() < 0x1_0000_0000 by {
            assert(rest[j] == ks[j + 1]);
        }
        let next = pos + 4 + e.len();
        assert(data.subrange(next, next + key_records(rest).len()) =~= key_records(rest)) by {
            assert forall|t: int| 0 <= t < key_records(rest).len() implies #[trigger] data.subrange(next, next
                + key_records(rest).len())[t] == key_records(rest)[t] by {
                assert(data.subrange(pos, pos + whole.len())[rec.len() + t] == whole[rec.len() + t]);
            }
        }
        lemma_read_records(data, next, rest);
        assert(seq![k] + rest =~= ks);
        assert(rec.len() == 4 + e.len());
        assert(pos + 4 <= data.len());
        assert(pos + 4 + e.len() <= data.len());
        assert(valid_utf8(e));
        assert(decode_utf8(e) == k);
        assert(read_keys(data, next, (ks.len() - 1) as nat) == KeysRead::Keys(rest));
        assert(read_keys(data, pos, ks.len()) == prepend(k, KeysRead::Keys(rest)));
    } else {
        assert(ks =~= Seq::<Seq<char>>::empty());
    }
}

/// Reading the keys of a file written by `encode_bloom_file` gives the
/// keys back, where each key is shorter than 4 GiB in UTF-8 and there are
/// fewer than 2^64 of them.
pub proof fn lemma_bloom_file_round_trip(ks: Seq<Seq<char>>)
    requires
        ks.len() < 0x1_0000_0000_0000_0000,
        forall|j: int| 0 <= j < ks.len() ==> encode_utf8(#[trigger] ks[j]).len() < 0x1_0000_0000,
    ensures
        read_file_keys(bloom_file(ks)) == KeysRead::Keys(ks),
{
    let data = bloom_file(ks);
    let header = le_bytes_u32(BLOOM_MAGIC) + le_bytes_u32(CURRENT_BLOOM_VERSION) + le_bytes_u64(ks.len() as u64);
    assert(header.len() == 16);
    lemma_u64_round_trip(ks.len() as u64);
    assert(data.subrange(8, 16) =~= le_bytes_u64(ks.len() as u64));
    assert(u64_from_le(data, 8) == u64_from_le(data.subrange(8, 16), 0));
    assert(data.subrange(16, 16 + key_records(ks).len() as int) =~= key_records(ks));
    lemma_read_records(data, 16, ks);
}

/// `String::from_utf8`: the string that `bytes` encode in UTF-8, or, where
/// they are not valid UTF-8, the error's text. Nothing is stated of that
/// text.
#[verifier::external_body]
fn utf8_string(bytes: Vec<u8>) -> (r: Result<String, String>)
    ensures
        r matches Ok(s) ==> valid_utf8(bytes@) && s@ == decode_utf8(bytes@),
        r is Err ==> !valid_utf8(bytes@),
{
    match String::from_utf8(bytes) {
        Ok(s) => Ok(s),
        Err(e) => Err(e.to_string()),
    }
}

/// The text that prefixes the message of a key that is not UTF-8.
pub open spec fn bad_key_prefix() -> Seq<char> {
    "Invalid UTF-8 in bloom filter key: "@
}

/// Reads the keys of the file `data`. A file that ends early gives an I/O
/// error of kind `UnexpectedEof`; a key that is not UTF-8 gives a failure
/// whose message starts with `bad_key_prefix()`.
pub fn decode_bloom_keys(data: &[u8]) -> (r: Result<Vec<String>, ContextError>)
    ensures
        read_file_keys(data@) matches KeysRead::Keys(ks) ==> (r matches Ok(v) && v@.map_values(|k: String| k@) == ks),
        read_file_keys(data@) is Truncated ==> (r matches Err(ContextError::Io(k)) && k == IoErrorKind::UnexpectedEof),
        read_file_keys(data@) is BadUtf8 ==> (r matches Err(ContextError::OperationFailed(m)) && m@.len()
            >= bad_key_prefix().len() && m@.subrange(0, bad_key_prefix().len() as int) == bad_key_prefix()),
{
    if data.len() < 16 {
        return Err(ContextError::Io(IoErrorKind::UnexpectedEof));
    }
    let n = read_u64(data, 8);
    let mut keys: Vec<String> = Vec::new();
    let mut pos: usize = 16;
    let mut i: u64 = 0;
    while i < n
        invariant
            16 <= pos <= data@.len(),
            i <= n,
            n == u64_from_le(data@, 8),
            data@.len() >= 16,
            read_file_keys(data@) == match read_keys(data@, pos as int, (n - i) as nat) {
                KeysRead::Keys(rest) => KeysRead::Keys(keys@.map_values(|k: String| k@) + rest),
                other => other,
            },
        decreases n - i,
    {
        let ghost done = keys@.map_values(|k: String| k@);
        if data.len() - pos < 4 {
            return Err(ContextError::Io(IoErrorKind::UnexpectedEof));
        }
        let len = read_u32(data, pos) as usize;
        if data.len() - pos - 4 < len {
            return Err(ContextError::Io(IoErrorKind::UnexpectedEof));
        }
        let start = pos + 4;
        let end = start + len;
        let mut bytes: Vec<u8> = Vec::new();
        let mut j: usize = start;
        while j < end
            invariant
                start <= j <= end,
                end <= data@.len(),
                bytes@ == data@.subrange(start as int, j as int),
            decreases end - j,
        {
            bytes.push(data[j]);
            assert(data@.subrange(start as int, j + 1) =~= data@.subrange(start as int, j as int).push(data@[j as int]));
            j += 1;
        }
        match utf8_string(bytes) {
            Ok(s) => {
                let ghost k = s@;
                keys.push(s);
                proof {
                    assert(keys@.map_values(|k: String| k@) =~= done.push(k));
                    let rest = read_keys(data@, end as int, (n - i - 1) as nat);
                    if let KeysRead::Keys(r) = rest {
                        assert(done + (seq![k] + r) =~= done.push(k) + r);
                    }
                }
                pos = end;
            },
            Err(e) => {
                let mut m = String::from_str("Invalid UTF-8 in bloom filter key: ");
                m.append(e.as_str());
                return Err(ContextError::OperationFailed(m));
            },
        }
        i += 1;
    }
    assert(keys@.map_values(|k: String| k@) + Seq::<Seq<char>>::empty() =~= keys@.map_values(|k: String| k@));
    Ok(keys)
}

fn read_u64(d: &[u8], at: usize) -> (x: u64)
    requires
        at + 8 <= d@.len(),
    ensures
        x == u64_from_le(d@, at as int),
{
    (d[at] as u64) | ((d[at + 1] as u64) << 8u64) | ((d[at + 2] as u64) << 16u64) | ((d[at + 3] as u64)
        << 24u64) | ((d[at + 4] as u64) << 32u64) | ((d[at + 5] as u64) << 40u64) | ((d[at + 6] as u64)
        << 48u64) | ((d[at + 7] as u64) << 56u64)
}

fn read_u32(d: &[u8], at: usize) -> (x: u32)
    requires
        at + 4 <= d@.len(),
    ensures
        x == u32_from_le(d@, at as int),
{
    (d[at] as u32) | ((d[at + 1] as u32) << 8u32) | ((d[at + 2] as u32) << 16u32) | ((d[at + 3] as u32) << 24u32)
}

/// The eight uppercase hexadecimal digits of `x`, most significant first.
pub open spec fn hex8_upper(x: u32) -> Seq<char> {
    Seq::new(8, |i: int| upper_digit(((x >> ((28 - 4 * i) as u32)) & 0xf) as u8))
}

/// The uppercase hexadecimal digit of `n`, which is below sixteen.
pub open spec fn upper_digit(n: u8) -> char {
    if n < 10 { ((n + 48) as u8) as char } else { ((n + 55) as u8) as char }
}

pub(crate) fn hex8_text(x: u32) -> (s: String)
    ensures
        s@ == hex8_upper(x),
{
    let mut s = String::new();
    let mut i: u32 = 0;
    while i < 8
        invariant
            i <= 8,
            s@ == hex8_upper(x).take(i as int),
        decreases 8 - i,
    {
        let shift: u32 = 28 - 4 * i;
        assert(((x >> shift) & 0xf) <= 15) by (bit_vector);
        let n = ((x >> shift) & 0xf) as u8;
        let c: char = if n < 10 { (n + 48) as char } else { (n + 55) as char };
        assert(c == upper_digit(n));
        crate::text::push_char(&mut s, c);
        assert(hex8_upper(x).take(i + 1) =~= hex8_upper(x).take(i as int).push(c));
        i += 1;
    }
    assert(hex8_upper(x).take(8) =~= hex8_upper(x));
    s
}

/// The message of a file whose magic number is `got`.
pub open spec fn bad_magic_message(got: u32) -> Seq<char> {
    "Invalid bloom filter magic: expected "@ + hex8_upper(BLOOM_MAGIC) + ", got "@ + hex8_upper(got)
}

/// Checks the header of the file `data` and returns its format version:
/// an I/O error of kind `UnexpectedEof` where it is shorter than eight
/// bytes, a failure where the magic number is wrong.
pub fn check_bloom_header(data: &[u8]) -> (r: Result<u32, ContextError>)
    ensures
        data@.len() < 8 ==> (r matches Err(ContextError::Io(k)) && k == IoErrorKind::UnexpectedEof),
        data@.len() >= 8 && u32_from_le(data@, 0) != BLOOM_MAGIC ==> (r matches Err(
            ContextError::OperationFailed(m)) && m@ == bad_magic_message(u32_from_le(data@, 0))),
        data@.len() >= 8 && u32_from_le(data@, 0) == BLOOM_MAGIC ==> r == Ok::<u32, ContextError>(
            u32_from_le(data@, 4)),
{
    if data.len() < 8 {
        return Err(ContextError::Io(IoErrorKind::UnexpectedEof));
    }
    let magic = read_u32(data, 0);
    let version = read_u32(data, 4);
    if magic != BLOOM_MAGIC {
        let mut m = String::from_str("Invalid bloom filter magic: expected ");
        m.append(hex8_text(BLOOM_MAGIC).as_str());
        m.append(", got ");
        m.append(hex8_text(magic).as_str());
        return Err(ContextError::OperationFailed(m));
    }
    Ok(version)
}

/// `n` in decimal, padded with zeros to at least six digits.
pub open spec fn padded6(n: u64) -> Seq<char> {
    let d = decimal(n as nat);
    if d.len() < 6 { Seq::new((6 - d.len()) as nat, |i: int| '0') + d } else { d }
}

fn padded6_text(n: u64) -> (s: String)
    ensures
        s@ == padded6(n),
{
    let d = decimal_text(n);
    let dl = crate::text::chars_of(d.as_str()).len();
    let mut s = String::new();
    let count: usize = if dl < 6 { 6 - dl } else { 0 };
    let mut i: usize = 0;
    while i < count
        invariant
            i <= count,
            s@ == Seq::new(i as nat, |j: int| '0'),
        decreases count - i,
    {
        crate::text::push_char(&mut s, '0');
        assert(s@ =~= Seq::new((i + 1) as nat, |j: int| '0'));
        i += 1;
    }
    s.append(d.as_str());
    proof {
        if d@.len() >= 6 {
            assert(s@ =~= d@);
        }
    }
    s
}

/// Saves and loads bloom filter key files in an index directory.
pub struct BloomFilterMigrator {
    index_dir: PathBuf,
}

impl BloomFilterMigrator {
    /// The index directory.
    pub closed spec fn dir_spec(&self) -> PathBuf {
        self.index_dir
    }

    /// A migrator for the files in `index_dir`.
    pub fn new(index_dir: PathBuf) -> (m: Self)
        ensures
            m.dir_spec() == index_dir,
    {
        BloomFilterMigrator { index_dir }
    }

    /// The file of segment `segment_id`: `bloom_` and the id padded to six
    /// digits, with the extension `bin`.
    pub fn bloom_path(&self, segment_id: u64) -> (p: PathBuf)
        ensures
            p == joined(self.dir_spec(), "bloom_"@ + padded6(segment_id) + ".bin"@),
    {
        let mut name = String::from_str("bloom_");
        name.append(padded6_text(segment_id).as_str());
        name.append(".bin");
        path_join(&self.index_dir, name.as_str())
    }

    /// The temporary file of segment `segment_id`, with the extension `tmp`.
    pub fn temp_path(&self, segment_id: u64) -> (p: PathBuf)
        ensures
            p == joined(self.dir_spec(), "bloom_"@ + padded6(segment_id) + ".tmp"@),
    {
        let mut name = String::from_str("bloom_");
        name.append(padded6_text(segment_id).as_str());
        name.append(".tmp");
        path_join(&self.index_dir, name.as_str())
    }
}

} // verus!
