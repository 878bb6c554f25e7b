//! The entry format of segment files.
//!
//! A segment file starts with a header (magic number and version, four
//! bytes each, little-endian). Each entry is the key's length, the key's
//! UTF-8 bytes, the value's length, the value, and the CRC-32C checksum of
//! key and value; lengths and checksum are four bytes, little-endian.
use vstd::prelude::*;
use vstd::string::{StringExecFns, StringSliceAdditionalSpecFns};
use vstd::utf8::encode_utf8;
use crate::error::ContextError;
use crate::file_kv::types::{le_bytes_u32, lemma_u32_round_trip, u32_from_le};
use crate::text::{decimal, decimal_text, lemma_same_text, lenient_text, lossy_text, same_bytes};
use crate::file_kv::bloom_migration::{hex8_text, hex8_upper};

verus! {

/// Magic number of segment files ("TCSG").
pub const SEGMENT_MAGIC: u32 = 0x54435347;
/// Version of the segment format.
pub const SEGMENT_VERSION: u32 = 1;
/// Most entries one scan looks at.
pub const MAX_SCAN_ENTRIES: u64 = 1000;

/// One shift of the CRC-32C register `c`, with the reflected polynomial
/// 0x82F63B78.
pub open spec fn crc_shift(c: u32) -> u32 {
    if c & 1u32 == 1u32 {
        (c >> 1u32) ^ 0x82F63B78u32
    } else {
        c >> 1u32
    }
}

/// The CRC-32C register `c` after the byte `b`: `b` folded in, then eight
/// shifts.
pub open spec fn crc_byte(c: u32, b: u8) -> u32 {
    let x = c ^ (b as u32);
    crc_shift(crc_shift(crc_shift(crc_shift(crc_shift(crc_shift(crc_shift(crc_shift(x))))))))
}

/// The CRC-32C register `c` after the bytes `data`, first to last.
pub open spec fn crc_register(c: u32, data: Seq<u8>) -> u32
    decreases data.len(),
{
    if data.len() == 0 {
        c
    } else {
        crc_byte(crc_register(c, data.drop_last()), data.last())
    }
}

/// The CRC-32C checksum of `data` continued from the checksum `crc`: the
/// register starts at `crc` inverted and ends inverted.
#[verifier::opaque]
pub open spec fn crc32c_append_of(crc: u32, data: Seq<u8>) -> u32 {
    crc_register(crc ^ 0xffff_ffffu32, data) ^ 0xffff_ffffu32
}

/// `crc32c::crc32c_append`: the CRC-32C checksum of `data` continued from
/// `crc`. The contract claims that the crate computes CRC-32C as
/// `crc32c_append_of` states it, bit by bit; the crate does so with lookup
/// tables or the processor's instruction.
#[verifier::external_body]
pub(crate) fn crc_append(crc: u32, data: &[u8]) -> (r: u32)
    ensures
        r == crc32c_append_of(crc, data@),
{
    crc32c::crc32c_append(crc, data)
}

/// The checksum of an entry: key bytes, then value, from zero.
pub open spec fn entry_checksum(key_bytes: Seq<u8>, value: Seq<u8>) -> u32 {
    crc32c_append_of(crc32c_append_of(0, key_bytes), value)
}

/// The bytes of an entry for `key` and `value`.
#[verifier::opaque]
pub open spec fn entry_bytes(key: Seq<char>, value: Seq<u8>) -> Seq<u8> {
    let kb = encode_utf8(key);
    le_bytes_u32(kb.len() as u32) + kb + le_bytes_u32(value.len() as u32) + value + le_bytes_u32(
        entry_checksum(kb, value),
    )
}

fn push_all(dst: &mut Vec<u8>, src: &[u8])
    ensures
        final(dst)@ == old(dst)@ + src@,
{
    let mut i: usize = 0;
    while i < src.len()
        invariant
            i <= src@.len(),
            dst@ == old(dst)@ + src@.take(i as int),
        decreases src@.len() - i,
    {
        dst.push(src[i]);
        assert(src@.take(i + 1) =~= src@.take(i as int).push(src@[i as int]));
        i += 1;
    }
    assert(src@.take(i as int) =~= src@);
}

fn push_u32(dst: &mut Vec<u8>, x: u32)
    ensures
        final(dst)@ == old(dst)@ + le_bytes_u32(x),
{
    let b = [(x & 0xff) as u8, ((x >> 8u32) & 0xff) as u8, ((x >> 16u32) & 0xff) as u8, ((x >> 24u32) & 0xff) as u8];
    assert(b@ =~= le_bytes_u32(x));
    push_all(dst, &b);
}

/// The entry for `key` and `value`, with its checksum.
pub fn encode_entry(key: &str, value: &[u8]) -> (r: (Vec<u8>, u32))
    ensures
        r.0@ == entry_bytes(key@, value@),
        r.1 == entry_checksum(encode_utf8(key@), value@),
{
    let kb = key.as_bytes();
    let c1 = crc_append(0, kb);
    let checksum = crc_append(c1, value);
    let mut out: Vec<u8> = Vec::new();
    push_u32(&mut out, kb.len() as u32);
    push_all(&mut out, kb);
    push_u32(&mut out, value.len() as u32);
    push_all(&mut out, value);
    push_u32(&mut out, checksum);
    reveal(entry_bytes);
    assert(out@ =~= entry_bytes(key@, value@));
    (out, checksum)
}

/// The header of a segment file.
pub open spec fn segment_header() -> Seq<u8> {
    le_bytes_u32(SEGMENT_MAGIC) + le_bytes_u32(SEGMENT_VERSION)
}

/// The header of a segment file.
pub fn encode_header() -> (h: Vec<u8>)
    ensures
        h@ == segment_header(),
{
    let mut h: Vec<u8> = Vec::new();
    push_u32(&mut h, SEGMENT_MAGIC);
    push_u32(&mut h, SEGMENT_VERSION);
    h
}

fn read_u32(d: &[u8], at: usize) -> (x: u32)
    requires
        at + 4 <= d@.len(),
    ensures
        x == u32_from_le(d@, at as int),
{
    (d[at] as u32) | ((d[at + 1] as u32) << 8u32) | ((d[at + 2] as u32) << 16u32) | ((d[at + 3] as u32) << 24u32)
}

fn copy_range(d: &[u8], from: usize, to: usize) -> (v: Vec<u8>)
    requires
        from <= to <= d@.len(),
    ensures
        v@ == d@.subrange(from as int, to as int),
{
    let mut v: Vec<u8> = Vec::new();
    let mut j: usize = from;
    while j < to
        invariant
            from <= j <= to,
            to <= d@.len(),
            v@ == d@.subrange(from as int, j as int),
        decreases to - j,
    {
        v.push(d[j]);
        assert(d@.subrange(from as int, j + 1) =~= d@.subrange(from as int, j as int).push(d@[j as int]));
        j += 1;
    }
    v
}

/// How reading a value or an entry at an offset ends.
pub enum EntryRead {
    /// The offset lies at or beyond the end of the file.
    OutOfBounds,
    /// Fewer than four bytes remain for the key length.
    NoKeyLength,
    /// The key runs past the end.
    KeyPastEnd,
    /// Fewer than four bytes remain for the value length.
    NoValueLength,
    /// The value runs past the end.
    ValuePastEnd,
    /// Fewer than four bytes remain for the checksum.
    NoChecksum,
    /// The stored checksum differs from the computed one.
    ChecksumMismatch { stored: u32, computed: u32 },
    /// The entry read: key, value and checksum.
    Entry { key: Seq<char>, value: Seq<u8>, checksum: u32 },
}

/// Reading the entry of `data` at `offset`. The key is decoded leniently;
/// the checksum is computed over the decoded key's bytes and the value.
pub open spec fn entry_read(data: Seq<u8>, offset: int) -> EntryRead {
    let len = data.len() as int;
    if offset >= len {
        EntryRead::OutOfBounds
    } else if offset + 4 > len {
        EntryRead::NoKeyLength
    } else {
        let kl = u32_from_le(data, offset) as int;
        let p1 = offset + 4;
        if p1 + kl > len {
            EntryRead::KeyPastEnd
        } else {
            let key = lenient_text(data.subrange(p1, p1 + kl));
            let p2 = p1 + kl;
            if p2 + 4 > len {
                EntryRead::NoValueLength
            } else {
                let vl = u32_from_le(data, p2) as int;
                let p3 = p2 + 4;
                if p3 + vl > len {
                    EntryRead::ValuePastEnd
                } else {
                    let value = data.subrange(p3, p3 + vl);
                    let p4 = p3 + vl;
                    if p4 + 4 > len {
                        EntryRead::NoChecksum
                    } else {
                        let stored = u32_from_le(data, p4);
                        let computed = entry_checksum(encode_utf8(key), value);
                        if stored != computed {
                            EntryRead::ChecksumMismatch { stored, computed }
                        } else {
                            EntryRead::Entry { key, value, checksum: stored }
                        }
                    }
                }
            }
        }
    }
}

/// The message of an offset beyond the end of the file.
pub open spec fn out_of_bounds_message(offset: u64, size: nat) -> Seq<char> {
    "Read offset "@ + decimal(offset as nat) + " out of bounds (file size: "@ + decimal(size) + ")"@
}

fn out_of_bounds_text(offset: u64, size: usize) -> (s: String)
    ensures
        s@ == out_of_bounds_message(offset, size as nat),
{
    let mut s = String::from_str("Read offset ");
    s.append(decimal_text(offset).as_str());
    s.append(" out of bounds (file size: ");
    s.append(decimal_text(size as u64).as_str());
    s.append(")");
    s
}

/// Whether `e` is a failure whose message is `m`.
pub open spec fn failure_with(e: ContextError, m: Seq<char>) -> bool {
    e matches ContextError::OperationFailed(t) && t@ == m
}

/// The message of a failed entry read.
pub open spec fn entry_read_message(offset: u64, size: nat, r: EntryRead) -> Seq<char> {
    match r {
        EntryRead::OutOfBounds => out_of_bounds_message(offset, size),
        EntryRead::NoKeyLength => "Invalid entry offset: not enough data for key length"@,
        EntryRead::KeyPastEnd => "Invalid entry: key extends beyond file boundary"@,
        EntryRead::NoValueLength => "Invalid entry: not enough data for value length"@,
        EntryRead::ValuePastEnd => "Invalid entry: value extends beyond file boundary"@,
        EntryRead::NoChecksum => "Invalid entry: not enough data for checksum"@,
        EntryRead::ChecksumMismatch { stored, computed } => "Checksum mismatch at offset "@ + decimal(
            offset as nat,
        ) + ": expected "@ + hex8_upper(stored) + ", got "@ + hex8_upper(computed),
        EntryRead::Entry { .. } => Seq::empty(),
    }
}

/// Reads the entry of the segment file `data` at `offset`: its key, value
/// and checksum, where the entry lies within the file and its checksum
/// matches; a failure saying what is wrong otherwise.
pub fn read_entry_at(data: &[u8], offset: u64) -> (r: Result<(String, Vec<u8>, u32), ContextError>)
    ensures
        entry_read(data@, offset as int) matches EntryRead::Entry { key, value, checksum } ==> (r matches Ok(t)
            && t.0@ == key && t.1@ == value && t.2 == checksum),
        !(entry_read(data@, offset as int) is Entry) ==> (r matches Err(e) && failure_with(e,
            entry_read_message(offset, data@.len(), entry_read(data@, offset as int)))),
{
    let len = data.len();
    if offset >= len as u64 {
        return Err(ContextError::OperationFailed(out_of_bounds_text(offset, len)));
    }
    let pos = offset as usize;
    if len - pos < 4 {
        return Err(ContextError::OperationFailed(String::from_str("Invalid entry offset: not enough data for key length")));
    }
    let kl = read_u32(data, pos) as usize;
    let p1 = pos + 4;
    if len - p1 < kl {
        return Err(ContextError::OperationFailed(String::from_str("Invalid entry: key extends beyond file boundary")));
    }
    let key_bytes = copy_range(data, p1, p1 + kl);
    let key = lossy_text(key_bytes.as_slice());
    let p2 = p1 + kl;
    if len - p2 < 4 {
        return Err(ContextError::OperationFailed(String::from_str("Invalid entry: not enough data for value length")));
    }
    let vl = read_u32(data, p2) as usize;
    let p3 = p2 + 4;
    if len - p3 < vl {
        return Err(ContextError::OperationFailed(String::from_str("Invalid entry: value extends beyond file boundary")));
    }
    let value = copy_range(data, p3, p3 + vl);
    let p4 = p3 + vl;
    if len - p4 < 4 {
        return Err(ContextError::OperationFailed(String::from_str("Invalid entry: not enough data for checksum")));
    }
    let stored = read_u32(data, p4);
    let c1 = crc_append(0, key.as_str().as_bytes());
    let computed = crc_append(c1, value.as_slice());
    if stored != computed {
        let mut m = String::from_str("Checksum mismatch at offset ");
        m.append(decimal_text(offset).as_str());
        m.append(": expected ");
        m.append(hex8_text(stored).as_str());
        m.append(", got ");
        m.append(hex8_text(computed).as_str());
        return Err(ContextError::OperationFailed(m));
    }
    Ok((key, value, stored))
}

/// How reading the value at an offset ends.
pub enum ValueRead {
    /// The offset lies at or beyond the end of the file.
    OutOfBounds,
    /// Fewer than four bytes remain at `pos` for the key length.
    NoKeyLength { pos: int },
    /// The key of `key_len` bytes from `pos` runs past the end.
    KeyPastEnd { pos: int, key_len: int },
    /// Fewer than four bytes remain at `pos` for the value length.
    NoValueLength { pos: int },
    /// The value of `value_len` bytes from `pos` runs past the end.
    ValuePastEnd { pos: int, value_len: int },
    /// The value read.
    Value { value: Seq<u8> },
}

/// Reading the value of the entry of `data` at `offset`; the checksum is
/// not looked at.
pub open spec fn value_read(data: Seq<u8>, offset: int) -> ValueRead {
    let len = data.len() as int;
    if offset >= len {
        ValueRead::OutOfBounds
    } else if offset + 4 > len {
        ValueRead::NoKeyLength { pos: offset }
    } else {
        let kl = u32_from_le(data, offset) as int;
        let p1 = offset + 4;
        if p1 + kl > len {
            ValueRead::KeyPastEnd { pos: p1, key_len: kl }
        } else if p1 + kl + 4 > len {
            ValueRead::NoValueLength { pos: p1 + kl }
        } else {
            let vl = u32_from_le(data, p1 + kl) as int;
            let p3 = p1 + kl + 4;
            if p3 + vl > len {
                ValueRead::ValuePastEnd { pos: p3, value_len: vl }
            } else {
                ValueRead::Value { value: data.subrange(p3, p3 + vl) }
            }
        }
    }
}

/// The message of a failed value read.
pub open spec fn value_read_message(offset: u64, size: nat, r: ValueRead) -> Seq<char> {
    match r {
        ValueRead::OutOfBounds => out_of_bounds_message(offset, size),
        ValueRead::NoKeyLength { pos } => "Invalid offset: not enough data for key length (pos="@
            + decimal(pos as nat) + ", mmap_size="@ + decimal(size) + ")"@,
        ValueRead::KeyPastEnd { pos, key_len } => "Invalid key length: extends beyond file (pos="@
            + decimal(pos as nat) + ", key_len="@ + decimal(key_len as nat) + ", mmap_size="@
            + decimal(size) + ")"@,
        ValueRead::NoValueLength { pos } => "Invalid offset: not enough data for value length (pos="@
            + decimal(pos as nat) + ", mmap_size="@ + decimal(size) + ")"@,
        ValueRead::ValuePastEnd { pos, value_len } =>
            "Invalid value length: extends beyond file (pos="@ + decimal(pos as nat) + ", value_len="@
            + decimal(value_len as nat) + ", mmap_size="@ + decimal(size) + ")"@,
        ValueRead::Value { .. } => Seq::empty(),
    }
}

fn pos_message(head: &str, pos: usize, size: usize) -> (s: String)
    ensures
        s@ == head@ + "(pos="@ + decimal(pos as nat) + ", mmap_size="@ + decimal(size as nat) + ")"@,
{
    let mut s = String::from_str(head);
    s.append("(pos=");
    s.append(decimal_text(pos as u64).as_str());
    s.append(", mmap_size=");
    s.append(decimal_text(size as u64).as_str());
    s.append(")");
    s
}

fn pos_len_message(head: &str, pos: usize, label: &str, n: usize, size: usize) -> (s: String)
    ensures
        s@ == head@ + "(pos="@ + decimal(pos as nat) + label@ + decimal(n as nat) + ", mmap_size="@
            + decimal(size as nat) + ")"@,
{
    let mut s = String::from_str(head);
    s.append("(pos=");
    s.append(decimal_text(pos as u64).as_str());
    s.append(label);
    s.append(decimal_text(n as u64).as_str());
    s.append(", mmap_size=");
    s.append(decimal_text(size as u64).as_str());
    s.append(")");
    s
}

/// Reads the value of the entry of the segment file `data` at `offset`,
/// without checking its checksum; a failure naming the position where the
/// entry does not lie within the file.
pub fn read_value_at(data: &[u8], offset: u64) -> (r: Result<Vec<u8>, ContextError>)
    ensures
        value_read(data@, offset as int) matches ValueRead::Value { value } ==> (r matches Ok(v)
            && v@ == value),
        !(value_read(data@, offset as int) is Value) ==> (r matches Err(e) && failure_with(e,
            value_read_message(offset, data@.len(), value_read(data@, offset as int)))),
{
    let len = data.len();
    if offset >= len as u64 {
        return Err(ContextError::OperationFailed(out_of_bounds_text(offset, len)));
    }
    let pos = offset as usize;
    if len - pos < 4 {
        let m = pos_message("Invalid offset: not enough data for key length ", pos, len);
        proof {
            reveal_strlit("Invalid offset: not enough data for key length ");
            reveal_strlit("Invalid offset: not enough data for key length (pos=");
            reveal_strlit("(pos=");
            assert(m@ =~= value_read_message(offset, data@.len(), value_read(data@, offset as int)));
        }
        return Err(ContextError::OperationFailed(m));
    }
    let kl = read_u32(data, pos) as usize;
    let p1 = pos + 4;
    if len - p1 < kl {
        let m = pos_len_message("Invalid key length: extends beyond file ", p1, ", key_len=", kl, len);
        proof {
            reveal_strlit("Invalid key length: extends beyond file ");
            reveal_strlit("Invalid key length: extends beyond file (pos=");
            reveal_strlit("(pos=");
            assert(m@ =~= value_read_message(offset, data@.len(), value_read(data@, offset as int)));
        }
        return Err(ContextError::OperationFailed(m));
    }
    let p2 = p1 + kl;
    if len - p2 < 4 {
        let m = pos_message("Invalid offset: not enough data for value length ", p2, len);
        proof {
            reveal_strlit("Invalid offset: not enough data for value length ");
            reveal_strlit("Invalid offset: not enough data for value length (pos=");
            reveal_strlit("(pos=");
            assert(m@ =~= value_read_message(offset, data@.len(), value_read(data@, offset as int)));
        }
        return Err(ContextError::OperationFailed(m));
    }
    let vl = read_u32(data, p2) as usize;
    let p3 = p2 + 4;
    if len - p3 < vl {
        let m = pos_len_message("Invalid value length: extends beyond file ", p3, ", value_len=", vl, len);
        proof {
            reveal_strlit("Invalid value length: extends beyond file ");
            reveal_strlit("Invalid value length: extends beyond file (pos=");
            reveal_strlit("(pos=");
            assert(m@ =~= value_read_message(offset, data@.len(), value_read(data@, offset as int)));
        }
        return Err(ContextError::OperationFailed(m));
    }
    Ok(copy_range(data, p3, p3 + vl))
}


/// Whether `a` comes after `b` in byte-wise lexicographic order, looking
/// from index `i` on where the bytes before it agree.
pub open spec fn bytes_after_from(a: Seq<u8>, b: Seq<u8>, i: int) -> bool
    decreases a.len() - i,
{
    if i < 0 || i >= a.len() {
        false
    } else if i >= b.len() {
        true
    } else if a[i] != b[i] {
        a[i] > b[i]
    } else {
        bytes_after_from(a, b, i + 1)
    }
}

/// Whether `a` comes after `b` in byte-wise lexicographic order, the order
/// of `str`.
pub open spec fn bytes_after(a: Seq<u8>, b: Seq<u8>) -> bool {
    bytes_after_from(a, b, 0)
}

fn after(a: &[u8], b: &[u8]) -> (r: bool)
    ensures
        r == bytes_after(a@, b@),
{
    let mut i: usize = 0;
    while i < a.len() && i < b.len() && a[i] == b[i]
        invariant
            i <= a@.len(),
            i <= b@.len(),
            bytes_after(a@, b@) == bytes_after_from(a@, b@, i as int),
        decreases a@.len() - i,
    {
        i += 1;
    }
    if i >= a.len() {
        false
    } else if i >= b.len() {
        true
    } else {
        a[i] > b[i]
    }
}

/// What a scan from `pos` for the key `target` finds within `budget`
/// entries: the first entry whose key is `target` and whose checksum
/// matches. The scan stops at an entry that does not lie within the file,
/// and after an entry whose key comes after `target`.
pub open spec fn scan_result(data: Seq<u8>, pos: int, target: Seq<char>, budget: nat) -> Option<
    (Seq<char>, Seq<u8>, u32),
>
    decreases budget,
{
    let len = data.len() as int;
    if budget == 0 || pos < 0 || pos + 4 > len {
        None
    } else {
        let kl = u32_from_le(data, pos) as int;
        let p1 = pos + 4;
        if p1 + kl > len {
            None
        } else {
            let key = lenient_text(data.subrange(p1, p1 + kl));
            let p2 = p1 + kl;
            if p2 + 4 > len {
                None
            } else {
                let vl = u32_from_le(data, p2) as int;
                let p3 = p2 + 4;
                if p3 + vl + 4 > len {
                    None
                } else {
                    let value = data.subrange(p3, p3 + vl);
                    let stored = u32_from_le(data, p3 + vl);
                    if key == target && stored == entry_checksum(encode_utf8(key), value) {
                        Some((key, value, stored))
                    } else if bytes_after(encode_utf8(key), encode_utf8(target)) {
                        None
                    } else {
                        scan_result(data, p3 + vl + 4, target, (budget - 1) as nat)
                    }
                }
            }
        }
    }
}

/// Scans the segment file `data` from `start_offset` for the entry of
/// `target_key`, looking at no more than a thousand entries. Where it is
/// found, the result holds its key, value, `start_offset` and checksum.
pub fn scan_from(data: &[u8], start_offset: u64, target_key: &str) -> (r: Option<(String, Vec<u8>, u64, u32)>)
    ensures
        match scan_result(data@, start_offset as int, target_key@, MAX_SCAN_ENTRIES as nat) {
            Some(t) => r matches Some(f) && f.0@ == t.0 && f.1@ == t.1 && f.2 == start_offset
                && f.3 == t.2,
            None => r is None,
        },
{
    let len = data.len();
    if start_offset >= len as u64 {
        return None;
    }
    let mut pos = start_offset as usize;
    let mut scanned: u64 = 0;
    let target = target_key.as_bytes();
    let ghost want = scan_result(data@, start_offset as int, target_key@, MAX_SCAN_ENTRIES as nat);
    loop
        invariant
            pos <= len,
            len == data@.len(),
            scanned <= MAX_SCAN_ENTRIES,
            target@ == encode_utf8(target_key@),
            want == scan_result(data@, start_offset as int, target_key@, MAX_SCAN_ENTRIES as nat),
            want == scan_result(data@, pos as int, target_key@, (MAX_SCAN_ENTRIES - scanned) as nat),
        decreases MAX_SCAN_ENTRIES - scanned,
    {
        if len - pos < 4 || scanned >= MAX_SCAN_ENTRIES {
            return None;
        }
        let kl = read_u32(data, pos) as usize;
        let p1 = pos + 4;
        if len - p1 < kl {
            return None;
        }
        let key_bytes = copy_range(data, p1, p1 + kl);
        let key = lossy_text(key_bytes.as_slice());
        assert(key@ == lenient_text(data@.subrange(p1 as int, p1 + kl)));
        let p2 = p1 + kl;
        if len - p2 < 4 {
            return None;
        }
        let vl = read_u32(data, p2) as usize;
        let p3 = p2 + 4;
        if len - p3 < 4 || len - p3 - 4 < vl {
            return None;
        }
        let value = copy_range(data, p3, p3 + vl);
        let stored = read_u32(data, p3 + vl);
        let next = p3 + vl + 4;
        scanned += 1;
        let kb = key.as_str().as_bytes();
        proof {
            lemma_same_text(key@, target_key@);
        }
        if same_bytes(kb, target) {
            let c1 = crc_append(0, kb);
            let computed = crc_append(c1, value.as_slice());
            if stored == computed {
                return Some((key, value, start_offset, stored));
            }
        }
        if after(kb, target) {
            return None;
        }
        pos = next;
    }
}

/// The message of a file too short for the header.
pub open spec fn too_small_message(size: nat) -> Seq<char> {
    "Segment file too small: "@ + decimal(size) + " bytes (minimum: 8 bytes for header)"@
}

/// The message of a file whose magic number is `got`.
pub open spec fn segment_magic_message(got: u32) -> Seq<char> {
    "Invalid segment file magic: expected "@ + hex8_upper(SEGMENT_MAGIC) + ", got "@ + hex8_upper(got)
}

/// The message of a file whose format version is `got`.
pub open spec fn segment_version_message(got: u32) -> Seq<char> {
    "Unsupported segment version: expected "@ + decimal(SEGMENT_VERSION as nat) + ", got "@ + decimal(
        got as nat,
    )
}

/// Checks the segment file `data` before it is opened: an empty file is
/// accepted; one shorter than its header, or whose magic number or version
/// is not this format's, is refused.
pub fn check_segment_header(data: &[u8]) -> (r: Result<(), ContextError>)
    ensures
        data@.len() == 0 ==> r is Ok,
        0 < data@.len() < 8 ==> (r matches Err(e) && failure_with(e, too_small_message(data@.len()))),
        data@.len() >= 8 && u32_from_le(data@, 0) != SEGMENT_MAGIC ==> (r matches Err(e)
            && failure_with(e, segment_magic_message(u32_from_le(data@, 0)))),
        data@.len() >= 8 && u32_from_le(data@, 0) == SEGMENT_MAGIC && u32_from_le(data@, 4)
            != SEGMENT_VERSION ==> (r matches Err(e) && failure_with(e, segment_version_message(
            u32_from_le(data@, 4)))),
        data@.len() >= 8 && u32_from_le(data@, 0) == SEGMENT_MAGIC && u32_from_le(data@, 4)
            == SEGMENT_VERSION ==> r is Ok,
{
    let len = data.len();
    if len == 0 {
        return Ok(());
    }
    if len < 8 {
        let mut m = String::from_str("Segment file too small: ");
        m.append(decimal_text(len as u64).as_str());
        m.append(" bytes (minimum: 8 bytes for header)");
        return Err(ContextError::OperationFailed(m));
    }
    let magic = read_u32(data, 0);
    if magic != SEGMENT_MAGIC {
        let mut m = String::from_str("Invalid segment file magic: expected ");
        m.append(hex8_text(SEGMENT_MAGIC).as_str());
        m.append(", got ");
        m.append(hex8_text(magic).as_str());
        return Err(ContextError::OperationFailed(m));
    }
    let version = read_u32(data, 4);
    if version != SEGMENT_VERSION {
        let mut m = String::from_str("Unsupported segment version: expected ");
        m.append(decimal_text(SEGMENT_VERSION as u64).as_str());
        m.append(", got ");
        m.append(decimal_text(version as u64).as_str());
        return Err(ContextError::OperationFailed(m));
    }
    Ok(())
}

/// Statistics of one segment file.
#[derive(Debug, Clone)]
pub struct SegmentStats {
    pub id: u64,
    pub size_bytes: u64,
    pub entry_count: u64,
    pub path: String,
}

proof fn lemma_u32_at(data: Seq<u8>, at: int, x: u32)
    requires
        0 <= at,
        at + 4 <= data.len(),
        data.subrange(at, at + 4) == le_bytes_u32(x),
    ensures
        u32_from_le(data, at) == x,
{
    lemma_u32_round_trip(x);
    let b = le_bytes_u32(x);
    assert(data[at] == b[0] && data[at + 1] == b[1] && data[at + 2] == b[2] && data[at + 3] == b[3]) by {
        assert(data.subrange(at, at + 4)[0] == data[at]);
        assert(data.subrange(at, at + 4)[1] == data[at + 1]);
        assert(data.subrange(at, at + 4)[2] == data[at + 2]);
        assert(data.subrange(at, at + 4)[3] == data[at + 3]);
    }
}

/// What the layout of an entry placed after `prefix` gives at each of its
/// fields.
proof fn lemma_entry_layout(prefix: Seq<u8>, key: Seq<char>, value: Seq<u8>, suffix: Seq<u8>)
    requires
        encode_utf8(key).len() <= u32::MAX,
        value.len() <= u32::MAX,
    ensures
        ({
            let data = prefix + entry_bytes(key, value) + suffix;
            let kb = encode_utf8(key);
            let o = prefix.len() as int;
            &&& u32_from_le(data, o) == kb.len()
            &&& data.subrange(o + 4, o + 4 + kb.len()) == kb
            &&& u32_from_le(data, o + 4 + kb.len()) == value.len()
            &&& data.subrange(o + 8 + kb.len(), o + 8 + kb.len() + value.len()) == value
            &&& u32_from_le(data, o + 8 + kb.len() + value.len()) == entry_checksum(kb, value)
            &&& lenient_text(kb) == key
            &&& data.len() >= o + 12 + kb.len() + value.len()
        }),
{
    let data = prefix + entry_bytes(key, value) + suffix;
    let kb = encode_utf8(key);
    let o = prefix.len() as int;
    let kl = kb.len() as int;
    let vl = value.len() as int;
    let e = entry_bytes(key, value);
    reveal(entry_bytes);
    assert(e.len() == 12 + kl + vl);
    assert(data.subrange(o, o + e.len()) =~= e);
    assert(data.subrange(o, o + 4) =~= le_bytes_u32(kl as u32));
    lemma_u32_at(data, o, kl as u32);
    assert(data.subrange(o + 4, o + 4 + kl) =~= kb);
    assert(data.subrange(o + 4 + kl, o + 8 + kl) =~= le_bytes_u32(vl as u32));
    lemma_u32_at(data, o + 4 + kl, vl as u32);
    assert(data.subrange(o + 8 + kl, o + 8 + kl + vl) =~= value);
    assert(data.subrange(o + 8 + kl + vl, o + 12 + kl + vl) =~= le_bytes_u32(entry_checksum(kb, value)));
    lemma_u32_at(data, o + 8 + kl + vl, entry_checksum(kb, value));
    vstd::utf8::encode_utf8_valid_utf8(key);
    vstd::utf8::encode_utf8_decode_utf8(key);
}

/// An entry written for `key` and `value` reads back as that key, that
/// value and its checksum, wherever it stands in the file.
pub proof fn lemma_entry_round_trip(prefix: Seq<u8>, key: Seq<char>, value: Seq<u8>, suffix: Seq<u8>)
    requires
        encode_utf8(key).len() <= u32::MAX,
        value.len() <= u32::MAX,
    ensures
        entry_read(prefix + entry_bytes(key, value) + suffix, prefix.len() as int) == (EntryRead::Entry {
            key,
            value,
            checksum: entry_checksum(encode_utf8(key), value),
        }),
{
    lemma_entry_layout(prefix, key, value, suffix);
    let data = prefix + entry_bytes(key, value) + suffix;
    let o = prefix.len() as int;
    let kl = u32_from_le(data, o) as int;
    let vl = u32_from_le(data, o + 4 + kl) as int;
    assert(kl == encode_utf8(key).len());
    assert(vl == value.len());
    assert(lenient_text(data.subrange(o + 4, o + 4 + kl)) == key);
    assert(data.subrange(o + 8 + kl, o + 8 + kl + vl) == value);
    assert(u32_from_le(data, o + 8 + kl + vl) == entry_checksum(encode_utf8(key), value));
}

/// The value of an entry written for `key` and `value` reads back as that
/// value, wherever the entry stands in the file.
pub proof fn lemma_value_round_trip(prefix: Seq<u8>, key: Seq<char>, value: Seq<u8>, suffix: Seq<u8>)
    requires
        encode_utf8(key).len() <= u32::MAX,
        value.len() <= u32::MAX,
    ensures
        value_read(prefix + entry_bytes(key, value) + suffix, prefix.len() as int) == (ValueRead::Value {
            value,
        }),
{
    lemma_entry_layout(prefix, key, value, suffix);
    let data = prefix + entry_bytes(key, value) + suffix;
    let o = prefix.len() as int;
    let kl = u32_from_le(data, o) as int;
    let vl = u32_from_le(data, o + 4 + kl) as int;
    assert(kl == encode_utf8(key).len());
    assert(vl == value.len());
    assert(data.subrange(o + 8 + kl, o + 8 + kl + vl) == value);
}

/// A scan for `key` that starts at an entry written for `key` finds that
/// entry.
pub proof fn lemma_scan_finds_entry(prefix: Seq<u8>, key: Seq<char>, value: Seq<u8>, suffix: Seq<u8>)
    requires
        encode_utf8(key).len() <= u32::MAX,
        value.len() <= u32::MAX,
    ensures
        scan_result(prefix + entry_bytes(key, value) + suffix, prefix.len() as int, key,
            MAX_SCAN_ENTRIES as nat) == Some((key, value, entry_checksum(encode_utf8(key), value))),
{
    lemma_entry_layout(prefix, key, value, suffix);
    let data = prefix + entry_bytes(key, value) + suffix;
    let o = prefix.len() as int;
    let kl = u32_from_le(data, o) as int;
    let vl = u32_from_le(data, o + 4 + kl) as int;
    assert(kl == encode_utf8(key).len());
    assert(vl == value.len());
    assert(lenient_text(data.subrange(o + 4, o + 4 + kl)) == key);
    assert(data.subrange(o + 8 + kl, o + 8 + kl + vl) == value);
    assert(u32_from_le(data, o + 8 + kl + vl) == entry_checksum(encode_utf8(key), value));
}

} // verus!
