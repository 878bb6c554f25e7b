//! The write-ahead log records that the store makes of its writes and
//! deletions. An addition is logged with the CRC-32C checksum of the value,
//! as sixteen uppercase hexadecimal digits, and a payload of the value's
//! length and that checksum.
use vstd::prelude::*;
use vstd::string::StringExecFns;
use crate::file_kv::bloom_migration::{hex8_text, hex8_upper};
use crate::file_kv::segment::{crc32c_append_of, crc_append};
use crate::text::{decimal, decimal_text};

verus! {

/// An operation written to the write-ahead log.
pub enum WalOperation {
    /// A value stored under `session` with the checksum `hash`, in `layer`.
    Add { session: String, hash: String, layer: String },
    /// A deletion of `session`.
    Delete { session: String, hash: String, content: Option<String> },
}

/// The checksum of `value` as sixteen uppercase hexadecimal digits.
pub open spec fn value_hash_text(value: Seq<u8>) -> Seq<char> {
    "00000000"@ + hex8_upper(crc32c_append_of(0, value))
}

/// The payload logged with an addition of `value`.
pub open spec fn add_payload(value: Seq<u8>) -> Seq<char> {
    decimal(value.len()) + ":"@ + value_hash_text(value)
}

/// Whether `op` is the addition of `value` under `key`.
pub open spec fn is_add_of(op: WalOperation, key: Seq<char>, value: Seq<u8>) -> bool {
    op matches WalOperation::Add { session, hash, layer } && session@ == key && hash@ == value_hash_text(
        value,
    ) && layer@ == "segment"@
}

/// Whether `op` is the deletion of `key`.
pub open spec fn is_delete_of(op: WalOperation, key: Seq<char>) -> bool {
    op matches WalOperation::Delete { session, hash, content } && session@ == key && hash@.len() == 0
        && content is None
}

fn hash_text(value: &[u8]) -> (s: String)
    ensures
        s@ == value_hash_text(value@),
{
    let crc = crc_append(0, value);
    let mut s = String::from_str("00000000");
    s.append(hex8_text(crc).as_str());
    s
}

/// The log record of storing `value` under `key`: the operation and its
/// payload.
pub fn log_wal_add(key: &str, value: &[u8]) -> (r: (WalOperation, String))
    requires
        value@.len() <= u64::MAX,
    ensures
        is_add_of(r.0, key@, value@),
        r.1@ == add_payload(value@),
{
    let hash = hash_text(value);
    let mut payload = decimal_text(value.len() as u64);
    payload.append(":");
    payload.append(hash.as_str());
    let op = WalOperation::Add {
        session: String::from_str(key),
        hash,
        layer: String::from_str("segment"),
    };
    proof {
        reveal_strlit("segment");
    }
    (op, payload)
}

/// The log record of deleting `key`.
pub fn log_wal_delete(key: &str) -> (op: WalOperation)
    ensures
        is_delete_of(op, key@),
{
    let op = WalOperation::Delete { session: String::from_str(key), hash: String::new(), content: None };
    op
}

/// Makes the records of a batch of writes and counts the additions.
pub struct WalBatchWriter {
    operations_count: usize,
}

impl WalBatchWriter {
    /// A writer that has logged nothing.
    pub fn new() -> (w: Self)
        ensures
            w.operations_count() == 0,
    {
        WalBatchWriter { operations_count: 0 }
    }

    /// The number of operations logged, additions and deletions.
    pub closed spec fn operations_count_spec(&self) -> usize {
        self.operations_count
    }

    /// The number of operations logged, additions and deletions.
    #[verifier::when_used_as_spec(operations_count_spec)]
    pub fn operations_count(&self) -> (n: usize)
        ensures
            n == self.operations_count_spec(),
    {
        self.operations_count
    }

    /// The record of storing `value` under `key`; the addition is counted.
    pub fn log_add(&mut self, key: &str, value: &[u8]) -> (r: (WalOperation, String))
        requires
            old(self).operations_count() < usize::MAX,
            value@.len() <= u64::MAX,
        ensures
            is_add_of(r.0, key@, value@),
            r.1@ == add_payload(value@),
            final(self).operations_count() == old(self).operations_count() + 1,
    {
        let r = log_wal_add(key, value);
        self.operations_count = self.operations_count + 1;
        r
    }

    /// The record of deleting `key`; the deletion is counted.
    pub fn log_delete(&mut self, key: &str) -> (op: WalOperation)
        requires
            old(self).operations_count() < usize::MAX,
        ensures
            is_delete_of(op, key@),
            final(self).operations_count() == old(self).operations_count() + 1,
    {
        let op = log_wal_delete(key);
        self.operations_count = self.operations_count + 1;
        op
    }
}

} // verus!
