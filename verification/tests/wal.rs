use std::hash::Hasher;
use tokitai_context::file_kv::wal::{log_wal_add, log_wal_delete, WalBatchWriter, WalOperation};

fn crc(v: &[u8]) -> u64 {
    let mut h = crc32c::Crc32cHasher::default();
    h.write(v);
    h.finish()
}

#[test]
fn add_records_carry_the_checksum_and_length() {
    let (op, payload) = log_wal_add("k1", b"hello");
    let hash = format!("{:016X}", crc(b"hello"));
    match op {
        WalOperation::Add { session, hash: h, layer } => {
            assert_eq!(session, "k1");
            assert_eq!(h, hash);
            assert_eq!(layer, "segment");
        }
        _ => panic!("not an addition"),
    }
    assert_eq!(payload, format!("5:{}", hash));
}

#[test]
fn delete_records_name_the_key() {
    match log_wal_delete("gone") {
        WalOperation::Delete { session, hash, content } => {
            assert_eq!(session, "gone");
            assert!(hash.is_empty());
            assert!(content.is_none());
        }
        _ => panic!("not a deletion"),
    }
}

#[test]
fn batch_writer_counts_every_operation() {
    let mut w = WalBatchWriter::new();
    assert_eq!(w.operations_count(), 0);
    w.log_add("a", b"1");
    w.log_add("b", b"2");
    w.log_delete("a");
    assert_eq!(w.operations_count(), 3);
}
