//! The parts of the file-backed key-value store: its record and segment
//! formats, memtable, write-ahead log batches, flush and cache-warming
//! decisions, write coalescing, bloom filter caching and timeouts.
//!
//! The store itself (`FileKV`, with its open, get, put, batch and flush
//! operations), the loading and saving of bloom filter files by
//! `BloomFilterMigrator`, and the file context service
//! (`FileContextServiceImpl`) are not part of this crate: they are built on
//! a sparse index, a block cache, compaction, a store-wide write-ahead log,
//! a hash index, a context logger and copy-on-write storage, and on the
//! `bloom`, `xxhash-rust`, `ahash` and `bytes` crates, none of which is
//! available to this crate.
pub mod bloom_filter_cache;
pub mod bloom_migration;
pub mod cache_warmer;
pub mod flush;
pub mod incremental_types;
pub mod memtable;
pub mod segment;
pub mod timeout_control;
pub mod wal;
pub mod types;
pub mod write_coalescer;
