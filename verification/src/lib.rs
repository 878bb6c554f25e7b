pub mod clock;
pub mod context_root;
pub mod digest;
pub mod error;
pub mod file_kv;
pub mod file_service;
pub mod fuse_fs;
pub mod knowledge_index;
pub mod layers;
pub mod metrics;
pub mod metrics_prometheus;
pub mod mvcc;
pub mod optimization;
pub mod paths;
pub mod str_map;
pub mod text;
