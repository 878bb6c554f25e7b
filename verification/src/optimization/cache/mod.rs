pub mod arc;
pub mod cuckoo;
pub mod lru;
