pub mod algorithms;
pub mod cache;
pub mod compression;
pub mod dedup;
