pub mod lcs;
pub mod lsh;
