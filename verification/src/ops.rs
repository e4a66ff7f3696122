pub mod dedup;
pub mod extract;
pub mod filter;
pub mod merge;
pub mod sort;
