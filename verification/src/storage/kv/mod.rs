//! Storage in memory: three column families that hold locks, write records and
//! values, and the write batches that change them.

pub mod engine;
pub mod state;
pub mod table;
