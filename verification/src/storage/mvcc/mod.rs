//! Multi-version reads over a snapshot, and the buffer of changes that a
//! transaction builds.

pub mod error;
pub mod reader;
pub mod txn;
