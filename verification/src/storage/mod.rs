//! The store: its column families, the multi-version reads and writes over
//! them, and the transaction actions.

pub mod config;
pub mod kv;
pub mod mvcc;
pub mod store;
pub mod txn;
