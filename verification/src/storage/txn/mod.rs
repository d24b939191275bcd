//! Transactions: the actions that lock, prewrite, commit and roll back.

pub mod actions;
pub mod rollback_records;
