//! Multi-version concurrency control for a transactional key-value store.
//!
//! `txn_types` holds the values: timestamps, versioned keys, write records
//! and locks, with their forms in bytes. `storage` holds the store in
//! memory, the reads over a snapshot, the actions of a transaction (taking a
//! pessimistic lock, prewrite, commit, cleanup and rollback, the check of a
//! transaction's status) and the settings. `server::gc_worker` holds the
//! garbage collection that runs while the write column family is compacted.
//! `concurrency_manager` holds the largest timestamp seen, and
//! `coprocessor::statistics` the sampling of column values.
//!
//! What an action does is stated over the store as a mathematical value
//! (`storage::kv::state::State`): each action has a function that gives its
//! result and the changes it asks for, and the laws that relate the actions
//! are proved over these functions.

pub mod concurrency_manager;
pub mod coprocessor;
pub mod server;
pub mod storage;
pub mod txn_types;
