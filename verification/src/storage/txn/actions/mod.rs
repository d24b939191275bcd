//! The actions of a transaction on one key.

pub mod acquire_pessimistic_lock;
pub mod check_txn_status;
pub mod cleanup;
pub mod commit;
pub mod pessimistic_rollback;
pub mod prewrite;
pub mod txn_heart_beat;
