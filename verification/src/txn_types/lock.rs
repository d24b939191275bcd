//! Lock records: the one intent that a transaction may hold on a key.

use vstd::prelude::*;
use crate::txn_types::bytes::{clone_bytes, clone_opt_bytes, opt_view};
use crate::txn_types::timestamp::TimeStamp;

verus! {

/// Kind of a lock.
#[derive(Clone, Copy, Debug, PartialEq, Eq, Structural)]
pub enum LockType {
    Put,
    Delete,
    Lock,
    Pessimistic,
}

/// A lock as a mathematical value.
pub struct LockView {
    pub lock_type: LockType,
    pub primary: Seq<u8>,
    pub ts: u64,
    pub ttl: u64,
    pub short_value: Option<Seq<u8>>,
    pub for_update_ts: u64,
    pub txn_size: u64,
    pub min_commit_ts: u64,
    pub use_async_commit: bool,
}

impl LockView {
    /// The pessimistic lock that a transaction takes on a key.
    pub open spec fn pessimistic(
        primary: Seq<u8>,
        start_ts: u64,
        ttl: u64,
        for_update_ts: u64,
        min_commit_ts: u64,
    ) -> LockView {
        LockView {
            lock_type: LockType::Pessimistic,
            primary,
            ts: start_ts,
            ttl,
            short_value: None,
            for_update_ts,
            txn_size: 0,
            min_commit_ts,
            use_async_commit: false,
        }
    }

    /// Whether the holder is a pessimistic transaction.
    pub open spec fn is_pessimistic_txn(self) -> bool {
        self.for_update_ts != 0
    }

    /// What is reported of this lock on `key` to a transaction that it blocks.
    pub open spec fn lock_info(self, key: Seq<u8>) -> LockInfoView {
        LockInfoView {
            primary_lock: self.primary,
            lock_version: self.ts,
            key,
            lock_ttl: self.ttl,
            txn_size: self.txn_size,
            lock_type: self.lock_type,
            lock_for_update_ts: self.for_update_ts,
            use_async_commit: self.use_async_commit,
            min_commit_ts: self.min_commit_ts,
        }
    }
}

/// A lock record.
#[derive(Debug)]
pub struct Lock {
    pub lock_type: LockType,
    pub primary: Vec<u8>,
    pub ts: TimeStamp,
    pub ttl: u64,
    pub short_value: Option<Vec<u8>>,
    pub for_update_ts: TimeStamp,
    pub txn_size: u64,
    pub min_commit_ts: TimeStamp,
    pub use_async_commit: bool,
}

impl View for Lock {
    type V = LockView;

    open spec fn view(&self) -> LockView {
        LockView {
            lock_type: self.lock_type,
            primary: self.primary@,
            ts: self.ts@,
            ttl: self.ttl,
            short_value: opt_view(self.short_value),
            for_update_ts: self.for_update_ts@,
            txn_size: self.txn_size,
            min_commit_ts: self.min_commit_ts@,
            use_async_commit: self.use_async_commit,
        }
    }
}

/// What a blocked transaction is told of the lock in its way.
pub struct LockInfoView {
    pub primary_lock: Seq<u8>,
    pub lock_version: u64,
    pub key: Seq<u8>,
    pub lock_ttl: u64,
    pub txn_size: u64,
    pub lock_type: LockType,
    pub lock_for_update_ts: u64,
    pub use_async_commit: bool,
    pub min_commit_ts: u64,
}

/// What a blocked transaction is told of the lock in its way.
#[derive(Debug)]
pub struct LockInfo {
    pub primary_lock: Vec<u8>,
    pub lock_version: u64,
    pub key: Vec<u8>,
    pub lock_ttl: u64,
    pub txn_size: u64,
    pub lock_type: LockType,
    pub lock_for_update_ts: u64,
    pub use_async_commit: bool,
    pub min_commit_ts: u64,
}

impl View for LockInfo {
    type V = LockInfoView;

    open spec fn view(&self) -> LockInfoView {
        LockInfoView {
            primary_lock: self.primary_lock@,
            lock_version: self.lock_version,
            key: self.key@,
            lock_ttl: self.lock_ttl,
            txn_size: self.txn_size,
            lock_type: self.lock_type,
            lock_for_update_ts: self.lock_for_update_ts,
            use_async_commit: self.use_async_commit,
            min_commit_ts: self.min_commit_ts,
        }
    }
}

impl Lock {
    /// A lock that does not use async commit.
    pub fn new(
        lock_type: LockType,
        primary: Vec<u8>,
        ts: TimeStamp,
        ttl: u64,
        short_value: Option<Vec<u8>>,
        for_update_ts: TimeStamp,
        txn_size: u64,
        min_commit_ts: TimeStamp,
    ) -> (lock: Lock)
        ensures
            lock@ == (LockView {
                lock_type,
                primary: primary@,
                ts: ts@,
                ttl,
                short_value: opt_view(short_value),
                for_update_ts: for_update_ts@,
                txn_size,
                min_commit_ts: min_commit_ts@,
                use_async_commit: false,
            }),
    {
        Lock {
            lock_type,
            primary,
            ts,
            ttl,
            short_value,
            for_update_ts,
            txn_size,
            min_commit_ts,
            use_async_commit: false,
        }
    }

    /// Whether the holder is a pessimistic transaction.
    pub fn is_pessimistic_txn(&self) -> (r: bool)
        ensures
            r == self@.is_pessimistic_txn(),
    {
        !self.for_update_ts.is_zero()
    }

    /// What is reported of this lock on `raw_key` to a transaction that it
    /// blocks.
    pub fn into_lock_info(self, raw_key: Vec<u8>) -> (info: LockInfo)
        ensures
            info@ == self@.lock_info(raw_key@),
    {
        LockInfo {
            primary_lock: self.primary,
            lock_version: self.ts.0,
            key: raw_key,
            lock_ttl: self.ttl,
            txn_size: self.txn_size,
            lock_type: self.lock_type,
            lock_for_update_ts: self.for_update_ts.0,
            use_async_commit: self.use_async_commit,
            min_commit_ts: self.min_commit_ts.0,
        }
    }

    /// A copy of this lock.
    pub fn duplicate(&self) -> (lock: Lock)
        ensures
            lock@ == self@,
    {
        Lock {
            lock_type: self.lock_type,
            primary: clone_bytes(self.primary.as_slice()),
            ts: self.ts,
            ttl: self.ttl,
            short_value: clone_opt_bytes(&self.short_value),
            for_update_ts: self.for_update_ts,
            txn_size: self.txn_size,
            min_commit_ts: self.min_commit_ts,
            use_async_commit: self.use_async_commit,
        }
    }
}

} // verus!
