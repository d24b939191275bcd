//! The failures that the transaction actions report.

use vstd::prelude::*;
use crate::txn_types::bytes::opt_view;
use crate::txn_types::lock::{LockInfo, LockInfoView};
use crate::txn_types::timestamp::TimeStamp;

verus! {

/// A failure as a mathematical value.
pub enum ErrorView {
    KeyIsLocked(LockInfoView),
    LockTypeNotMatch { start_ts: u64, key: Seq<u8>, pessimistic: bool },
    WriteConflict {
        start_ts: u64,
        conflict_start_ts: u64,
        conflict_commit_ts: u64,
        key: Seq<u8>,
        primary: Seq<u8>,
    },
    PessimisticLockRolledBack { start_ts: u64, key: Seq<u8> },
    PessimisticLockNotFound { start_ts: u64, key: Seq<u8> },
    AlreadyExist { key: Seq<u8> },
    TxnLockNotFound { start_ts: u64, commit_ts: u64, key: Seq<u8> },
    TxnNotFound { start_ts: u64, key: Seq<u8> },
    Committed { commit_ts: u64 },
    CommitTsExpired { start_ts: u64, commit_ts: u64, key: Seq<u8>, min_commit_ts: u64 },
    MaxTimestampNotSynced { start_ts: u64 },
    KeyTooLarge { size: nat, limit: nat },
    DefaultNotFound { key: Seq<u8>, start_ts: u64 },
}

/// A failure of a transaction action.
#[derive(Debug)]
pub enum Error {
    /// Another transaction holds the lock on the key.
    KeyIsLocked(LockInfo),
    /// The transaction holds a lock on the key, of the wrong kind.
    LockTypeNotMatch { start_ts: TimeStamp, key: Vec<u8>, pessimistic: bool },
    /// A commit that the transaction did not expect is in its way.
    WriteConflict {
        start_ts: TimeStamp,
        conflict_start_ts: TimeStamp,
        conflict_commit_ts: TimeStamp,
        key: Vec<u8>,
        primary: Vec<u8>,
    },
    /// The transaction was rolled back.
    PessimisticLockRolledBack { start_ts: TimeStamp, key: Vec<u8> },
    /// The pessimistic lock that a prewrite needs is gone.
    PessimisticLockNotFound { start_ts: TimeStamp, key: Vec<u8> },
    /// The key exists where it should not.
    AlreadyExist { key: Vec<u8> },
    /// No lock to commit, and no commit of the transaction.
    TxnLockNotFound { start_ts: TimeStamp, commit_ts: TimeStamp, key: Vec<u8> },
    /// No trace of the transaction, and none may be left.
    TxnNotFound { start_ts: TimeStamp, key: Vec<u8> },
    /// The transaction is committed already.
    Committed { commit_ts: TimeStamp },
    /// The commit timestamp is below the bound that the lock holds.
    CommitTsExpired {
        start_ts: TimeStamp,
        commit_ts: TimeStamp,
        key: Vec<u8>,
        min_commit_ts: TimeStamp,
    },
    /// The largest timestamp seen is not yet that of the cluster.
    MaxTimestampNotSynced { start_ts: TimeStamp },
    /// The key is longer than the limit.
    KeyTooLarge { size: usize, limit: usize },
    /// A value that a write record points to is missing.
    DefaultNotFound { key: Vec<u8>, start_ts: TimeStamp },
}

impl View for Error {
    type V = ErrorView;

    open spec fn view(&self) -> ErrorView {
        match self {
            Error::KeyIsLocked(info) => ErrorView::KeyIsLocked(info@),
            Error::LockTypeNotMatch { start_ts, key, pessimistic } => ErrorView::LockTypeNotMatch {
                start_ts: start_ts@,
                key: key@,
                pessimistic: *pessimistic,
            },
            Error::WriteConflict {
                start_ts,
                conflict_start_ts,
                conflict_commit_ts,
                key,
                primary,
            } => ErrorView::WriteConflict {
                start_ts: start_ts@,
                conflict_start_ts: conflict_start_ts@,
                conflict_commit_ts: conflict_commit_ts@,
                key: key@,
                primary: primary@,
            },
            Error::PessimisticLockRolledBack { start_ts, key } => ErrorView::PessimisticLockRolledBack {
                start_ts: start_ts@,
                key: key@,
            },
            Error::PessimisticLockNotFound { start_ts, key } => ErrorView::PessimisticLockNotFound {
                start_ts: start_ts@,
                key: key@,
            },
            Error::AlreadyExist { key } => ErrorView::AlreadyExist { key: key@ },
            Error::TxnLockNotFound { start_ts, commit_ts, key } => ErrorView::TxnLockNotFound {
                start_ts: start_ts@,
                commit_ts: commit_ts@,
                key: key@,
            },
            Error::TxnNotFound { start_ts, key } => ErrorView::TxnNotFound {
                start_ts: start_ts@,
                key: key@,
            },
            Error::Committed { commit_ts } => ErrorView::Committed { commit_ts: commit_ts@ },
            Error::CommitTsExpired { start_ts, commit_ts, key, min_commit_ts } => ErrorView::CommitTsExpired {
                start_ts: start_ts@,
                commit_ts: commit_ts@,
                key: key@,
                min_commit_ts: min_commit_ts@,
            },
            Error::MaxTimestampNotSynced { start_ts } => ErrorView::MaxTimestampNotSynced {
                start_ts: start_ts@,
            },
            Error::KeyTooLarge { size, limit } => ErrorView::KeyTooLarge {
                size: *size as nat,
                limit: *limit as nat,
            },
            Error::DefaultNotFound { key, start_ts } => ErrorView::DefaultNotFound {
                key: key@,
                start_ts: start_ts@,
            },
        }
    }
}

impl ErrorView {
    /// The code of the kind of failure: one number for each kind, which
    /// stays the same whatever the failure carries.
    pub open spec fn code(self) -> u32 {
        match self {
            ErrorView::KeyIsLocked(_) => 1,
            ErrorView::LockTypeNotMatch { .. } => 2,
            ErrorView::WriteConflict { .. } => 3,
            ErrorView::PessimisticLockRolledBack { .. } => 4,
            ErrorView::PessimisticLockNotFound { .. } => 5,
            ErrorView::AlreadyExist { .. } => 6,
            ErrorView::TxnLockNotFound { .. } => 7,
            ErrorView::TxnNotFound { .. } => 8,
            ErrorView::Committed { .. } => 9,
            ErrorView::CommitTsExpired { .. } => 10,
            ErrorView::MaxTimestampNotSynced { .. } => 11,
            ErrorView::KeyTooLarge { .. } => 12,
            ErrorView::DefaultNotFound { .. } => 13,
        }
    }
}

impl Error {
    /// The code of the kind of failure.
    pub fn code(&self) -> (c: u32)
        ensures
            c == self@.code(),
    {
        match self {
            Error::KeyIsLocked(_) => 1,
            Error::LockTypeNotMatch { .. } => 2,
            Error::WriteConflict { .. } => 3,
            Error::PessimisticLockRolledBack { .. } => 4,
            Error::PessimisticLockNotFound { .. } => 5,
            Error::AlreadyExist { .. } => 6,
            Error::TxnLockNotFound { .. } => 7,
            Error::TxnNotFound { .. } => 8,
            Error::Committed { .. } => 9,
            Error::CommitTsExpired { .. } => 10,
            Error::MaxTimestampNotSynced { .. } => 11,
            Error::KeyTooLarge { .. } => 12,
            Error::DefaultNotFound { .. } => 13,
        }
    }
}

/// The outcome of an action that may return a value, as a mathematical value.
pub open spec fn value_result_view(r: Result<Option<Vec<u8>>, Error>) -> Result<
    Option<Seq<u8>>,
    ErrorView,
> {
    match r {
        Ok(v) => Ok(opt_view(v)),
        Err(e) => Err(e@),
    }
}

/// The outcome of an action that returns a timestamp, as a mathematical value.
pub open spec fn ts_result_view(r: Result<TimeStamp, Error>) -> Result<u64, ErrorView> {
    match r {
        Ok(ts) => Ok(ts@),
        Err(e) => Err(e@),
    }
}

/// The outcome of an action that returns nothing, as a mathematical value.
pub open spec fn unit_result_view(r: Result<(), Error>) -> Result<(), ErrorView> {
    match r {
        Ok(_) => Ok(()),
        Err(e) => Err(e@),
    }
}

} // verus!
