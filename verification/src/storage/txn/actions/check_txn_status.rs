//! Finding out what became of a transaction from its primary key.

use vstd::prelude::*;
use vstd::pervasive::unreached;
use crate::storage::kv::state::{ModifyView, State};
use crate::storage::mvcc::error::{Error, ErrorView};
use crate::storage::mvcc::reader::{txn_commit_record, TxnCommitRecord, TxnCommitRecordView};
use crate::storage::mvcc::txn::{
    collapse_changes,
    done,
    fail,
    released_view,
    rollback_lock_outcome,
    rollback_write,
    MvccTxn,
    Outcome,
    ReleasedLock,
    ReleasedLockView,
};
use crate::txn_types::key::Key;
use crate::txn_types::lock::{Lock, LockView};
use crate::txn_types::timestamp::{physical_of, TimeStamp};
use crate::txn_types::write::{Write, WriteType};

verus! {

/// What became of a transaction, as a mathematical value.
pub enum TxnStatusView {
    RolledBack,
    TtlExpire,
    LockNotExist,
    Uncommitted { lock: LockView, min_commit_ts_pushed: bool },
    Committed { commit_ts: u64 },
}

/// What became of a transaction.
#[derive(Debug)]
pub enum TxnStatus {
    /// It was rolled back before.
    RolledBack,
    /// Its lock had expired and was rolled back now.
    TtlExpire,
    /// It left no lock and no record.
    LockNotExist,
    /// It still holds its lock.
    Uncommitted { lock: Lock, min_commit_ts_pushed: bool },
    /// It is committed.
    Committed { commit_ts: TimeStamp },
}

impl View for TxnStatus {
    type V = TxnStatusView;

    open spec fn view(&self) -> TxnStatusView {
        match self {
            TxnStatus::RolledBack => TxnStatusView::RolledBack,
            TxnStatus::TtlExpire => TxnStatusView::TtlExpire,
            TxnStatus::LockNotExist => TxnStatusView::LockNotExist,
            TxnStatus::Uncommitted { lock, min_commit_ts_pushed } => TxnStatusView::Uncommitted {
                lock: lock@,
                min_commit_ts_pushed: *min_commit_ts_pushed,
            },
            TxnStatus::Committed { commit_ts } => TxnStatusView::Committed { commit_ts: commit_ts@ },
        }
    }
}

/// The outcome of an action that returns a status, as a mathematical value.
pub open spec fn status_result_view(r: Result<TxnStatus, Error>) -> Result<TxnStatusView, ErrorView> {
    match r {
        Ok(status) => Ok(status@),
        Err(e) => Err(e@),
    }
}

/// What to do where a transaction has left neither a lock nor a record.
#[derive(Clone, Copy, Debug, PartialEq, Eq, Structural)]
pub enum MissingLockAction {
    /// Leave a rollback record that a later rollback may collapse.
    Rollback,
    /// Leave a rollback record that is kept.
    ProtectedRollback,
    /// Fail.
    ReturnError,
}

impl MissingLockAction {
    /// To leave a rollback record, protected or not.
    pub fn rollback_protect(protect_rollback: bool) -> (action: MissingLockAction)
        ensures
            action == if protect_rollback {
                MissingLockAction::ProtectedRollback
            } else {
                MissingLockAction::Rollback
            },
    {
        if protect_rollback {
            MissingLockAction::ProtectedRollback
        } else {
            MissingLockAction::Rollback
        }
    }

    /// To leave a protected rollback record, or to fail.
    pub fn rollback(rollback_if_not_exist: bool) -> (action: MissingLockAction)
        ensures
            action == if rollback_if_not_exist {
                MissingLockAction::ProtectedRollback
            } else {
                MissingLockAction::ReturnError
            },
    {
        if rollback_if_not_exist {
            MissingLockAction::ProtectedRollback
        } else {
            MissingLockAction::ReturnError
        }
    }
}

/// What the check of a transaction without its lock does.
///
/// A record of the transaction tells its status and nothing is changed.
/// Without one, the action decides: to fail, or to collapse the rollback
/// before `start_ts` (if the transaction asks for that) and to record the
/// rollback, protected or not.
pub open spec fn missing_lock_outcome(
    s: State,
    start_ts: u64,
    collapse: bool,
    key: Seq<u8>,
    action: MissingLockAction,
) -> Outcome<TxnStatusView> {
    match txn_commit_record(s, key, start_ts) {
        TxnCommitRecordView::SingleRecord { commit_ts, write } => if write.write_type
            == WriteType::Rollback {
            done(TxnStatusView::RolledBack)
        } else {
            done(TxnStatusView::Committed { commit_ts })
        },
        TxnCommitRecordView::OverlappedRollback { .. } => done(TxnStatusView::RolledBack),
        TxnCommitRecordView::Absent { overlapped_write } => if action
            == MissingLockAction::ReturnError {
            fail(ErrorView::TxnNotFound { start_ts, key })
        } else {
            let collapsed = if collapse {
                collapse_changes(s, key, start_ts)
            } else {
                Seq::empty()
            };
            let protected = action == MissingLockAction::ProtectedRollback;
            Outcome {
                result: Ok(TxnStatusView::LockNotExist),
                changes: collapsed + seq![
                    ModifyView::PutWrite(key, start_ts, rollback_write(start_ts, protected, overlapped_write)),
                ],
            }
        },
    }
}

/// Checks a transaction whose lock is not on its primary key.
pub fn check_txn_status_missing_lock(txn: &mut MvccTxn, primary_key: Key, action: MissingLockAction) -> (r:
    Result<TxnStatus, Error>)
    ensures
        final(txn).same_clock(old(txn)),
        ({
            let o = missing_lock_outcome(
                old(txn).state(),
                old(txn).start_ts@,
                old(txn).collapse_rollback,
                primary_key@,
                action,
            );
            status_result_view(r) == o.result && final(txn).extends(old(txn), o.changes)
        }),
        r matches Ok(status) ==> status is RolledBack || status is Committed
            || status is LockNotExist,
{
    let ghost before = txn.changes();
    assert(before + Seq::<ModifyView>::empty() =~= before);
    match txn.reader.get_txn_commit_record(&primary_key, txn.start_ts) {
        TxnCommitRecord::SingleRecord { commit_ts, write } => {
            if write.write_type == WriteType::Rollback {
                Ok(TxnStatus::RolledBack)
            } else {
                Ok(TxnStatus::Committed { commit_ts })
            }
        },
        TxnCommitRecord::OverlappedRollback { .. } => Ok(TxnStatus::RolledBack),
        TxnCommitRecord::Absent { overlapped_write } => {
            if action == MissingLockAction::ReturnError {
                return Err(Error::TxnNotFound { start_ts: txn.start_ts, key: primary_key.into_raw() });
            }
            let ghost mut added: Seq<ModifyView> = Seq::empty();
            if txn.collapse_rollback {
                proof {
                    added = collapse_changes(txn.state(), primary_key@, txn.start_ts@);
                }
                txn.collapse_prev_rollback(primary_key.duplicate());
            }
            // The record stops a prewrite that arrives late.
            let write = match overlapped_write {
                Some(w) => w.set_overlapped_rollback(true),
                None => Write::new_rollback(txn.start_ts, action == MissingLockAction::ProtectedRollback),
            };
            let ghost mid = txn.changes();
            let ghost step = seq![ModifyView::PutWrite(primary_key@, txn.start_ts@, write@)];
            txn.put_write(primary_key, txn.start_ts, write);
            assert(mid + step =~= before + (added + step));
            Ok(TxnStatus::LockNotExist)
        },
    }
}

/// Whether a lock taken at `lock_ts` with `ttl` milliseconds to live has
/// expired at `current_ts`.
pub open spec fn lock_expired(lock_ts: u64, ttl: u64, current_ts: u64) -> bool {
    physical_of(lock_ts) + ttl < physical_of(current_ts)
}

/// Whether a lock taken at `lock_ts` with `ttl` milliseconds to live has
/// expired at `current_ts`.
pub fn is_lock_expired(lock_ts: TimeStamp, ttl: u64, current_ts: TimeStamp) -> (r: bool)
    ensures
        r == lock_expired(lock_ts@, ttl, current_ts@),
{
    (lock_ts.physical() as u128) + (ttl as u128) < (current_ts.physical() as u128)
}

/// The lower bound of the commit timestamp after a reader at
/// `caller_start_ts` has met the lock, at time `current_ts`.
pub open spec fn pushed_min_commit_ts(lock: LockView, caller_start_ts: u64, current_ts: u64) -> u64 {
    if lock.min_commit_ts != 0 && caller_start_ts != u64::MAX && caller_start_ts
        >= lock.min_commit_ts {
        if caller_start_ts + 1 < current_ts {
            current_ts
        } else {
            (caller_start_ts + 1) as u64
        }
    } else {
        lock.min_commit_ts
    }
}

/// What the check of a transaction that holds its lock does.
///
/// A lock of a transaction that commits asynchronously is left alone. An
/// expired lock is rolled back. Else the lower bound of the commit timestamp
/// is pushed past the caller, where the lock has one and the caller is not a
/// reader of the latest version.
pub open spec fn lock_exists_outcome(
    s: State,
    start_ts: u64,
    collapse: bool,
    key: Seq<u8>,
    lock: LockView,
    current_ts: u64,
    caller_start_ts: u64,
) -> Outcome<(TxnStatusView, Option<ReleasedLockView>)> {
    if lock.use_async_commit {
        done((TxnStatusView::Uncommitted { lock, min_commit_ts_pushed: false }, None))
    } else if lock_expired(lock.ts, lock.ttl, current_ts) {
        let o = rollback_lock_outcome(s, start_ts, collapse, key, lock, lock.is_pessimistic_txn());
        match o.result {
            Ok(released) => Outcome { result: Ok((TxnStatusView::TtlExpire, released)), changes: o.changes },
            Err(ErrorView::Committed { commit_ts }) => done(
                (TxnStatusView::Committed { commit_ts }, None),
            ),
            Err(e) => fail(e),
        }
    } else {
        let bound = pushed_min_commit_ts(lock, caller_start_ts, current_ts);
        let new_lock = LockView { min_commit_ts: bound, ..lock };
        let pushed = (caller_start_ts != 0 && bound > caller_start_ts) || caller_start_ts == u64::MAX;
        Outcome {
            result: Ok((TxnStatusView::Uncommitted { lock: new_lock, min_commit_ts_pushed: pushed }, None)),
            changes: if bound != lock.min_commit_ts {
                seq![ModifyView::PutLock(key, new_lock)]
            } else {
                Seq::empty()
            },
        }
    }
}

/// What the check of the status of a transaction does, from its primary key.
pub open spec fn check_txn_status_outcome(
    s: State,
    start_ts: u64,
    collapse: bool,
    key: Seq<u8>,
    caller_start_ts: u64,
    current_ts: u64,
) -> Outcome<(TxnStatusView, Option<ReleasedLockView>)> {
    if s.locks.contains_key(key) && s.locks[key].ts == start_ts {
        lock_exists_outcome(s, start_ts, collapse, key, s.locks[key], current_ts, caller_start_ts)
    } else {
        let o = missing_lock_outcome(s, start_ts, collapse, key, MissingLockAction::ProtectedRollback);
        match o.result {
            Ok(status) => Outcome { result: Ok((status, None)), changes: o.changes },
            Err(e) => fail(e),
        }
    }
}

/// The status with the released lock, as mathematical values.
pub open spec fn status_pair_view(r: (TxnStatus, Option<ReleasedLock>)) -> (
    TxnStatusView,
    Option<ReleasedLockView>,
) {
    (r.0@, released_view(r.1))
}

/// Checks the status of the transaction from its primary key, for a caller
/// that started at `caller_start_ts` and asks at `current_ts`. Never fails.
/// The manager of the transaction notes both timestamps.
pub fn check_txn_status(
    txn: &mut MvccTxn,
    primary_key: Key,
    caller_start_ts: TimeStamp,
    current_ts: TimeStamp,
) -> (r: (TxnStatus, Option<ReleasedLock>))
    ensures
        final(txn).has_noted_both(old(txn), caller_start_ts@, current_ts@),
        ({
            let o = check_txn_status_outcome(
                old(txn).state(),
                old(txn).start_ts@,
                old(txn).collapse_rollback,
                primary_key@,
                caller_start_ts@,
                current_ts@,
            );
            o.result == Ok::<(TxnStatusView, Option<ReleasedLockView>), ErrorView>(
                status_pair_view(r),
            ) && final(txn).extends(old(txn), o.changes)
        }),
{
    txn.note_ts(caller_start_ts);
    txn.note_ts(current_ts);
    let ghost before = txn.changes();
    assert(before + Seq::<ModifyView>::empty() =~= before);
    match txn.reader.load_lock(&primary_key) {
        Some(lock) if lock.ts.0 == txn.start_ts.0 => {
            if lock.use_async_commit {
                return (TxnStatus::Uncommitted { lock, min_commit_ts_pushed: false }, None);
            }
            let is_pessimistic_txn = lock.is_pessimistic_txn();
            if is_lock_expired(lock.ts, lock.ttl, current_ts) {
                return match txn.check_write_and_rollback_lock(primary_key, &lock, is_pessimistic_txn) {
                    Ok(released) => (TxnStatus::TtlExpire, released),
                    Err(Error::Committed { commit_ts }) => (TxnStatus::Committed { commit_ts }, None),
                    Err(_) => unreached(),
                };
            }
            let mut lock = lock;
            // A lock without a lower bound belongs to a transaction that
            // cannot follow a pushed one.
            if !lock.min_commit_ts.is_zero() && !caller_start_ts.is_max() && caller_start_ts.0
                >= lock.min_commit_ts.0 {
                lock.min_commit_ts = caller_start_ts.next();
                if lock.min_commit_ts.0 < current_ts.0 {
                    lock.min_commit_ts = current_ts;
                }
                txn.put_lock(primary_key, &lock);
            }
            let min_commit_ts_pushed = (!caller_start_ts.is_zero() && lock.min_commit_ts.0
                > caller_start_ts.0) || caller_start_ts.is_max();
            (TxnStatus::Uncommitted { lock, min_commit_ts_pushed }, None)
        },
        _ => match check_txn_status_missing_lock(txn, primary_key, MissingLockAction::ProtectedRollback) {
            Ok(status) => (status, None),
            Err(_) => unreached(),
        },
    }
}

} // verus!
