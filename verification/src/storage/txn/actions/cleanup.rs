//! Cleaning up after a transaction: rolling back its lock on a key, or
//! leaving word of the rollback where the lock is gone.

use vstd::prelude::*;
use vstd::pervasive::unreached;
use crate::storage::kv::state::{ModifyView, State};
use crate::storage::mvcc::error::{Error, ErrorView};
use crate::concurrency_manager::ConcurrencyManager;
use crate::storage::kv::engine::{batch_view, seek_write, Engine};
use crate::storage::kv::state::{lemma_apply_concat, lemma_apply_front, lemma_apply_one};
use crate::storage::mvcc::reader::{
    lemma_commit_record_absent,
    lemma_commit_record_at_start,
    lemma_commit_record_same,
    txn_commit_record,
    TxnCommitRecordView,
};
use crate::storage::txn::actions::commit::commit_outcome;
use crate::txn_types::lock::LockType;
use crate::txn_types::write::WriteType;
use crate::storage::mvcc::txn::{
    collapse_changes,
    rollback_write,
    fail,
    released_result_view,
    rollback_lock_outcome,
    MvccTxn,
    Outcome,
    ReleasedLock,
    ReleasedLockView,
};
use crate::storage::txn::actions::check_txn_status::{
    check_txn_status_missing_lock,
    missing_lock_outcome,
    MissingLockAction,
    TxnStatus,
    TxnStatusView,
};
use crate::txn_types::key::Key;
use crate::txn_types::timestamp::{physical_of, TimeStamp};

verus! {

/// Whether a lock taken at `lock_ts` with `ttl` milliseconds to live is
/// still alive at `current_ts`. Zero stands for "do not ask".
pub open spec fn lock_alive(lock_ts: u64, ttl: u64, current_ts: u64) -> bool {
    current_ts != 0 && physical_of(lock_ts) + ttl >= physical_of(current_ts)
}

/// What cleaning up after the transaction on `key` does.
///
/// The transaction's own lock is rolled back, unless `current_ts` is given and
/// the lock is still alive, which fails with `KeyIsLocked`. Without its lock
/// the records decide: a commit fails with `Committed`, a rollback is left as
/// it is, and where there is no trace a rollback record is written, protected
/// if `protect_rollback` is set.
pub open spec fn cleanup_outcome(
    s: State,
    start_ts: u64,
    collapse: bool,
    key: Seq<u8>,
    current_ts: u64,
    protect_rollback: bool,
) -> Outcome<Option<ReleasedLockView>> {
    if s.locks.contains_key(key) && s.locks[key].ts == start_ts {
        let lock = s.locks[key];
        if lock_alive(lock.ts, lock.ttl, current_ts) {
            fail(ErrorView::KeyIsLocked(lock.lock_info(key)))
        } else {
            rollback_lock_outcome(s, start_ts, collapse, key, lock, lock.is_pessimistic_txn())
        }
    } else {
        let action = if protect_rollback {
            MissingLockAction::ProtectedRollback
        } else {
            MissingLockAction::Rollback
        };
        let o = missing_lock_outcome(s, start_ts, collapse, key, action);
        match o.result {
            Ok(TxnStatusView::Committed { commit_ts }) => fail(ErrorView::Committed { commit_ts }),
            Ok(_) => Outcome { result: Ok(None), changes: o.changes },
            Err(e) => fail(e),
        }
    }
}

/// Cleans up the lock of the transaction on `key` if its time to live has
/// passed at `current_ts`; with `current_ts` zero the time is not looked at.
/// The manager of the transaction notes `current_ts`.
/// The rollback of the primary key of a pessimistic transaction is protected
/// from being collapsed.
///
/// Returns the released lock. Fails if the key is still locked or the
/// transaction is committed.
pub fn cleanup(txn: &mut MvccTxn, key: Key, current_ts: TimeStamp, protect_rollback: bool) -> (r: Result<
    Option<ReleasedLock>,
    Error,
>)
    ensures
        final(txn).has_noted(old(txn), current_ts@),
        ({
            let o = cleanup_outcome(
                old(txn).state(),
                old(txn).start_ts@,
                old(txn).collapse_rollback,
                key@,
                current_ts@,
                protect_rollback,
            );
            released_result_view(r) == o.result && final(txn).extends(old(txn), o.changes)
        }),
{
    txn.note_ts(current_ts);
    assert(txn.changes() + Seq::<ModifyView>::empty() =~= txn.changes());
    match txn.reader.load_lock(&key) {
        Some(lock) if lock.ts.0 == txn.start_ts.0 => {
            // With a current time, a lock that has not expired stays.
            if !current_ts.is_zero() && (lock.ts.physical() as u128) + (lock.ttl as u128)
                >= (current_ts.physical() as u128) {
                return Err(Error::KeyIsLocked(lock.into_lock_info(key.into_raw())));
            }
            let is_pessimistic_txn = !lock.for_update_ts.is_zero();
            txn.check_write_and_rollback_lock(key, &lock, is_pessimistic_txn)
        },
        _ => match check_txn_status_missing_lock(
            txn,
            key,
            MissingLockAction::rollback_protect(protect_rollback),
        ) {
            Ok(TxnStatus::Committed { commit_ts }) => Err(Error::Committed { commit_ts }),
            // A rollback that is there already is no failure.
            Ok(TxnStatus::RolledBack) => Ok(None),
            Ok(TxnStatus::LockNotExist) => Ok(None),
            Ok(_) => unreached(),
            Err(e) => Err(e),
        },
    }
}

/// Whether the store tells that the transaction that started at `start_ts`
/// was rolled back on `key`: it holds no lock there, and its rollback is on
/// record.
pub open spec fn rolled_back(s: State, key: Seq<u8>, start_ts: u64) -> bool {
    &&& !(s.locks.contains_key(key) && s.locks[key].ts == start_ts)
    &&& match txn_commit_record(s, key, start_ts) {
        TxnCommitRecordView::SingleRecord { write, .. } => write.write_type == WriteType::Rollback,
        TxnCommitRecordView::OverlappedRollback { .. } => true,
        TxnCommitRecordView::Absent { .. } => false,
    }
}

/// After a cleanup that succeeds, the store tells that the transaction was
/// rolled back on the key.
pub proof fn lemma_cleanup_rolls_back(
    s: State,
    start_ts: u64,
    collapse: bool,
    key: Seq<u8>,
    current_ts: u64,
    protect_rollback: bool,
)
    requires
        cleanup_outcome(s, start_ts, collapse, key, current_ts, protect_rollback).result is Ok,
    ensures
        rolled_back(
            s.apply_all(cleanup_outcome(s, start_ts, collapse, key, current_ts, protect_rollback).changes),
            key,
            start_ts,
        ),
{
    let o = cleanup_outcome(s, start_ts, collapse, key, current_ts, protect_rollback);
    let after = s.apply_all(o.changes);
    let unlock = ModifyView::DeleteLock(key);
    let collapsed = if collapse {
        collapse_changes(s, key, start_ts)
    } else {
        Seq::empty()
    };
    let record = txn_commit_record(s, key, start_ts);
    if record is Absent {
        lemma_commit_record_absent(s, key, start_ts, u64::MAX);
    }
    if seek_write(s, key, start_ts) is Some {
        crate::storage::kv::engine::lemma_seek_write_some(s, key, start_ts);
    }
    if s.writes.contains_key((key, start_ts)) {
        assert(crate::storage::kv::engine::is_newest_at(s, key, start_ts, start_ts));
        crate::storage::kv::engine::lemma_seek_write_is(s, key, start_ts, start_ts);
    }
    if s.locks.contains_key(key) && s.locks[key].ts == start_ts {
        let lock = s.locks[key];
        match record {
            TxnCommitRecordView::Absent { overlapped_write } => {
                let protected = lock.is_pessimistic_txn() && key == lock.primary;
                let rw = rollback_write(start_ts, protected, overlapped_write);
                let put = ModifyView::PutWrite(key, start_ts, rw);
                let drop_value = if lock.short_value is None && lock.lock_type == LockType::Put {
                    seq![ModifyView::DeleteValue(key, lock.ts)]
                } else {
                    Seq::empty()
                };
                assert(o.changes == drop_value + collapsed + seq![put] + seq![unlock]);
                lemma_apply_concat(s, drop_value + collapsed + seq![put], seq![unlock]);
                lemma_apply_concat(s, drop_value + collapsed, seq![put]);
                lemma_apply_front(s, drop_value, collapsed);
                let s0 = if drop_value.len() == 1 {
                    s.apply(drop_value[0])
                } else {
                    s
                };
                lemma_apply_front(s0, collapsed, Seq::empty());
                assert(collapsed + Seq::<ModifyView>::empty() =~= collapsed);
                let s1 = s0.apply_all(collapsed);
                lemma_apply_one(s1, put);
                let s2 = s1.apply(put);
                lemma_apply_one(s2, unlock);
                assert(after == s2.apply(unlock));
                assert(s2.writes[(key, start_ts)] == rw);
                lemma_commit_record_at_start(s, after, key, start_ts, u64::MAX);
            },
            _ => {
                lemma_apply_one(s, unlock);
                lemma_commit_record_same(s, after, key, start_ts, u64::MAX);
            },
        }
    } else {
        match record {
            TxnCommitRecordView::Absent { overlapped_write } => {
                let rw = rollback_write(start_ts, protect_rollback, overlapped_write);
                let put = ModifyView::PutWrite(key, start_ts, rw);
                assert(o.changes == collapsed + seq![put]);
                lemma_apply_front(s, collapsed, seq![put]);
                let s0 = if collapsed.len() == 1 {
                    s.apply(collapsed[0])
                } else {
                    s
                };
                lemma_apply_one(s0, put);
                assert(after == s0.apply(put));
                assert(after.writes[(key, start_ts)] == rw);
                lemma_commit_record_at_start(s, after, key, start_ts, u64::MAX);
            },
            _ => {
                assert(after == s);
            },
        }
    }
}

/// Cleaning up after a transaction on a key twice succeeds both times, and
/// the second time changes nothing; so does rolling it back twice.
pub proof fn lemma_cleanup_idempotent(
    s: State,
    start_ts: u64,
    collapse: bool,
    key: Seq<u8>,
    current_ts: u64,
    protect_rollback: bool,
)
    requires
        cleanup_outcome(s, start_ts, collapse, key, current_ts, protect_rollback).result is Ok,
    ensures
        ({
            let first = cleanup_outcome(s, start_ts, collapse, key, current_ts, protect_rollback);
            let after = s.apply_all(first.changes);
            let second = cleanup_outcome(after, start_ts, collapse, key, current_ts, protect_rollback);
            second.result is Ok && after.apply_all(second.changes) == after
        }),
{
    lemma_cleanup_rolls_back(s, start_ts, collapse, key, current_ts, protect_rollback);
}

/// Once a transaction has been rolled back on a key, it cannot be committed
/// there at any timestamp.
pub proof fn lemma_no_commit_after_rollback(
    s: State,
    start_ts: u64,
    collapse: bool,
    key: Seq<u8>,
    protect_rollback: bool,
    commit_ts: u64,
)
    requires
        rollback_outcome(s, start_ts, collapse, key, protect_rollback).result is Ok,
    ensures
        ({
            let after = s.apply_all(rollback_outcome(s, start_ts, collapse, key, protect_rollback).changes);
            commit_outcome(after, start_ts, key, commit_ts).result == Err::<
                Option<ReleasedLockView>,
                ErrorView,
            >(ErrorView::TxnLockNotFound { start_ts, commit_ts, key })
        }),
{
    lemma_cleanup_rolls_back(s, start_ts, collapse, key, 0, protect_rollback);
}

/// What rolling back the transaction on `key` does: a cleanup that does not
/// look at the time.
pub open spec fn rollback_outcome(s: State, start_ts: u64, collapse: bool, key: Seq<u8>, protect_rollback: bool) -> Outcome<
    Option<ReleasedLockView>,
> {
    cleanup_outcome(s, start_ts, collapse, key, 0, protect_rollback)
}

/// Rolls back the transaction on `key`. Fails if the transaction is committed.
pub fn rollback(txn: &mut MvccTxn, key: Key, protect_rollback: bool) -> (r: Result<Option<ReleasedLock>, Error>)
    ensures
        final(txn).same_clock(old(txn)),
        ({
            let o = rollback_outcome(
                old(txn).state(),
                old(txn).start_ts@,
                old(txn).collapse_rollback,
                key@,
                protect_rollback,
            );
            released_result_view(r) == o.result && final(txn).extends(old(txn), o.changes)
        }),
{
    cleanup(txn, key, TimeStamp::zero(), protect_rollback)
}

/// Cleans up after the transaction that started at `start_ts` on `key` in the
/// store, with protection of the rollback, and writes what the action asks
/// for. It is for callers that know that the cleanup succeeds.
pub fn must_succeed(engine: &mut Engine, key: &[u8], start_ts: TimeStamp, current_ts: TimeStamp)
    requires
        cleanup_outcome(old(engine)@, start_ts@, true, key@, current_ts@, true).result is Ok,
    ensures
        final(engine)@ == old(engine)@.apply_all(
            cleanup_outcome(old(engine)@, start_ts@, true, key@, current_ts@, true).changes,
        ),
{
    let cm = ConcurrencyManager::new(current_ts);
    let mut txn = MvccTxn::new(&*engine, start_ts, cm);
    let res = cleanup(&mut txn, Key::from_raw(key), current_ts, true);
    let modifies = txn.into_modifies();
    assert(Seq::<ModifyView>::empty() + batch_view(modifies@) =~= batch_view(modifies@));
    match res {
        Ok(_) => {
            engine.write(modifies);
        },
        Err(_) => vstd::pervasive::unreached(),
    }
}

/// Tries to clean up where that is known to fail, and returns the failure.
/// The store is left as it is.
pub fn must_err(engine: &Engine, key: &[u8], start_ts: TimeStamp, current_ts: TimeStamp) -> (e: Error)
    requires
        cleanup_outcome(engine@, start_ts@, true, key@, current_ts@, true).result is Err,
    ensures
        cleanup_outcome(engine@, start_ts@, true, key@, current_ts@, true).result == Err::<
            Option<ReleasedLockView>,
            ErrorView,
        >(e@),
{
    let cm = ConcurrencyManager::new(current_ts);
    let mut txn = MvccTxn::new(engine, start_ts, cm);
    match cleanup(&mut txn, Key::from_raw(key), current_ts, true) {
        Ok(_) => vstd::pervasive::unreached(),
        Err(e) => e,
    }
}

} // verus!
