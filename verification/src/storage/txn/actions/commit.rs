//! Committing the lock of a transaction on a key.

use vstd::prelude::*;
use crate::storage::kv::state::{ModifyView, State};
use crate::storage::mvcc::error::{Error, ErrorView};
use crate::storage::mvcc::reader::{get_value, txn_commit_record, TxnCommitRecord, TxnCommitRecordView};
use crate::storage::mvcc::txn::{
    done,
    fail,
    released_result_view,
    MvccTxn,
    Outcome,
    ReleasedLock,
    ReleasedLockView,
};
use crate::txn_types::key::Key;
use crate::txn_types::lock::{LockType, LockView};
use crate::txn_types::timestamp::TimeStamp;
use crate::txn_types::write::{Write, WriteType, WriteView};

verus! {

/// The kind of record that committing a lock writes: a pessimistic lock that
/// was never prewritten commits as a `Lock` record.
pub open spec fn committed_type(lock_type: LockType) -> WriteType {
    match lock_type {
        LockType::Put => WriteType::Put,
        LockType::Delete => WriteType::Delete,
        LockType::Lock => WriteType::Lock,
        LockType::Pessimistic => WriteType::Lock,
    }
}

/// Whether the record at `commit_ts` of `key`, if there is one, tells of a
/// rollback that a commit at that timestamp has to carry on.
pub open spec fn rollback_at(s: State, key: Seq<u8>, commit_ts: u64) -> bool {
    s.writes.contains_key((key, commit_ts)) && (s.writes[(key, commit_ts)].write_type
        == WriteType::Rollback || s.writes[(key, commit_ts)].has_overlapped_rollback)
}

/// The record that committing `lock` at a timestamp writes.
pub open spec fn committed_write(lock: LockView, start_ts: u64, overlapped: bool) -> WriteView {
    WriteView {
        write_type: committed_type(lock.lock_type),
        start_ts,
        short_value: lock.short_value,
        has_overlapped_rollback: overlapped,
    }
}

/// What committing the transaction on `key` at `commit_ts` does.
///
/// With the transaction's lock on the key: a commit timestamp below the lower
/// bound that the lock holds fails with `CommitTsExpired`; else the record is
/// written at `commit_ts` with the value that the lock holds, and the lock is
/// removed. Without the lock: where the transaction's commit is on record
/// nothing is left to do; else the commit fails with `TxnLockNotFound`.
pub open spec fn commit_outcome(s: State, start_ts: u64, key: Seq<u8>, commit_ts: u64) -> Outcome<
    Option<ReleasedLockView>,
> {
    if s.locks.contains_key(key) && s.locks[key].ts == start_ts {
        let lock = s.locks[key];
        if commit_ts < lock.min_commit_ts {
            fail(
                ErrorView::CommitTsExpired {
                    start_ts,
                    commit_ts,
                    key,
                    min_commit_ts: lock.min_commit_ts,
                },
            )
        } else {
            Outcome {
                result: Ok(Some(ReleasedLockView { key, pessimistic: lock.is_pessimistic_txn() })),
                changes: seq![
                    ModifyView::PutWrite(
                        key,
                        commit_ts,
                        committed_write(lock, start_ts, rollback_at(s, key, commit_ts)),
                    ),
                    ModifyView::DeleteLock(key),
                ],
            }
        }
    } else {
        match txn_commit_record(s, key, start_ts) {
            TxnCommitRecordView::SingleRecord { write, .. } => if write.write_type
                != WriteType::Rollback {
                done(None)
            } else {
                fail(ErrorView::TxnLockNotFound { start_ts, commit_ts, key })
            },
            _ => fail(ErrorView::TxnLockNotFound { start_ts, commit_ts, key }),
        }
    }
}

/// After a commit has taken the transaction's `Put` or `Delete` lock off
/// `key` at `commit_ts`, a reader at `commit_ts` gets the value that was
/// committed, or nothing where the key was deleted.
pub proof fn lemma_read_after_commit(s: State, start_ts: u64, key: Seq<u8>, commit_ts: u64)
    requires
        s.locks.contains_key(key),
        s.locks[key].ts == start_ts,
        commit_outcome(s, start_ts, key, commit_ts).result is Ok,
        s.locks[key].lock_type == LockType::Put || s.locks[key].lock_type == LockType::Delete,
        s.locks[key].lock_type == LockType::Put && s.locks[key].short_value is None
            ==> s.values.contains_key((key, start_ts)),
    ensures
        ({
            let lock = s.locks[key];
            let after = s.apply_all(commit_outcome(s, start_ts, key, commit_ts).changes);
            get_value(after, key, commit_ts, false) == Ok::<Option<Seq<u8>>, ErrorView>(
                if lock.lock_type == LockType::Delete {
                    None
                } else if lock.short_value is Some {
                    lock.short_value
                } else {
                    Some(s.values[(key, start_ts)])
                },
            )
        }),
{
    let lock = s.locks[key];
    let w = committed_write(lock, start_ts, rollback_at(s, key, commit_ts));
    let after = s.apply_all(commit_outcome(s, start_ts, key, commit_ts).changes);
    crate::storage::kv::state::lemma_apply_two(
        s,
        ModifyView::PutWrite(key, commit_ts, w),
        ModifyView::DeleteLock(key),
    );
    assert(!after.locks.contains_key(key));
    assert(after.writes.contains_key((key, commit_ts)));
    assert(after.writes[(key, commit_ts)] == w);
    assert(crate::storage::kv::engine::is_newest_at(after, key, commit_ts, commit_ts));
    crate::storage::kv::engine::lemma_seek_write_is(after, key, commit_ts, commit_ts);
    assert(after.values == s.values);
}

/// Committing a transaction on a key twice at the same timestamp succeeds
/// both times, and the second time changes nothing. Where the first commit
/// takes the lock off, the commit timestamp is not before the start and the
/// transaction has left no record on the key before.
pub proof fn lemma_commit_idempotent(s: State, start_ts: u64, key: Seq<u8>, commit_ts: u64)
    requires
        commit_outcome(s, start_ts, key, commit_ts).result is Ok,
        s.locks.contains_key(key) && s.locks[key].ts == start_ts ==> commit_ts >= start_ts
            && forall|c: u64| #[trigger]
            s.writes.contains_key((key, c)) ==> s.writes[(key, c)].start_ts != start_ts,
    ensures
        ({
            let first = commit_outcome(s, start_ts, key, commit_ts);
            let after = s.apply_all(first.changes);
            let second = commit_outcome(after, start_ts, key, commit_ts);
            second.result is Ok && after.apply_all(second.changes) == after
        }),
{
    let first = commit_outcome(s, start_ts, key, commit_ts);
    let after = s.apply_all(first.changes);
    if s.locks.contains_key(key) && s.locks[key].ts == start_ts {
        let lock = s.locks[key];
        let w = committed_write(lock, start_ts, rollback_at(s, key, commit_ts));
        crate::storage::kv::state::lemma_apply_two(
            s,
            ModifyView::PutWrite(key, commit_ts, w),
            ModifyView::DeleteLock(key),
        );
        assert(!after.locks.contains_key(key));
        assert(after.writes == s.writes.insert((key, commit_ts), w));
        crate::storage::mvcc::reader::lemma_commit_record_found(
            after,
            key,
            start_ts,
            commit_ts,
            u64::MAX,
        );
    } else {
        assert(after == s);
    }
}

/// Commits the transaction on `key` at `commit_ts`. Returns the released
/// lock, or none where the commit had been done before. The manager of the
/// transaction notes `commit_ts`.
pub fn commit(txn: &mut MvccTxn, key: Key, commit_ts: TimeStamp) -> (r: Result<Option<ReleasedLock>, Error>)
    ensures
        final(txn).has_noted(old(txn), commit_ts@),
        ({
            let o = commit_outcome(old(txn).state(), old(txn).start_ts@, key@, commit_ts@);
            released_result_view(r) == o.result && final(txn).extends(old(txn), o.changes)
        }),
{
    txn.note_ts(commit_ts);
    let ghost before = txn.changes();
    assert(before + Seq::<ModifyView>::empty() =~= before);
    let held = match txn.reader.load_lock(&key) {
        Some(lock) => if lock.ts.0 == txn.start_ts.0 {
            Some(lock)
        } else {
            None
        },
        None => None,
    };
    let lock = match held {
        Some(lock) => {
            // A commit below the lower bound of the lock is refused.
            if commit_ts.0 < lock.min_commit_ts.0 {
                return Err(
                    Error::CommitTsExpired {
                        start_ts: txn.start_ts,
                        commit_ts,
                        key: key.into_raw(),
                        min_commit_ts: lock.min_commit_ts,
                    },
                );
            }
            lock
        },
        None => {
            let committed = match txn.reader.get_txn_commit_record(&key, txn.start_ts) {
                TxnCommitRecord::SingleRecord { commit_ts: _, write } => write.write_type
                    != WriteType::Rollback,
                _ => false,
            };
            if committed {
                // Committed before.
                return Ok(None);
            }
            // Rolled back, or the rollback has been collapsed.
            return Err(
                Error::TxnLockNotFound { start_ts: txn.start_ts, commit_ts, key: key.into_raw() },
            );
        },
    };
    // A pessimistic lock that is still there commits as a `Lock` record.
    let write_type = match lock.lock_type {
        LockType::Put => WriteType::Put,
        LockType::Delete => WriteType::Delete,
        LockType::Lock => WriteType::Lock,
        LockType::Pessimistic => WriteType::Lock,
    };
    let overlapped = match txn.reader.snapshot.get_write(key.0.as_slice(), commit_ts) {
        Some(w) => w.write_type == WriteType::Rollback || w.has_overlapped_rollback,
        None => false,
    };
    let pessimistic = lock.is_pessimistic_txn();
    let write = Write::new(write_type, txn.start_ts, lock.short_value).set_overlapped_rollback(
        overlapped,
    );
    let ghost first = seq![ModifyView::PutWrite(key@, commit_ts@, write@)];
    txn.put_write(key.duplicate(), commit_ts, write);
    let released = txn.unlock_key(key, pessimistic);
    assert((before + first) + seq![ModifyView::DeleteLock(key@)] =~= before + seq![
        ModifyView::PutWrite(key@, commit_ts@, write@),
        ModifyView::DeleteLock(key@),
    ]);
    Ok(released)
}

} // verus!
