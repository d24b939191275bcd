//! A transaction over a snapshot: it reads the snapshot and collects the
//! changes that its actions ask for, which the caller writes as one batch.

use vstd::prelude::*;
use crate::concurrency_manager::{noted, ConcurrencyManager};
use crate::storage::kv::engine::{batch_view, seek_write, Engine, Modify};
use crate::storage::kv::state::{ModifyView, State};
use crate::storage::mvcc::error::{unit_result_view, Error, ErrorView};
use crate::storage::mvcc::reader::{txn_commit_record, visible_put, MvccReader, TxnCommitRecord, TxnCommitRecordView};
use crate::txn_types::bytes::clone_bytes;
use crate::txn_types::key::Key;
use crate::txn_types::lock::{Lock, LockType, LockView};
use crate::txn_types::timestamp::TimeStamp;
use crate::txn_types::write::{Write, WriteType, WriteView};

verus! {

/// What an action does: what it returns and the changes that it adds to the
/// transaction's batch.
pub struct Outcome<T> {
    pub result: Result<T, ErrorView>,
    pub changes: Seq<ModifyView>,
}

/// The outcome that fails with `e` and changes nothing.
pub open spec fn fail<T>(e: ErrorView) -> Outcome<T> {
    Outcome { result: Err(e), changes: Seq::empty() }
}

/// The outcome that returns `v` and changes nothing.
pub open spec fn done<T>(v: T) -> Outcome<T> {
    Outcome { result: Ok(v), changes: Seq::empty() }
}

/// A lock that an action took off a key.
#[derive(Debug)]
pub struct ReleasedLock {
    pub key: Vec<u8>,
    pub pessimistic: bool,
}

/// A released lock as a mathematical value.
pub struct ReleasedLockView {
    pub key: Seq<u8>,
    pub pessimistic: bool,
}

impl View for ReleasedLock {
    type V = ReleasedLockView;

    open spec fn view(&self) -> ReleasedLockView {
        ReleasedLockView { key: self.key@, pessimistic: self.pessimistic }
    }
}

/// An optional released lock as a mathematical value.
pub open spec fn released_view(r: Option<ReleasedLock>) -> Option<ReleasedLockView> {
    match r {
        Some(l) => Some(l@),
        None => None,
    }
}

/// The outcome of an action that may release a lock, as a mathematical value.
pub open spec fn released_result_view(r: Result<Option<ReleasedLock>, Error>) -> Result<
    Option<ReleasedLockView>,
    ErrorView,
> {
    match r {
        Ok(l) => Ok(released_view(l)),
        Err(e) => Err(e@),
    }
}

/// Whether a key with the newest record `w` at `commit_ts` breaks the demand
/// that the key must not exist.
pub open spec fn key_exists_at(s: State, key: Seq<u8>, w: WriteView, commit_ts: u64) -> bool {
    w.write_type == WriteType::Put || (w.write_type != WriteType::Delete && commit_ts > 0
        && visible_put(s, key, (commit_ts - 1) as u64) is Some)
}

/// The check of the demand that a key must not exist, against its newest
/// record `w` at `commit_ts`.
pub open spec fn data_constraint(
    s: State,
    should_not_exist: bool,
    w: WriteView,
    commit_ts: u64,
    key: Seq<u8>,
) -> Result<(), ErrorView> {
    if should_not_exist && key_exists_at(s, key, w, commit_ts) {
        Err(ErrorView::AlreadyExist { key })
    } else {
        Ok(())
    }
}

/// The removal of the rollback record just before `start_ts`, where the newest
/// record of `key` at or before `start_ts` is a rollback that is not
/// protected.
pub open spec fn collapse_changes(s: State, key: Seq<u8>, start_ts: u64) -> Seq<ModifyView> {
    match seek_write(s, key, start_ts) {
        Some(c) => {
            let w = s.writes[(key, c)];
            if w.write_type == WriteType::Rollback && !w.is_protected() {
                seq![ModifyView::DeleteWrite(key, c)]
            } else {
                Seq::empty()
            }
        },
        None => Seq::empty(),
    }
}

/// The record that tells of the rollback of the transaction that started at
/// `start_ts`: the flag on another transaction's commit at that timestamp
/// where there is one, else a rollback record.
pub open spec fn rollback_write(start_ts: u64, protected: bool, overlapped_write: Option<WriteView>) -> WriteView {
    match overlapped_write {
        Some(w) => w.with_overlapped_rollback(true),
        None => WriteView::rollback(start_ts, protected),
    }
}

/// What rolling back the lock `lock` that the transaction holds on `key` does.
///
/// Where the transaction has a commit record, nothing is changed and
/// `Committed` is reported. Where its rollback is on record already, the lock
/// alone is removed. Else the value that a `Put` lock stored apart is removed,
/// the rollback before this one is collapsed if the transaction asks for
/// that, the rollback is recorded, and the lock is removed. The rollback of the
/// primary key of a pessimistic transaction is protected.
pub open spec fn rollback_lock_outcome(
    s: State,
    start_ts: u64,
    collapse: bool,
    key: Seq<u8>,
    lock: LockView,
    is_pessimistic_txn: bool,
) -> Outcome<Option<ReleasedLockView>> {
    let released = Some(ReleasedLockView { key, pessimistic: is_pessimistic_txn });
    match txn_commit_record(s, key, start_ts) {
        TxnCommitRecordView::SingleRecord { commit_ts, write } => if write.write_type
            != WriteType::Rollback {
            fail(ErrorView::Committed { commit_ts })
        } else {
            Outcome { result: Ok(released), changes: seq![ModifyView::DeleteLock(key)] }
        },
        TxnCommitRecordView::OverlappedRollback { .. } => Outcome {
            result: Ok(released),
            changes: seq![ModifyView::DeleteLock(key)],
        },
        TxnCommitRecordView::Absent { overlapped_write } => {
            let protected = is_pessimistic_txn && key == lock.primary;
            let drop_value = if lock.short_value is None && lock.lock_type == LockType::Put {
                seq![ModifyView::DeleteValue(key, lock.ts)]
            } else {
                Seq::empty()
            };
            let record = seq![
                ModifyView::PutWrite(key, start_ts, rollback_write(start_ts, protected, overlapped_write)),
            ];
            let collapsed = if collapse {
                collapse_changes(s, key, start_ts)
            } else {
                Seq::empty()
            };
            Outcome {
                result: Ok(released),
                changes: drop_value + collapsed + record + seq![ModifyView::DeleteLock(key)],
            }
        },
    }
}

/// A transaction: a reader over a snapshot, a start timestamp and the batch
/// of changes collected so far.
pub struct MvccTxn<'a> {
    pub reader: MvccReader<'a>,
    pub start_ts: TimeStamp,
    pub collapse_rollback: bool,
    pub concurrency_manager: ConcurrencyManager,
    pub modifies: Vec<Modify>,
}

impl<'a> MvccTxn<'a> {
    /// The store that this transaction reads.
    pub open spec fn state(&self) -> State {
        self.reader.state()
    }

    /// The changes collected so far.
    pub open spec fn changes(&self) -> Seq<ModifyView> {
        batch_view(self.modifies@)
    }

    /// The largest timestamp that the transaction's manager has seen.
    pub open spec fn max_ts(&self) -> u64 {
        self.concurrency_manager.spec_max_ts()
    }

    /// Whether this transaction reads the same snapshot as `before`, with the
    /// same start and the same way to roll back.
    pub open spec fn same_context(&self, before: &Self) -> bool {
        &&& self.reader == before.reader
        &&& self.start_ts == before.start_ts
        &&& self.collapse_rollback == before.collapse_rollback
    }

    /// Whether the manager of this transaction has seen what that of
    /// `before` had seen, and no more.
    pub open spec fn same_clock(&self, before: &Self) -> bool {
        &&& self.max_ts() == before.max_ts()
        &&& self.concurrency_manager.spec_synced() == before.concurrency_manager.spec_synced()
    }

    /// Whether the manager of this transaction has noted the timestamp `seen`
    /// since `before`: the largest timestamp is the larger of the two.
    pub open spec fn has_noted(&self, before: &Self, seen: u64) -> bool {
        &&& self.max_ts() == noted(before.max_ts(), seen)
        &&& self.concurrency_manager.spec_synced() == before.concurrency_manager.spec_synced()
    }

    /// Whether the manager of this transaction has noted the timestamps `a`
    /// and `b` since `before`.
    pub open spec fn has_noted_both(&self, before: &Self, a: u64, b: u64) -> bool {
        &&& self.max_ts() == noted(noted(before.max_ts(), a), b)
        &&& self.concurrency_manager.spec_synced() == before.concurrency_manager.spec_synced()
    }

    /// Whether this transaction is `before` with `added` at the end of its
    /// batch.
    pub open spec fn extends(&self, before: &Self, added: Seq<ModifyView>) -> bool {
        self.same_context(before) && self.changes() == before.changes() + added
    }

    /// A transaction that starts at `start_ts` over `snapshot`, with an empty
    /// batch; its rollbacks collapse the one before them. The manager notes
    /// the start.
    pub fn new(snapshot: &'a Engine, start_ts: TimeStamp, concurrency_manager: ConcurrencyManager) -> (txn:
        MvccTxn<'a>)
        ensures
            txn.state() == snapshot@,
            txn.start_ts == start_ts,
            txn.collapse_rollback,
            txn.max_ts() == noted(concurrency_manager.spec_max_ts(), start_ts@),
            txn.concurrency_manager.spec_synced() == concurrency_manager.spec_synced(),
            txn.changes() == Seq::<ModifyView>::empty(),
    {
        let mut concurrency_manager = concurrency_manager;
        concurrency_manager.update_max_ts(start_ts);
        let txn = MvccTxn {
            reader: MvccReader::new(snapshot),
            start_ts,
            collapse_rollback: true,
            concurrency_manager,
            modifies: Vec::new(),
        };
        assert(txn.changes() =~= Seq::<ModifyView>::empty());
        txn
    }

    /// Sets whether a rollback removes the unprotected rollback just before
    /// it.
    pub fn collapse_rollback(&mut self, collapse: bool)
        ensures
            final(self).collapse_rollback == collapse,
            final(self).reader == old(self).reader,
            final(self).start_ts == old(self).start_ts,
            final(self).concurrency_manager == old(self).concurrency_manager,
            final(self).modifies == old(self).modifies,
    {
        self.collapse_rollback = collapse;
    }

    /// Notes a timestamp that has come in: the largest timestamp seen becomes
    /// the larger of the two. Nothing else changes.
    pub fn note_ts(&mut self, ts: TimeStamp)
        ensures
            final(self).same_context(old(self)),
            final(self).changes() == old(self).changes(),
            final(self).has_noted(old(self), ts@),
    {
        self.concurrency_manager.update_max_ts(ts);
    }

    /// The batch of changes.
    pub fn into_modifies(self) -> (modifies: Vec<Modify>)
        ensures
            batch_view(modifies@) == self.changes(),
    {
        self.modifies
    }

    fn push(&mut self, m: Modify)
        ensures
            final(self).same_clock(old(self)),
            final(self).extends(old(self), seq![m@]),
    {
        self.modifies.push(m);
        assert(self.changes() =~= old(self).changes() + seq![m@]);
    }

    /// Adds: store `lock` on `key`.
    pub fn put_lock(&mut self, key: Key, lock: &Lock)
        ensures
            final(self).same_clock(old(self)),
            final(self).extends(old(self), seq![ModifyView::PutLock(key@, lock@)]),
    {
        self.push(Modify::PutLock(key.0, lock.duplicate()));
    }

    /// Adds: take the lock off `key`. Returns the released lock.
    pub fn unlock_key(&mut self, key: Key, pessimistic: bool) -> (released: Option<ReleasedLock>)
        ensures
            final(self).same_clock(old(self)),
            final(self).extends(old(self), seq![ModifyView::DeleteLock(key@)]),
            released_view(released) == Some(ReleasedLockView { key: key@, pessimistic }),
    {
        let released = ReleasedLock { key: clone_bytes(key.0.as_slice()), pessimistic };
        self.push(Modify::DeleteLock(key.0));
        Some(released)
    }

    /// Adds: store `value` for `key` under `ts`.
    pub fn put_value(&mut self, key: Key, ts: TimeStamp, value: Vec<u8>)
        ensures
            final(self).same_clock(old(self)),
            final(self).extends(old(self), seq![ModifyView::PutValue(key@, ts@, value@)]),
    {
        self.push(Modify::PutValue(key.0, ts, value));
    }

    /// Adds: remove the value stored for `key` under `ts`.
    pub fn delete_value(&mut self, key: Key, ts: TimeStamp)
        ensures
            final(self).same_clock(old(self)),
            final(self).extends(old(self), seq![ModifyView::DeleteValue(key@, ts@)]),
    {
        self.push(Modify::DeleteValue(key.0, ts));
    }

    /// Adds: store the record `write` for `key` at `ts`.
    pub fn put_write(&mut self, key: Key, ts: TimeStamp, write: Write)
        ensures
            final(self).same_clock(old(self)),
            final(self).extends(old(self), seq![ModifyView::PutWrite(key@, ts@, write@)]),
    {
        self.push(Modify::PutWrite(key.0, ts, write));
    }

    /// Adds: remove the record of `key` at `ts`.
    pub fn delete_write(&mut self, key: Key, ts: TimeStamp)
        ensures
            final(self).same_clock(old(self)),
            final(self).extends(old(self), seq![ModifyView::DeleteWrite(key@, ts@)]),
    {
        self.push(Modify::DeleteWrite(key.0, ts));
    }

    /// Removes the rollback record just before this transaction's start, if it
    /// is not protected.
    pub fn collapse_prev_rollback(&mut self, key: Key)
        ensures
            final(self).same_clock(old(self)),
            final(self).extends(old(self), collapse_changes(old(self).state(), key@, old(self).start_ts@)),
    {
        if let Some((commit_ts, write)) = self.reader.seek_write(&key, self.start_ts) {
            if write.write_type == WriteType::Rollback && !write.is_protected() {
                self.delete_write(key, commit_ts);
                return ;
            }
        }
        assert(self.changes() + Seq::<ModifyView>::empty() =~= self.changes());
    }

    /// Rolls back the lock `lock` that this transaction holds on `key`.
    pub fn check_write_and_rollback_lock(&mut self, key: Key, lock: &Lock, is_pessimistic_txn: bool) -> (r:
        Result<Option<ReleasedLock>, Error>)
        ensures
            final(self).same_clock(old(self)),
            ({
                let o = rollback_lock_outcome(
                    old(self).state(),
                    old(self).start_ts@,
                    old(self).collapse_rollback,
                    key@,
                    lock@,
                    is_pessimistic_txn,
                );
                released_result_view(r) == o.result && final(self).extends(old(self), o.changes)
            }),
    {
        let ghost before = self.changes();
        let overlapped_write = match self.reader.get_txn_commit_record(&key, self.start_ts) {
            TxnCommitRecord::Absent { overlapped_write } => overlapped_write,
            TxnCommitRecord::SingleRecord { commit_ts, write } => {
                if write.write_type != WriteType::Rollback {
                    assert(before + Seq::<ModifyView>::empty() =~= before);
                    return Err(Error::Committed { commit_ts });
                }
                return Ok(self.unlock_key(key, is_pessimistic_txn));
            },
            TxnCommitRecord::OverlappedRollback { .. } => {
                return Ok(self.unlock_key(key, is_pessimistic_txn));
            },
        };
        let ghost mut added: Seq<ModifyView> = Seq::empty();
        assert(before + added =~= before);
        // A lock that is not a `Put`, or holds its value, stored no value apart.
        if lock.short_value.is_none() && lock.lock_type == LockType::Put {
            self.delete_value(key.duplicate(), lock.ts);
            proof {
                added = seq![ModifyView::DeleteValue(key@, lock.ts@)];
            }
        }
        // Only the primary key of a pessimistic transaction is protected.
        let protected = is_pessimistic_txn && crate::txn_types::order::bytes_equal(
            key.0.as_slice(),
            lock.primary.as_slice(),
        );
        if self.collapse_rollback {
            let ghost mid = self.changes();
            let ghost step = collapse_changes(self.state(), key@, self.start_ts@);
            self.collapse_prev_rollback(key.duplicate());
            proof {
                assert(mid + step =~= before + (added + step));
                added = added + step;
            }
        } else {
            assert(added + Seq::<ModifyView>::empty() =~= added);
        }
        let write = match overlapped_write {
            Some(w) => w.set_overlapped_rollback(true),
            None => Write::new_rollback(self.start_ts, protected),
        };
        let ghost step = seq![ModifyView::PutWrite(key@, self.start_ts@, write@)];
        let ghost mid = self.changes();
        self.put_write(key.duplicate(), self.start_ts, write);
        proof {
            assert(mid + step =~= before + (added + step));
            added = added + step;
        }
        let ghost mid = self.changes();
        let ghost step = seq![ModifyView::DeleteLock(key@)];
        let released = self.unlock_key(key, is_pessimistic_txn);
        proof {
            assert(mid + step =~= before + (added + step));
        }
        Ok(released)
    }

    /// Whether a reader of `key` at `ts` sees a value.
    pub fn key_exist(&self, key: &Key, ts: TimeStamp) -> (r: bool)
        ensures
            r == (visible_put(self.state(), key@, ts@) is Some),
    {
        self.reader.get_write(key, ts).is_some()
    }

    /// Checks the demand that `key` must not exist against its newest record
    /// `write` at `write_commit_ts`.
    pub fn check_data_constraint(
        &self,
        should_not_exist: bool,
        write: &Write,
        write_commit_ts: TimeStamp,
        key: &Key,
    ) -> (r: Result<(), Error>)
        ensures
            unit_result_view(r) == data_constraint(
                self.state(),
                should_not_exist,
                write@,
                write_commit_ts@,
                key@,
            ),
    {
        if !should_not_exist || write.write_type == WriteType::Delete {
            return Ok(());
        }
        if write.write_type == WriteType::Put || (write_commit_ts.0 > 0 && self.key_exist(
            key,
            write_commit_ts.prev(),
        )) {
            return Err(Error::AlreadyExist { key: clone_bytes(key.0.as_slice()) });
        }
        Ok(())
    }
}

} // verus!
