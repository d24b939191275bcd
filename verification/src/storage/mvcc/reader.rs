//! Reads over a snapshot of the store: the lock on a key, the versions of a
//! key, the value that a reader at a timestamp sees.

use vstd::prelude::*;
use crate::storage::kv::engine::{lemma_seek_write_some, seek_write, Engine};
use crate::storage::kv::state::State;
use crate::storage::mvcc::error::{value_result_view, Error, ErrorView};
use crate::txn_types::bytes::clone_bytes;
use crate::txn_types::key::Key;
use crate::txn_types::lock::{Lock, LockInfoView, LockType, LockView};
use crate::txn_types::timestamp::TimeStamp;
use crate::txn_types::write::{Write, WriteType, WriteView};

verus! {

/// The commit timestamp of the `Put` record whose value a reader of `key` at
/// `ts` sees: the newest record that is not newer than `ts`, `Lock` and
/// `Rollback` records passed over. None where that record is a `Delete` or no
/// record is left.
pub open spec fn visible_put(s: State, key: Seq<u8>, ts: u64) -> Option<u64>
    decreases ts,
{
    match seek_write(s, key, ts) {
        None => None,
        Some(c) => match s.writes[(key, c)].write_type {
            WriteType::Put => Some(c),
            WriteType::Delete => None,
            _ => if c == 0 || c > ts {
                None
            } else {
                visible_put(s, key, (c - 1) as u64)
            },
        },
    }
}

/// The value that the `Put` record `w` of `key` stands for: the one it holds,
/// else the one stored under the start timestamp of its transaction.
pub open spec fn load_data(s: State, key: Seq<u8>, w: WriteView) -> Result<Seq<u8>, ErrorView> {
    match w.short_value {
        Some(v) => Ok(v),
        None => if s.values.contains_key((key, w.start_ts)) {
            Ok(s.values[(key, w.start_ts)])
        } else {
            Err(ErrorView::DefaultNotFound { key, start_ts: w.start_ts })
        },
    }
}

/// The value of `key` for a reader at `ts` who ignores locks.
pub open spec fn read_value(s: State, key: Seq<u8>, ts: u64) -> Result<Option<Seq<u8>>, ErrorView> {
    match visible_put(s, key, ts) {
        None => Ok(None),
        Some(c) => match load_data(s, key, s.writes[(key, c)]) {
            Ok(v) => Ok(Some(v)),
            Err(e) => Err(e),
        },
    }
}

/// Stores with the same write records and values show a reader the same.
pub proof fn lemma_reads_same(s: State, t: State, key: Seq<u8>, ts: u64)
    requires
        s.writes == t.writes,
        s.values == t.values,
    ensures
        visible_put(s, key, ts) == visible_put(t, key, ts),
        read_value(s, key, ts) == read_value(t, key, ts),
    decreases ts,
{
    assert(forall|c: u64|
        crate::storage::kv::engine::is_newest_at(s, key, ts, c)
            == crate::storage::kv::engine::is_newest_at(t, key, ts, c));
    assert(seek_write(s, key, ts) == seek_write(t, key, ts));
    match seek_write(s, key, ts) {
        Some(c) => {
            if c != 0 && c <= ts {
                lemma_reads_same(s, t, key, (c - 1) as u64);
            }
        },
        None => {},
    }
}

/// Whether `lock` on `key` stands in the way of a reader at `ts`.
pub open spec fn lock_blocks(lock: LockView, key: Seq<u8>, ts: u64) -> bool {
    &&& lock.ts <= ts
    &&& lock.lock_type != LockType::Lock
    &&& lock.lock_type != LockType::Pessimistic
    &&& lock.min_commit_ts <= ts
    &&& !(ts == u64::MAX && key == lock.primary && !lock.use_async_commit)
}

/// The lock that stands in the way of a reader of `key` at `ts`, if any.
pub open spec fn blocking_lock(s: State, key: Seq<u8>, ts: u64) -> Option<LockInfoView> {
    if s.locks.contains_key(key) && lock_blocks(s.locks[key], key, ts) {
        Some(s.locks[key].lock_info(key))
    } else {
        None
    }
}

/// The value of `key` for a reader at `ts`, who fails on a lock in the way
/// unless `skip_lock_check` is set.
pub open spec fn get_value(s: State, key: Seq<u8>, ts: u64, skip_lock_check: bool) -> Result<
    Option<Seq<u8>>,
    ErrorView,
> {
    if !skip_lock_check && blocking_lock(s, key, ts) is Some {
        Err(ErrorView::KeyIsLocked(blocking_lock(s, key, ts).unwrap()))
    } else {
        read_value(s, key, ts)
    }
}

/// What the write column family says of the transaction that started at
/// `start_ts`.
pub enum TxnCommitRecordView {
    /// The record that the transaction left: its commit or its rollback.
    SingleRecord { commit_ts: u64, write: WriteView },
    /// Another transaction's commit at `start_ts` carries the rollback.
    OverlappedRollback { commit_ts: u64 },
    /// No trace; `overlapped_write` is another transaction's commit at
    /// `start_ts`, if there is one.
    Absent { overlapped_write: Option<WriteView> },
}

/// The search for the record of the transaction that started at `start_ts`,
/// among the versions of `key` from `seek_ts` down to `start_ts`.
pub open spec fn commit_record_from(s: State, key: Seq<u8>, start_ts: u64, seek_ts: u64) -> TxnCommitRecordView
    decreases seek_ts,
{
    match seek_write(s, key, seek_ts) {
        None => TxnCommitRecordView::Absent { overlapped_write: None },
        Some(c) => {
            let w = s.writes[(key, c)];
            if w.start_ts == start_ts {
                TxnCommitRecordView::SingleRecord { commit_ts: c, write: w }
            } else if c == start_ts {
                if w.has_overlapped_rollback {
                    TxnCommitRecordView::OverlappedRollback { commit_ts: c }
                } else {
                    TxnCommitRecordView::Absent { overlapped_write: Some(w) }
                }
            } else if c < start_ts || c == 0 || c > seek_ts {
                TxnCommitRecordView::Absent { overlapped_write: None }
            } else {
                commit_record_from(s, key, start_ts, (c - 1) as u64)
            }
        },
    }
}

/// What the write column family says of the transaction that started at
/// `start_ts`, for `key`.
pub open spec fn txn_commit_record(s: State, key: Seq<u8>, start_ts: u64) -> TxnCommitRecordView {
    commit_record_from(s, key, start_ts, u64::MAX)
}

/// A version of `key` at or below `ts` makes `seek_write` name one that is
/// at least as new.
pub proof fn lemma_seek_write_at_least(s: State, key: Seq<u8>, ts: u64, c: u64)
    requires
        s.writes.contains_key((key, c)),
        c <= ts,
    ensures
        seek_write(s, key, ts) is Some,
        c <= seek_write(s, key, ts).unwrap() <= ts,
        s.writes.contains_key((key, seek_write(s, key, ts).unwrap())),
{
    assert(crate::storage::kv::engine::has_version_at(s, key, ts));
    crate::storage::kv::engine::lemma_seek_write_exists(s, key, ts);
    lemma_seek_write_some(s, key, ts);
}

/// The search finds the record that the transaction left at `commit_ts`,
/// where no other record of `key` is of that transaction.
pub proof fn lemma_commit_record_found(s: State, key: Seq<u8>, start_ts: u64, commit_ts: u64, seek_ts: u64)
    requires
        s.writes.contains_key((key, commit_ts)),
        s.writes[(key, commit_ts)].start_ts == start_ts,
        start_ts <= commit_ts <= seek_ts,
        forall|c: u64|
            c != commit_ts && #[trigger] s.writes.contains_key((key, c)) ==> s.writes[(key, c)].start_ts
                != start_ts,
    ensures
        commit_record_from(s, key, start_ts, seek_ts) == (TxnCommitRecordView::SingleRecord {
            commit_ts,
            write: s.writes[(key, commit_ts)],
        }),
    decreases seek_ts,
{
    lemma_seek_write_at_least(s, key, seek_ts, commit_ts);
    let c = seek_write(s, key, seek_ts).unwrap();
    if c != commit_ts {
        lemma_commit_record_found(s, key, start_ts, commit_ts, (c - 1) as u64);
    }
}

/// Where the search in `s` finds no trace of the transaction, and `t` holds
/// the same records of `key` above `start_ts` and one at `start_ts`, the
/// search in `t` ends at that record.
pub proof fn lemma_commit_record_at_start(s: State, t: State, key: Seq<u8>, start_ts: u64, seek_ts: u64)
    requires
        commit_record_from(s, key, start_ts, seek_ts) is Absent,
        start_ts <= seek_ts,
        t.writes.contains_key((key, start_ts)),
        forall|c: u64|
            c > start_ts ==> (#[trigger] t.writes.contains_key((key, c)) == s.writes.contains_key((key, c))),
        forall|c: u64|
            c > start_ts && #[trigger] t.writes.contains_key((key, c)) ==> t.writes[(key, c)]
                == s.writes[(key, c)],
    ensures
        commit_record_from(t, key, start_ts, seek_ts) == ({
            let w = t.writes[(key, start_ts)];
            if w.start_ts == start_ts {
                TxnCommitRecordView::SingleRecord { commit_ts: start_ts, write: w }
            } else if w.has_overlapped_rollback {
                TxnCommitRecordView::OverlappedRollback { commit_ts: start_ts }
            } else {
                TxnCommitRecordView::Absent { overlapped_write: Some(w) }
            }
        }),
    decreases seek_ts,
{
    lemma_seek_write_at_least(t, key, seek_ts, start_ts);
    let c = seek_write(t, key, seek_ts).unwrap();
    if c != start_ts {
        assert(s.writes.contains_key((key, c)));
        assert(crate::storage::kv::engine::is_newest_at(t, key, seek_ts, c));
        assert(crate::storage::kv::engine::is_newest_at(s, key, seek_ts, c)) by {
            assert forall|c2: u64| #[trigger] s.writes.contains_key((key, c2)) && c2 <= seek_ts implies c2
                <= c by {
                if c2 > start_ts {
                    assert(t.writes.contains_key((key, c2)));
                }
            }
        }
        crate::storage::kv::engine::lemma_seek_write_is(s, key, seek_ts, c);
        lemma_commit_record_at_start(s, t, key, start_ts, (c - 1) as u64);
    }
}

/// Stores with the same write records say the same of a transaction.
pub proof fn lemma_commit_record_same(s: State, t: State, key: Seq<u8>, start_ts: u64, seek_ts: u64)
    requires
        s.writes == t.writes,
    ensures
        commit_record_from(s, key, start_ts, seek_ts) == commit_record_from(t, key, start_ts, seek_ts),
    decreases seek_ts,
{
    assert(forall|c: u64|
        crate::storage::kv::engine::is_newest_at(s, key, seek_ts, c)
            == crate::storage::kv::engine::is_newest_at(t, key, seek_ts, c));
    assert(seek_write(s, key, seek_ts) == seek_write(t, key, seek_ts));
    match seek_write(s, key, seek_ts) {
        Some(c) => {
            if c != 0 && c <= seek_ts {
                lemma_commit_record_same(s, t, key, start_ts, (c - 1) as u64);
            }
        },
        None => {},
    }
}

/// Where the search finds no trace of the transaction, the record that it
/// names is the one at `start_ts`, which is of another transaction and does
/// not carry a rollback; it names none only where there is none.
pub proof fn lemma_commit_record_absent(s: State, key: Seq<u8>, start_ts: u64, seek_ts: u64)
    requires
        commit_record_from(s, key, start_ts, seek_ts) is Absent,
        start_ts <= seek_ts,
    ensures
        ({
            let found = commit_record_from(s, key, start_ts, seek_ts)->overlapped_write;
            if s.writes.contains_key((key, start_ts)) {
                let w = s.writes[(key, start_ts)];
                found == Some(w) && w.start_ts != start_ts && !w.has_overlapped_rollback
            } else {
                found is None
            }
        }),
    decreases seek_ts,
{
    if s.writes.contains_key((key, start_ts)) {
        lemma_commit_record_at_start(s, s, key, start_ts, seek_ts);
    } else {
        match seek_write(s, key, seek_ts) {
            Some(c) => {
                lemma_seek_write_some(s, key, seek_ts);
                if c > start_ts && s.writes[(key, c)].start_ts != start_ts {
                    lemma_commit_record_absent(s, key, start_ts, (c - 1) as u64);
                }
            },
            None => {},
        }
    }
}

/// What the write column family says of a transaction.
#[derive(Debug)]
pub enum TxnCommitRecord {
    SingleRecord { commit_ts: TimeStamp, write: Write },
    OverlappedRollback { commit_ts: TimeStamp },
    Absent { overlapped_write: Option<Write> },
}

impl View for TxnCommitRecord {
    type V = TxnCommitRecordView;

    open spec fn view(&self) -> TxnCommitRecordView {
        match self {
            TxnCommitRecord::SingleRecord { commit_ts, write } => TxnCommitRecordView::SingleRecord {
                commit_ts: commit_ts@,
                write: write@,
            },
            TxnCommitRecord::OverlappedRollback { commit_ts } => TxnCommitRecordView::OverlappedRollback {
                commit_ts: commit_ts@,
            },
            TxnCommitRecord::Absent { overlapped_write } => TxnCommitRecordView::Absent {
                overlapped_write: match overlapped_write {
                    Some(w) => Some(w@),
                    None => None,
                },
            },
        }
    }
}

/// A reader over a snapshot of the store.
pub struct MvccReader<'a> {
    pub snapshot: &'a Engine,
}

impl<'a> MvccReader<'a> {
    /// The store that this reader reads.
    pub open spec fn state(&self) -> State {
        self.snapshot@
    }

    pub fn new(snapshot: &'a Engine) -> (r: MvccReader<'a>)
        ensures
            r.state() == snapshot@,
    {
        MvccReader { snapshot }
    }

    /// The lock on `key`, if there is one.
    pub fn load_lock(&self, key: &Key) -> (r: Option<Lock>)
        ensures
            r is Some <==> self.state().locks.contains_key(key@),
            r matches Some(lock) ==> lock@ == self.state().locks[key@],
    {
        match self.snapshot.load_lock(key.0.as_slice()) {
            Some(lock) => Some(lock.duplicate()),
            None => None,
        }
    }

    /// The newest write record of `key` whose commit timestamp is not after
    /// `ts`, with that timestamp.
    pub fn seek_write(&self, key: &Key, ts: TimeStamp) -> (r: Option<(TimeStamp, Write)>)
        ensures
            r is Some <==> seek_write(self.state(), key@, ts@) is Some,
            r matches Some((commit_ts, write)) ==> seek_write(self.state(), key@, ts@) == Some(
                commit_ts@,
            ) && write@ == self.state().writes[(key@, commit_ts@)] && commit_ts@ <= ts@,
    {
        match self.snapshot.seek_write(key.0.as_slice(), ts) {
            Some((commit_ts, write)) => {
                proof {
                    lemma_seek_write_some(self.state(), key@, ts@);
                }
                Some((commit_ts, write.duplicate()))
            },
            None => None,
        }
    }

    /// The `Put` record whose value a reader of `key` at `ts` sees, with its
    /// commit timestamp.
    pub fn get_write(&self, key: &Key, ts: TimeStamp) -> (r: Option<(TimeStamp, Write)>)
        ensures
            r is Some <==> visible_put(self.state(), key@, ts@) is Some,
            r matches Some((commit_ts, write)) ==> visible_put(self.state(), key@, ts@) == Some(
                commit_ts@,
            ) && write@ == self.state().writes[(key@, commit_ts@)],
    {
        let mut seek_ts = ts;
        loop
            invariant
                visible_put(self.state(), key@, ts@) == visible_put(self.state(), key@, seek_ts@),
            decreases seek_ts@,
        {
            match self.seek_write(key, seek_ts) {
                None => {
                    return None;
                },
                Some((commit_ts, write)) => {
                    match write.write_type {
                        WriteType::Put => {
                            return Some((commit_ts, write));
                        },
                        WriteType::Delete => {
                            return None;
                        },
                        _ => {
                            if commit_ts.0 == 0 {
                                return None;
                            }
                            seek_ts = commit_ts.prev();
                        },
                    }
                },
            }
        }
    }

    /// The value that the `Put` record `write` of `key` stands for.
    pub fn load_data(&self, key: &Key, write: Write) -> (r: Result<Vec<u8>, Error>)
        ensures
            match r {
                Ok(v) => load_data(self.state(), key@, write@) == Ok::<Seq<u8>, ErrorView>(v@),
                Err(e) => load_data(self.state(), key@, write@) == Err::<Seq<u8>, ErrorView>(e@),
            },
    {
        match write.short_value {
            Some(v) => Ok(v),
            None => match self.snapshot.get_value(key.0.as_slice(), write.start_ts) {
                Some(v) => Ok(clone_bytes(v.as_slice())),
                None => Err(
                    Error::DefaultNotFound {
                        key: clone_bytes(key.0.as_slice()),
                        start_ts: write.start_ts,
                    },
                ),
            },
        }
    }

    /// The value of `key` for a reader at `ts`. A lock in the way fails the
    /// read unless `skip_lock_check` is set.
    pub fn get(&self, key: &Key, ts: TimeStamp, skip_lock_check: bool) -> (r: Result<
        Option<Vec<u8>>,
        Error,
    >)
        ensures
            value_result_view(r) == get_value(self.state(), key@, ts@, skip_lock_check),
    {
        if !skip_lock_check {
            if let Some(lock) = self.load_lock(key) {
                let ignored = lock.ts.0 > ts.0 || lock.lock_type == LockType::Lock || lock.lock_type
                    == LockType::Pessimistic || lock.min_commit_ts.0 > ts.0 || (ts.is_max()
                    && !lock.use_async_commit && crate::txn_types::order::bytes_equal(
                    key.0.as_slice(),
                    lock.primary.as_slice(),
                ));
                if !ignored {
                    return Err(Error::KeyIsLocked(lock.into_lock_info(clone_bytes(key.0.as_slice()))));
                }
            }
        }
        match self.get_write(key, ts) {
            None => Ok(None),
            Some((_, write)) => match self.load_data(key, write) {
                Ok(v) => Ok(Some(v)),
                Err(e) => Err(e),
            },
        }
    }

    /// What the write column family says of the transaction that started at
    /// `start_ts`, for `key`.
    pub fn get_txn_commit_record(&self, key: &Key, start_ts: TimeStamp) -> (r: TxnCommitRecord)
        ensures
            r@ == txn_commit_record(self.state(), key@, start_ts@),
    {
        let mut seek_ts = TimeStamp::max();
        loop
            invariant
                txn_commit_record(self.state(), key@, start_ts@) == commit_record_from(
                    self.state(),
                    key@,
                    start_ts@,
                    seek_ts@,
                ),
            decreases seek_ts@,
        {
            match self.seek_write(key, seek_ts) {
                None => {
                    return TxnCommitRecord::Absent { overlapped_write: None };
                },
                Some((commit_ts, write)) => {
                    if write.start_ts.0 == start_ts.0 {
                        return TxnCommitRecord::SingleRecord { commit_ts, write };
                    }
                    if commit_ts.0 == start_ts.0 {
                        if write.has_overlapped_rollback {
                            return TxnCommitRecord::OverlappedRollback { commit_ts };
                        }
                        return TxnCommitRecord::Absent { overlapped_write: Some(write) };
                    }
                    if commit_ts.0 < start_ts.0 || commit_ts.0 == 0 {
                        return TxnCommitRecord::Absent { overlapped_write: None };
                    }
                    seek_ts = commit_ts.prev();
                },
            }
        }
    }
}

} // verus!
