//! Prewriting a change: the first phase of a commit, which leaves a lock on
//! the key, or the whole commit where one phase is enough.

use vstd::prelude::*;
use crate::storage::kv::engine::seek_write;
use crate::storage::kv::state::{ModifyView, State};
use crate::storage::mvcc::error::{ts_result_view, Error, ErrorView};
use crate::storage::mvcc::txn::{data_constraint, done, fail, MvccTxn, Outcome};
use crate::txn_types::bytes::clone_bytes;
use crate::txn_types::key::Key;
use crate::txn_types::lock::{Lock, LockType, LockView};
use crate::txn_types::mutation::{Mutation, MutationView};
use crate::txn_types::timestamp::TimeStamp;
use crate::txn_types::write::{Write, WriteType, WriteView, SHORT_VALUE_MAX_LEN};

verus! {

/// Whether the caller has named secondary keys: the sign of a transaction
/// that commits asynchronously.
pub open spec fn has_secondaries(secondary_keys: Option<Vec<Vec<u8>>>) -> bool {
    secondary_keys matches Some(keys) && keys@.len() > 0
}

/// The larger of two numbers.
pub open spec fn max2(a: int, b: int) -> int {
    if a >= b {
        a
    } else {
        b
    }
}

/// The lower bound of the commit timestamp of a transaction that commits
/// asynchronously.
pub open spec fn async_min_commit_ts(min_commit_ts: u64, max_ts: u64, for_update_ts: u64) -> int {
    max2(min_commit_ts as int, max2(max_ts + 1, for_update_ts + 1))
}

/// The commit timestamp of a transaction that commits in one phase.
pub open spec fn one_pc_commit_ts(for_update_ts: u64, min_commit_ts: u64, max_ts: u64) -> int {
    max2(for_update_ts as int, max2(min_commit_ts as int, max_ts + 1))
}

/// Whether a value is short enough to be kept inside a record.
pub open spec fn is_short_value(value: Seq<u8>) -> bool {
    value.len() <= SHORT_VALUE_MAX_LEN
}

/// The value that goes into the lock or the record, if it is short.
pub open spec fn inline_value(value: Option<Seq<u8>>) -> Option<Seq<u8>> {
    match value {
        Some(v) => if is_short_value(v) {
            Some(v)
        } else {
            None
        },
        None => None,
    }
}

/// The change that stores a long value apart, under the start timestamp.
pub open spec fn value_changes(key: Seq<u8>, start_ts: u64, value: Option<Seq<u8>>) -> Seq<ModifyView> {
    match value {
        Some(v) => if is_short_value(v) {
            Seq::empty()
        } else {
            seq![ModifyView::PutValue(key, start_ts, v)]
        },
        None => Seq::empty(),
    }
}

/// The kind of record that a lock of kind `lock_type` commits to.
pub open spec fn record_type(lock_type: LockType) -> WriteType {
    match lock_type {
        LockType::Put => WriteType::Put,
        LockType::Delete => WriteType::Delete,
        _ => WriteType::Lock,
    }
}

/// What writing the lock of a prewrite does, once nothing stands in its way.
///
/// A long value is stored apart, a short one rides in the lock. In one phase,
/// the record is written at once at `one_pc_commit_ts` and no lock is left.
/// With secondaries, the lock holds the bound `async_min_commit_ts`. The
/// result is the commit timestamp in one phase, else the lower bound that the
/// lock holds.
pub open spec fn prewrite_key_value_outcome(
    start_ts: u64,
    max_ts: u64,
    key: Seq<u8>,
    lock_type: LockType,
    primary: Seq<u8>,
    async_commit: bool,
    value: Option<Seq<u8>>,
    lock_ttl: u64,
    for_update_ts: u64,
    txn_size: u64,
    min_commit_ts: u64,
    try_one_pc: bool,
) -> Outcome<u64> {
    let stored = value_changes(key, start_ts, value);
    if try_one_pc {
        let commit_ts = one_pc_commit_ts(for_update_ts, min_commit_ts, max_ts) as u64;
        let write = WriteView {
            write_type: record_type(lock_type),
            start_ts,
            short_value: inline_value(value),
            has_overlapped_rollback: false,
        };
        Outcome { result: Ok(commit_ts), changes: stored + seq![ModifyView::PutWrite(key, commit_ts, write)] }
    } else {
        let bound = if async_commit {
            async_min_commit_ts(min_commit_ts, max_ts, for_update_ts) as u64
        } else {
            min_commit_ts
        };
        let lock = LockView {
            lock_type,
            primary,
            ts: start_ts,
            ttl: lock_ttl,
            short_value: inline_value(value),
            for_update_ts,
            txn_size,
            min_commit_ts: bound,
            use_async_commit: async_commit,
        };
        Outcome { result: Ok(bound), changes: stored + seq![ModifyView::PutLock(key, lock)] }
    }
}

/// The conflict that the newest record of `key` means for an optimistic
/// transaction that started at `start_ts`: a commit after its start, its own
/// rollback, or a key that exists where it should not.
pub open spec fn prewrite_conflict(
    s: State,
    start_ts: u64,
    key: Seq<u8>,
    primary: Seq<u8>,
    should_not_exist: bool,
) -> Option<ErrorView> {
    match seek_write(s, key, u64::MAX) {
        None => None,
        Some(c) => {
            let w = s.writes[(key, c)];
            if c > start_ts || (c == start_ts && (w.write_type == WriteType::Rollback
                || w.has_overlapped_rollback)) {
                Some(
                    ErrorView::WriteConflict {
                        start_ts,
                        conflict_start_ts: w.start_ts,
                        conflict_commit_ts: c,
                        key,
                        primary,
                    },
                )
            } else {
                match data_constraint(s, should_not_exist, w, c, key) {
                    Err(e) => Some(e),
                    Ok(_) => None,
                }
            }
        },
    }
}

/// What an optimistic prewrite does.
///
/// With secondaries or in one phase it needs the largest timestamp to be in
/// step with the cluster. A conflict with the newest record fails it. A lock
/// of another transaction fails it with `KeyIsLocked`, a pessimistic lock of
/// its own with `LockTypeNotMatch`; with its own prewrite lock in place
/// nothing is left to do. Else the lock (or the record) is written.
pub open spec fn prewrite_outcome(
    s: State,
    start_ts: u64,
    max_ts: u64,
    synced: bool,
    mutation: MutationView,
    primary: Seq<u8>,
    async_commit: bool,
    lock_ttl: u64,
    txn_size: u64,
    min_commit_ts: u64,
    try_one_pc: bool,
) -> Outcome<u64> {
    let key = mutation.key();
    let conflict = prewrite_conflict(s, start_ts, key, primary, mutation.should_not_exist());
    if (async_commit || try_one_pc) && !synced {
        fail(ErrorView::MaxTimestampNotSynced { start_ts })
    } else if conflict is Some {
        fail(conflict.unwrap())
    } else if s.locks.contains_key(key) {
        let lock = s.locks[key];
        if lock.ts != start_ts {
            fail(ErrorView::KeyIsLocked(lock.lock_info(key)))
        } else if lock.lock_type == LockType::Pessimistic {
            fail(ErrorView::LockTypeNotMatch { start_ts, key, pessimistic: true })
        } else {
            done(lock.min_commit_ts)
        }
    } else {
        prewrite_key_value_outcome(
            start_ts,
            max_ts,
            key,
            mutation.lock_type(),
            primary,
            async_commit,
            mutation.value(),
            lock_ttl,
            0,
            txn_size,
            min_commit_ts,
            try_one_pc,
        )
    }
}

/// What a pessimistic prewrite does.
///
/// Where the row was locked pessimistically, the lock on the key must be the
/// pessimistic lock of this transaction, else `PessimisticLockNotFound`; it is
/// overwritten by the prewrite lock, which keeps its `for_update_ts` and the
/// larger time to live and lower bound. A row that was not locked fails with
/// `KeyIsLocked` on another transaction's lock. With its own prewrite lock in
/// place nothing is left to do.
pub open spec fn pessimistic_prewrite_outcome(
    s: State,
    start_ts: u64,
    max_ts: u64,
    synced: bool,
    mutation: MutationView,
    primary: Seq<u8>,
    async_commit: bool,
    is_pessimistic_lock: bool,
    lock_ttl: u64,
    for_update_ts: u64,
    txn_size: u64,
    min_commit_ts: u64,
    try_one_pc: bool,
) -> Outcome<u64> {
    let key = mutation.key();
    if (async_commit || try_one_pc) && !synced {
        fail(ErrorView::MaxTimestampNotSynced { start_ts })
    } else if s.locks.contains_key(key) {
        let lock = s.locks[key];
        if lock.ts != start_ts {
            if is_pessimistic_lock {
                fail(ErrorView::PessimisticLockNotFound { start_ts, key })
            } else {
                fail(ErrorView::KeyIsLocked(lock.lock_info(key)))
            }
        } else if lock.lock_type != LockType::Pessimistic {
            done(lock.min_commit_ts)
        } else {
            prewrite_key_value_outcome(
                start_ts,
                max_ts,
                key,
                mutation.lock_type(),
                primary,
                async_commit,
                mutation.value(),
                max2(lock_ttl as int, lock.ttl as int) as u64,
                lock.for_update_ts,
                txn_size,
                max2(min_commit_ts as int, lock.min_commit_ts as int) as u64,
                try_one_pc,
            )
        }
    } else if is_pessimistic_lock {
        fail(ErrorView::PessimisticLockNotFound { start_ts, key })
    } else {
        prewrite_key_value_outcome(
            start_ts,
            max_ts,
            key,
            mutation.lock_type(),
            primary,
            async_commit,
            mutation.value(),
            lock_ttl,
            for_update_ts,
            txn_size,
            min_commit_ts,
            try_one_pc,
        )
    }
}

fn max_ts_of(a: u64, b: u64) -> (r: u64)
    ensures
        r == max2(a as int, b as int),
{
    if a >= b {
        a
    } else {
        b
    }
}

/// Writes the lock of a prewrite, or its record where one phase is enough.
/// The bound or the commit timestamp is reckoned from the largest timestamp
/// seen before the call; the manager of the transaction then notes
/// `for_update_ts` and `min_commit_ts`.
pub fn prewrite_key_value(
    txn: &mut MvccTxn,
    key: Key,
    lock_type: LockType,
    primary: &[u8],
    async_commit: bool,
    value: Option<Vec<u8>>,
    lock_ttl: u64,
    for_update_ts: TimeStamp,
    txn_size: u64,
    min_commit_ts: TimeStamp,
    try_one_pc: bool,
) -> (r: TimeStamp)
    requires
        async_commit || try_one_pc ==> old(txn).max_ts() < u64::MAX && for_update_ts@ < u64::MAX,
    ensures
        final(txn).has_noted_both(old(txn), for_update_ts@, min_commit_ts@),
        ({
            let o = prewrite_key_value_outcome(
                old(txn).start_ts@,
                old(txn).max_ts(),
                key@,
                lock_type,
                primary@,
                async_commit,
                crate::txn_types::bytes::opt_view(value),
                lock_ttl,
                for_update_ts@,
                txn_size,
                min_commit_ts@,
                try_one_pc,
            );
            o.result == Ok::<u64, ErrorView>(r@) && final(txn).extends(old(txn), o.changes)
        }),
{
    let max_ts = txn.concurrency_manager.max_ts();
    txn.note_ts(for_update_ts);
    txn.note_ts(min_commit_ts);
    write_lock_or_record(
        txn,
        max_ts,
        key,
        lock_type,
        primary,
        async_commit,
        value,
        lock_ttl,
        for_update_ts,
        txn_size,
        min_commit_ts,
        try_one_pc,
    )
}

/// Writes the lock of a prewrite, or its record where one phase is enough,
/// with `max_ts` the largest timestamp seen before the prewrite came in.
fn write_lock_or_record(
    txn: &mut MvccTxn,
    max_ts: TimeStamp,
    key: Key,
    lock_type: LockType,
    primary: &[u8],
    async_commit: bool,
    value: Option<Vec<u8>>,
    lock_ttl: u64,
    for_update_ts: TimeStamp,
    txn_size: u64,
    min_commit_ts: TimeStamp,
    try_one_pc: bool,
) -> (r: TimeStamp)
    requires
        async_commit || try_one_pc ==> max_ts@ < u64::MAX && for_update_ts@ < u64::MAX,
    ensures
        final(txn).same_clock(old(txn)),
        ({
            let o = prewrite_key_value_outcome(
                old(txn).start_ts@,
                max_ts@,
                key@,
                lock_type,
                primary@,
                async_commit,
                crate::txn_types::bytes::opt_view(value),
                lock_ttl,
                for_update_ts@,
                txn_size,
                min_commit_ts@,
                try_one_pc,
            );
            o.result == Ok::<u64, ErrorView>(r@) && final(txn).extends(old(txn), o.changes)
        }),
{
    let ghost before = txn.changes();
    let ghost stored = value_changes(key@, txn.start_ts@, crate::txn_types::bytes::opt_view(value));
    let mut short_value: Option<Vec<u8>> = None;
    assert(before + Seq::<ModifyView>::empty() =~= before);
    if let Some(v) = value {
        if v.len() <= SHORT_VALUE_MAX_LEN {
            // A short value rides in the lock.
            short_value = Some(v);
        } else {
            txn.put_value(key.duplicate(), txn.start_ts, v);
        }
    }
    let ghost mid = txn.changes();
    assert(mid == before + stored);
    if try_one_pc {
        let commit_ts = TimeStamp(
            max_ts_of(for_update_ts.0, max_ts_of(min_commit_ts.0, max_ts.0 + 1)),
        );
        let write_type = match lock_type {
            LockType::Put => WriteType::Put,
            LockType::Delete => WriteType::Delete,
            _ => WriteType::Lock,
        };
        let write = Write::new(write_type, txn.start_ts, short_value);
        let ghost step = seq![ModifyView::PutWrite(key@, commit_ts@, write@)];
        txn.put_write(key, commit_ts, write);
        assert(mid + step =~= before + (stored + step));
        commit_ts
    } else {
        let bound = if async_commit {
            TimeStamp(
                max_ts_of(min_commit_ts.0, max_ts_of(max_ts.0 + 1, for_update_ts.0 + 1)),
            )
        } else {
            min_commit_ts
        };
        let mut lock = Lock::new(
            lock_type,
            clone_bytes(primary),
            txn.start_ts,
            lock_ttl,
            short_value,
            for_update_ts,
            txn_size,
            bound,
        );
        lock.use_async_commit = async_commit;
        let ghost step = seq![ModifyView::PutLock(key@, lock@)];
        txn.put_lock(key, &lock);
        assert(mid + step =~= before + (stored + step));
        bound
    }
}

/// Prewrites `mutation` for an optimistic transaction. Secondary keys are
/// named by a transaction that commits asynchronously. The manager of the
/// transaction notes `min_commit_ts`.
pub fn prewrite(
    txn: &mut MvccTxn,
    mutation: Mutation,
    primary: &[u8],
    secondary_keys: &Option<Vec<Vec<u8>>>,
    lock_ttl: u64,
    txn_size: u64,
    min_commit_ts: TimeStamp,
    try_one_pc: bool,
) -> (r: Result<TimeStamp, Error>)
    requires
        has_secondaries(*secondary_keys) || try_one_pc ==> old(txn).max_ts() < u64::MAX,
    ensures
        final(txn).has_noted(old(txn), min_commit_ts@),
        ({
            let o = prewrite_outcome(
                old(txn).state(),
                old(txn).start_ts@,
                old(txn).max_ts(),
                old(txn).concurrency_manager.spec_synced(),
                mutation@,
                primary@,
                has_secondaries(*secondary_keys),
                lock_ttl,
                txn_size,
                min_commit_ts@,
                try_one_pc,
            );
            ts_result_view(r) == o.result && final(txn).extends(old(txn), o.changes)
        }),
{
    let max_ts = txn.concurrency_manager.max_ts();
    txn.note_ts(min_commit_ts);
    let ghost before = txn.changes();
    assert(before + Seq::<ModifyView>::empty() =~= before);
    let async_commit = match secondary_keys {
        Some(keys) => keys.len() > 0,
        None => false,
    };
    let lock_type = mutation.lock_type();
    let should_not_exist = mutation.should_not_exists();
    let (key, value) = mutation.into_key_value();
    if (async_commit || try_one_pc) && !txn.concurrency_manager.is_max_ts_synced() {
        return Err(Error::MaxTimestampNotSynced { start_ts: txn.start_ts });
    }
    // Is there a newer version?
    if let Some((commit_ts, write)) = txn.reader.seek_write(&key, TimeStamp::max()) {
        // A commit after the start of this transaction, or word of its own
        // rollback at its start, ends the prewrite.
        if commit_ts.0 > txn.start_ts.0 || (commit_ts.0 == txn.start_ts.0 && (write.write_type
            == WriteType::Rollback || write.has_overlapped_rollback)) {
            return Err(
                Error::WriteConflict {
                    start_ts: txn.start_ts,
                    conflict_start_ts: write.start_ts,
                    conflict_commit_ts: commit_ts,
                    key: key.into_raw(),
                    primary: clone_bytes(primary),
                },
            );
        }
        match txn.check_data_constraint(should_not_exist, &write, commit_ts, &key) {
            Ok(_) => {},
            Err(e) => {
                return Err(e);
            },
        }
    }
    // Is the key locked?
    if let Some(lock) = txn.reader.load_lock(&key) {
        if lock.ts.0 != txn.start_ts.0 {
            return Err(Error::KeyIsLocked(lock.into_lock_info(key.into_raw())));
        }
        if lock.lock_type == LockType::Pessimistic {
            return Err(
                Error::LockTypeNotMatch { start_ts: txn.start_ts, key: key.into_raw(), pessimistic: true },
            );
        }
        // The same prewrite again: the lock and the data are in place.
        return Ok(lock.min_commit_ts);
    }
    Ok(
        write_lock_or_record(
            txn,
            max_ts,
            key,
            lock_type,
            primary,
            async_commit,
            value,
            lock_ttl,
            TimeStamp::zero(),
            txn_size,
            min_commit_ts,
            try_one_pc,
        ),
    )
}

/// Prewrites `mutation` for a pessimistic transaction. `is_pessimistic_lock`
/// says whether the row was locked pessimistically before. The manager of the
/// transaction notes `for_update_ts` and `min_commit_ts`.
pub fn pessimistic_prewrite(
    txn: &mut MvccTxn,
    mutation: Mutation,
    primary: &[u8],
    secondary_keys: &Option<Vec<Vec<u8>>>,
    is_pessimistic_lock: bool,
    lock_ttl: u64,
    for_update_ts: TimeStamp,
    txn_size: u64,
    min_commit_ts: TimeStamp,
    try_one_pc: bool,
) -> (r: Result<TimeStamp, Error>)
    requires
        has_secondaries(*secondary_keys) || try_one_pc ==> old(txn).max_ts() < u64::MAX
            && for_update_ts@ < u64::MAX && (old(txn).state().locks.contains_key(
            mutation@.key(),
        ) ==> old(txn).state().locks[mutation@.key()].for_update_ts < u64::MAX),
    ensures
        final(txn).has_noted_both(old(txn), for_update_ts@, min_commit_ts@),
        ({
            let o = pessimistic_prewrite_outcome(
                old(txn).state(),
                old(txn).start_ts@,
                old(txn).max_ts(),
                old(txn).concurrency_manager.spec_synced(),
                mutation@,
                primary@,
                has_secondaries(*secondary_keys),
                is_pessimistic_lock,
                lock_ttl,
                for_update_ts@,
                txn_size,
                min_commit_ts@,
                try_one_pc,
            );
            ts_result_view(r) == o.result && final(txn).extends(old(txn), o.changes)
        }),
{
    let max_ts = txn.concurrency_manager.max_ts();
    txn.note_ts(for_update_ts);
    txn.note_ts(min_commit_ts);
    let ghost before = txn.changes();
    assert(before + Seq::<ModifyView>::empty() =~= before);
    let async_commit = match secondary_keys {
        Some(keys) => keys.len() > 0,
        None => false,
    };
    let lock_type = mutation.lock_type();
    let (key, value) = mutation.into_key_value();
    let mut lock_ttl = lock_ttl;
    let mut min_commit_ts = min_commit_ts;
    let mut for_update_ts = for_update_ts;
    if (async_commit || try_one_pc) && !txn.concurrency_manager.is_max_ts_synced() {
        return Err(Error::MaxTimestampNotSynced { start_ts: txn.start_ts });
    }
    if let Some(lock) = txn.reader.load_lock(&key) {
        if lock.ts.0 != txn.start_ts.0 {
            // A row that was locked pessimistically has lost its lock.
            if is_pessimistic_lock {
                return Err(
                    Error::PessimisticLockNotFound { start_ts: txn.start_ts, key: key.into_raw() },
                );
            }
            return Err(Error::KeyIsLocked(lock.into_lock_info(key.into_raw())));
        }
        if lock.lock_type != LockType::Pessimistic {
            // The same prewrite again: the lock and the data are in place.
            return Ok(lock.min_commit_ts);
        }
        // The pessimistic lock of this transaction is overwritten; its time
        // to live and its lower bound may have been pushed.
        lock_ttl = max_ts_of(lock_ttl, lock.ttl);
        min_commit_ts = TimeStamp(max_ts_of(min_commit_ts.0, lock.min_commit_ts.0));
        for_update_ts = lock.for_update_ts;
    } else if is_pessimistic_lock {
        return Err(Error::PessimisticLockNotFound { start_ts: txn.start_ts, key: key.into_raw() });
    }
    // The pessimistic lock has settled the constraint on the data.
    Ok(
        write_lock_or_record(
            txn,
            max_ts,
            key,
            lock_type,
            primary,
            async_commit,
            value,
            lock_ttl,
            for_update_ts,
            txn_size,
            min_commit_ts,
            try_one_pc,
        ),
    )
}

} // verus!
