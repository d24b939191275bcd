//! Taking a pessimistic lock on a key.

use vstd::prelude::*;
use crate::concurrency_manager::ConcurrencyManager;
use crate::storage::kv::engine::{batch_view, lemma_seek_write_lower, seek_write, Engine};
use crate::storage::mvcc::reader::MvccReader;
use crate::storage::kv::state::{ModifyView, State};
use crate::storage::mvcc::error::{value_result_view, Error, ErrorView};
use crate::storage::mvcc::reader::{lemma_reads_same, load_data, read_value};
use crate::storage::mvcc::txn::{data_constraint, fail, MvccTxn, Outcome};
use crate::txn_types::bytes::clone_bytes;
use crate::txn_types::key::Key;
use crate::txn_types::lock::{Lock, LockType, LockView};
use crate::txn_types::timestamp::TimeStamp;
use crate::txn_types::write::WriteType;

verus! {

/// Whether the write column family shows, below a newer commit, that the
/// transaction that started at `start_ts` was rolled back on `key`.
pub open spec fn rolled_back_below(s: State, key: Seq<u8>, start_ts: u64) -> bool {
    seek_write(s, key, start_ts) matches Some(c) && s.writes[(key, c)].start_ts == start_ts
}

/// What taking a pessimistic lock does.
///
/// A lock of another transaction fails it, and so does a lock of this one that
/// is not pessimistic. A pessimistic lock of this transaction is written anew
/// only where `for_update_ts` is larger than the one it holds. Without a lock,
/// the newest record of the key decides: a commit after `for_update_ts` is a
/// conflict, a rollback of this transaction ends it, and a key that exists
/// where it should not is refused; else the lock is written. The value
/// returned, where one is asked for, is the one that a reader at
/// `for_update_ts` sees.
pub open spec fn acquire_pessimistic_lock_outcome(
    s: State,
    start_ts: u64,
    key: Seq<u8>,
    primary: Seq<u8>,
    should_not_exist: bool,
    lock_ttl: u64,
    for_update_ts: u64,
    need_value: bool,
    min_commit_ts: u64,
) -> Outcome<Option<Seq<u8>>> {
    let new_lock = LockView::pessimistic(primary, start_ts, lock_ttl, for_update_ts, min_commit_ts);
    let put = seq![ModifyView::PutLock(key, new_lock)];
    let value = if need_value {
        read_value(s, key, for_update_ts)
    } else {
        Ok(None)
    };
    if s.locks.contains_key(key) {
        let lock = s.locks[key];
        if lock.ts != start_ts {
            fail(ErrorView::KeyIsLocked(lock.lock_info(key)))
        } else if lock.lock_type != LockType::Pessimistic {
            fail(ErrorView::LockTypeNotMatch { start_ts, key, pessimistic: false })
        } else if value is Err {
            fail(value->Err_0)
        } else {
            Outcome {
                result: value,
                changes: if for_update_ts > lock.for_update_ts {
                    put
                } else {
                    Seq::empty()
                },
            }
        }
    } else {
        match seek_write(s, key, u64::MAX) {
            None => Outcome { result: Ok(None), changes: put },
            Some(c) => {
                let w = s.writes[(key, c)];
                if c > for_update_ts {
                    fail(
                        ErrorView::WriteConflict {
                            start_ts,
                            conflict_start_ts: w.start_ts,
                            conflict_commit_ts: c,
                            key,
                            primary,
                        },
                    )
                } else if c == start_ts && (w.write_type == WriteType::Rollback
                    || w.has_overlapped_rollback) {
                    fail(ErrorView::PessimisticLockRolledBack { start_ts, key })
                } else if c > start_ts && rolled_back_below(s, key, start_ts) {
                    fail(ErrorView::PessimisticLockRolledBack { start_ts, key })
                } else if data_constraint(s, should_not_exist, w, c, key) is Err {
                    fail(data_constraint(s, should_not_exist, w, c, key)->Err_0)
                } else if value is Err {
                    fail(value->Err_0)
                } else {
                    Outcome { result: value, changes: put }
                }
            },
        }
    }
}

/// Taking a pessimistic lock again with the same parameters succeeds like the
/// first time, returns the same value and leaves the store as the first left
/// it.
pub proof fn lemma_acquire_pessimistic_lock_idempotent(
    s: State,
    start_ts: u64,
    key: Seq<u8>,
    primary: Seq<u8>,
    should_not_exist: bool,
    lock_ttl: u64,
    for_update_ts: u64,
    need_value: bool,
    min_commit_ts: u64,
)
    requires
        acquire_pessimistic_lock_outcome(
            s,
            start_ts,
            key,
            primary,
            should_not_exist,
            lock_ttl,
            for_update_ts,
            need_value,
            min_commit_ts,
        ).result is Ok,
    ensures
        ({
            let first = acquire_pessimistic_lock_outcome(
                s,
                start_ts,
                key,
                primary,
                should_not_exist,
                lock_ttl,
                for_update_ts,
                need_value,
                min_commit_ts,
            );
            let after = s.apply_all(first.changes);
            let second = acquire_pessimistic_lock_outcome(
                after,
                start_ts,
                key,
                primary,
                should_not_exist,
                lock_ttl,
                for_update_ts,
                need_value,
                min_commit_ts,
            );
            second.result == first.result && after.apply_all(second.changes) == after
        }),
{
    let first = acquire_pessimistic_lock_outcome(
        s,
        start_ts,
        key,
        primary,
        should_not_exist,
        lock_ttl,
        for_update_ts,
        need_value,
        min_commit_ts,
    );
    let new_lock = LockView::pessimistic(primary, start_ts, lock_ttl, for_update_ts, min_commit_ts);
    let put = ModifyView::PutLock(key, new_lock);
    let after = s.apply_all(first.changes);
    crate::storage::kv::state::lemma_apply_one(s, put);
    assert(first.changes == seq![put] || first.changes == Seq::<ModifyView>::empty());
    assert(after.writes == s.writes && after.values == s.values);
    lemma_reads_same(s, after, key, for_update_ts);
    assert(after.locks.contains_key(key));
    assert(after.locks[key].ts == start_ts);
    assert(after.locks[key].lock_type == LockType::Pessimistic);
    assert(after.locks[key].for_update_ts >= for_update_ts);
    if !s.locks.contains_key(key) {
        if need_value {
            match seek_write(s, key, u64::MAX) {
                None => {
                    if crate::storage::kv::engine::has_version_at(s, key, for_update_ts) {
                        let c = choose|c: u64| #[trigger]
                            s.writes.contains_key((key, c)) && c <= for_update_ts;
                        assert(crate::storage::kv::engine::has_version_at(s, key, u64::MAX));
                        crate::storage::kv::engine::lemma_seek_write_exists(s, key, u64::MAX);
                    }
                    crate::storage::kv::engine::lemma_seek_write_none(s, key, for_update_ts);
                },
                Some(_) => {},
            }
        }
    }
}

fn pessimistic_lock(
    primary: &[u8],
    start_ts: TimeStamp,
    lock_ttl: u64,
    for_update_ts: TimeStamp,
    min_commit_ts: TimeStamp,
) -> (lock: Lock)
    ensures
        lock@ == LockView::pessimistic(primary@, start_ts@, lock_ttl, for_update_ts@, min_commit_ts@),
{
    Lock::new(
        LockType::Pessimistic,
        clone_bytes(primary),
        start_ts,
        lock_ttl,
        None,
        for_update_ts,
        0,
        min_commit_ts,
    )
}

/// Takes a pessimistic lock on `key` for the transaction, and returns the
/// value of the key at `for_update_ts` where `need_value` is set. The manager
/// of the transaction notes `for_update_ts` and `min_commit_ts`.
pub fn acquire_pessimistic_lock(
    txn: &mut MvccTxn,
    key: Key,
    primary: &[u8],
    should_not_exist: bool,
    lock_ttl: u64,
    for_update_ts: TimeStamp,
    need_value: bool,
    min_commit_ts: TimeStamp,
) -> (r: Result<Option<Vec<u8>>, Error>)
    ensures
        final(txn).has_noted_both(old(txn), for_update_ts@, min_commit_ts@),
        ({
            let o = acquire_pessimistic_lock_outcome(
                old(txn).state(),
                old(txn).start_ts@,
                key@,
                primary@,
                should_not_exist,
                lock_ttl,
                for_update_ts@,
                need_value,
                min_commit_ts@,
            );
            value_result_view(r) == o.result && final(txn).extends(old(txn), o.changes)
        }),
{
    txn.note_ts(for_update_ts);
    txn.note_ts(min_commit_ts);
    let ghost s = txn.state();
    let mut val: Option<Vec<u8>> = None;
    if let Some(lock) = txn.reader.load_lock(&key) {
        if lock.ts.0 != txn.start_ts.0 {
            assert(txn.changes() + Seq::<ModifyView>::empty() =~= txn.changes());
            return Err(Error::KeyIsLocked(lock.into_lock_info(key.into_raw())));
        }
        if lock.lock_type != LockType::Pessimistic {
            assert(txn.changes() + Seq::<ModifyView>::empty() =~= txn.changes());
            return Err(
                Error::LockTypeNotMatch {
                    start_ts: txn.start_ts,
                    key: key.into_raw(),
                    pessimistic: false,
                },
            );
        }
        if need_value {
            match txn.reader.get(&key, for_update_ts, true) {
                Ok(v) => {
                    val = v;
                },
                Err(e) => {
                    assert(txn.changes() + Seq::<ModifyView>::empty() =~= txn.changes());
                    return Err(e);
                },
            }
        }
        // Overwrite the lock only with a larger for_update_ts.
        if for_update_ts.0 > lock.for_update_ts.0 {
            let lock = pessimistic_lock(primary, txn.start_ts, lock_ttl, for_update_ts, min_commit_ts);
            txn.put_lock(key, &lock);
        } else {
            assert(txn.changes() + Seq::<ModifyView>::empty() =~= txn.changes());
        }
        return Ok(val);
    }
    if let Some((commit_ts, write)) = txn.reader.seek_write(&key, TimeStamp::max()) {
        // A pessimistic transaction reads the newest committed data: a commit
        // after `for_update_ts` means that it has to read again.
        if commit_ts.0 > for_update_ts.0 {
            assert(txn.changes() + Seq::<ModifyView>::empty() =~= txn.changes());
            return Err(
                Error::WriteConflict {
                    start_ts: txn.start_ts,
                    conflict_start_ts: write.start_ts,
                    conflict_commit_ts: commit_ts,
                    key: key.into_raw(),
                    primary: clone_bytes(primary),
                },
            );
        }
        // The rollback is told by a rollback record or by the flag on another
        // transaction's commit.
        if commit_ts.0 == txn.start_ts.0 && (write.write_type == WriteType::Rollback
            || write.has_overlapped_rollback) {
            assert(txn.changes() + Seq::<ModifyView>::empty() =~= txn.changes());
            return Err(
                Error::PessimisticLockRolledBack { start_ts: txn.start_ts, key: key.into_raw() },
            );
        }
        // Where the newest commit is before `start_ts`, no rollback can be.
        if commit_ts.0 > txn.start_ts.0 {
            if let Some((_, older)) = txn.reader.seek_write(&key, txn.start_ts) {
                if older.start_ts.0 == txn.start_ts.0 {
                    assert(txn.changes() + Seq::<ModifyView>::empty() =~= txn.changes());
                    return Err(
                        Error::PessimisticLockRolledBack {
                            start_ts: txn.start_ts,
                            key: key.into_raw(),
                        },
                    );
                }
            }
        }
        match txn.check_data_constraint(should_not_exist, &write, commit_ts, &key) {
            Ok(_) => {},
            Err(e) => {
                assert(txn.changes() + Seq::<ModifyView>::empty() =~= txn.changes());
                return Err(e);
            },
        }
        if need_value {
            proof {
                lemma_seek_write_lower(s, key@, u64::MAX, for_update_ts@);
            }
            let loaded = match write.write_type {
                WriteType::Put => match txn.reader.load_data(&key, write) {
                    Ok(v) => Ok(Some(v)),
                    Err(e) => Err(e),
                },
                WriteType::Delete => Ok(None),
                _ => if commit_ts.0 == 0 {
                    Ok(None)
                } else {
                    txn.reader.get(&key, commit_ts.prev(), true)
                },
            };
            match loaded {
                Ok(v) => {
                    val = v;
                },
                Err(e) => {
                    assert(txn.changes() + Seq::<ModifyView>::empty() =~= txn.changes());
                    return Err(e);
                },
            }
        }
    }
    let lock = pessimistic_lock(primary, txn.start_ts, lock_ttl, for_update_ts, min_commit_ts);
    txn.put_lock(key, &lock);
    Ok(val)
}

/// Takes a pessimistic lock on `key` in the store, for a transaction of its
/// own that starts at `start_ts`, and writes what the action asks for. It is
/// for callers that know that the lock can be taken.
pub fn must_succeed_impl(
    engine: &mut Engine,
    key: &[u8],
    pk: &[u8],
    start_ts: TimeStamp,
    lock_ttl: u64,
    for_update_ts: TimeStamp,
    need_value: bool,
    min_commit_ts: TimeStamp,
) -> (r: Option<Vec<u8>>)
    requires
        acquire_pessimistic_lock_outcome(
            old(engine)@,
            start_ts@,
            key@,
            pk@,
            false,
            lock_ttl,
            for_update_ts@,
            need_value,
            min_commit_ts@,
        ).result is Ok,
    ensures
        ({
            let o = acquire_pessimistic_lock_outcome(
                old(engine)@,
                start_ts@,
                key@,
                pk@,
                false,
                lock_ttl,
                for_update_ts@,
                need_value,
                min_commit_ts@,
            );
            o.result == Ok::<Option<Seq<u8>>, ErrorView>(crate::txn_types::bytes::opt_view(r))
                && final(engine)@ == old(engine)@.apply_all(o.changes)
        }),
{
    let cm = ConcurrencyManager::new(min_commit_ts);
    let mut txn = MvccTxn::new(&*engine, start_ts, cm);
    let res = acquire_pessimistic_lock(
        &mut txn,
        Key::from_raw(key),
        pk,
        false,
        lock_ttl,
        for_update_ts,
        need_value,
        min_commit_ts,
    );
    let modifies = txn.into_modifies();
    assert(Seq::<ModifyView>::empty() + batch_view(modifies@) =~= batch_view(modifies@));
    match res {
        Ok(value) => {
            engine.write(modifies);
            value
        },
        Err(_) => vstd::pervasive::unreached(),
    }
}

/// Takes a pessimistic lock that does not expire, where that is known to
/// succeed.
pub fn must_succeed(engine: &mut Engine, key: &[u8], pk: &[u8], start_ts: TimeStamp, for_update_ts: TimeStamp)
    requires
        acquire_pessimistic_lock_outcome(
            old(engine)@,
            start_ts@,
            key@,
            pk@,
            false,
            0,
            for_update_ts@,
            false,
            0,
        ).result is Ok,
    ensures
        final(engine)@ == old(engine)@.apply_all(
            acquire_pessimistic_lock_outcome(
                old(engine)@,
                start_ts@,
                key@,
                pk@,
                false,
                0,
                for_update_ts@,
                false,
                0,
            ).changes,
        ),
{
    must_succeed_with_ttl(engine, key, pk, start_ts, for_update_ts, 0);
}

/// Takes a pessimistic lock, where that is known to succeed, and returns the
/// value of the key at `for_update_ts`.
pub fn must_succeed_return_value(
    engine: &mut Engine,
    key: &[u8],
    pk: &[u8],
    start_ts: TimeStamp,
    for_update_ts: TimeStamp,
) -> (r: Option<Vec<u8>>)
    requires
        acquire_pessimistic_lock_outcome(
            old(engine)@,
            start_ts@,
            key@,
            pk@,
            false,
            0,
            for_update_ts@,
            true,
            0,
        ).result is Ok,
    ensures
        ({
            let o = acquire_pessimistic_lock_outcome(
                old(engine)@,
                start_ts@,
                key@,
                pk@,
                false,
                0,
                for_update_ts@,
                true,
                0,
            );
            o.result == Ok::<Option<Seq<u8>>, ErrorView>(crate::txn_types::bytes::opt_view(r))
                && final(engine)@ == old(engine)@.apply_all(o.changes)
        }),
{
    must_succeed_impl(engine, key, pk, start_ts, 0, for_update_ts, true, TimeStamp::zero())
}

/// Takes a pessimistic lock with a time to live, where that is known to
/// succeed.
pub fn must_succeed_with_ttl(
    engine: &mut Engine,
    key: &[u8],
    pk: &[u8],
    start_ts: TimeStamp,
    for_update_ts: TimeStamp,
    ttl: u64,
)
    requires
        acquire_pessimistic_lock_outcome(
            old(engine)@,
            start_ts@,
            key@,
            pk@,
            false,
            ttl,
            for_update_ts@,
            false,
            0,
        ).result is Ok,
    ensures
        final(engine)@ == old(engine)@.apply_all(
            acquire_pessimistic_lock_outcome(
                old(engine)@,
                start_ts@,
                key@,
                pk@,
                false,
                ttl,
                for_update_ts@,
                false,
                0,
            ).changes,
        ),
{
    let value = must_succeed_impl(
        engine,
        key,
        pk,
        start_ts,
        ttl,
        for_update_ts,
        false,
        TimeStamp::zero(),
    );
    assert(value is None);
}

/// Takes a pessimistic lock for a large transaction, whose commit timestamp
/// is bound to lie after `for_update_ts`, where that is known to succeed.
pub fn must_succeed_for_large_txn(
    engine: &mut Engine,
    key: &[u8],
    pk: &[u8],
    start_ts: TimeStamp,
    for_update_ts: TimeStamp,
    lock_ttl: u64,
)
    requires
        for_update_ts@ < u64::MAX,
        acquire_pessimistic_lock_outcome(
            old(engine)@,
            start_ts@,
            key@,
            pk@,
            false,
            lock_ttl,
            for_update_ts@,
            false,
            (for_update_ts@ + 1) as u64,
        ).result is Ok,
    ensures
        final(engine)@ == old(engine)@.apply_all(
            acquire_pessimistic_lock_outcome(
                old(engine)@,
                start_ts@,
                key@,
                pk@,
                false,
                lock_ttl,
                for_update_ts@,
                false,
                (for_update_ts@ + 1) as u64,
            ).changes,
        ),
{
    let min_commit_ts = for_update_ts.next();
    must_succeed_impl(engine, key, pk, start_ts, lock_ttl, for_update_ts, false, min_commit_ts);
}

fn must_err_impl(
    engine: &Engine,
    key: &[u8],
    pk: &[u8],
    start_ts: TimeStamp,
    for_update_ts: TimeStamp,
    need_value: bool,
    min_commit_ts: TimeStamp,
) -> (e: Error)
    requires
        acquire_pessimistic_lock_outcome(
            engine@,
            start_ts@,
            key@,
            pk@,
            false,
            0,
            for_update_ts@,
            need_value,
            min_commit_ts@,
        ).result is Err,
    ensures
        acquire_pessimistic_lock_outcome(
            engine@,
            start_ts@,
            key@,
            pk@,
            false,
            0,
            for_update_ts@,
            need_value,
            min_commit_ts@,
        ).result == Err::<Option<Seq<u8>>, ErrorView>(e@),
{
    let cm = ConcurrencyManager::new(min_commit_ts);
    let mut txn = MvccTxn::new(engine, start_ts, cm);
    match acquire_pessimistic_lock(
        &mut txn,
        Key::from_raw(key),
        pk,
        false,
        0,
        for_update_ts,
        need_value,
        min_commit_ts,
    ) {
        Ok(_) => vstd::pervasive::unreached(),
        Err(e) => e,
    }
}

/// Tries to take a pessimistic lock where that is known to fail, and returns
/// the failure. The store is left as it is.
pub fn must_err(engine: &Engine, key: &[u8], pk: &[u8], start_ts: TimeStamp, for_update_ts: TimeStamp) -> (e:
    Error)
    requires
        acquire_pessimistic_lock_outcome(
            engine@,
            start_ts@,
            key@,
            pk@,
            false,
            0,
            for_update_ts@,
            false,
            0,
        ).result is Err,
    ensures
        acquire_pessimistic_lock_outcome(
            engine@,
            start_ts@,
            key@,
            pk@,
            false,
            0,
            for_update_ts@,
            false,
            0,
        ).result == Err::<Option<Seq<u8>>, ErrorView>(e@),
{
    must_err_impl(engine, key, pk, start_ts, for_update_ts, false, TimeStamp::zero())
}

/// Tries to take a pessimistic lock and to read the value, where that is
/// known to fail, and returns the failure. The store is left as it is.
pub fn must_err_return_value(
    engine: &Engine,
    key: &[u8],
    pk: &[u8],
    start_ts: TimeStamp,
    for_update_ts: TimeStamp,
) -> (e: Error)
    requires
        acquire_pessimistic_lock_outcome(
            engine@,
            start_ts@,
            key@,
            pk@,
            false,
            0,
            for_update_ts@,
            true,
            0,
        ).result is Err,
    ensures
        acquire_pessimistic_lock_outcome(
            engine@,
            start_ts@,
            key@,
            pk@,
            false,
            0,
            for_update_ts@,
            true,
            0,
        ).result == Err::<Option<Seq<u8>>, ErrorView>(e@),
{
    must_err_impl(engine, key, pk, start_ts, for_update_ts, true, TimeStamp::zero())
}

/// Whether `key` holds the pessimistic lock of the transaction that started
/// at `start_ts`, with `for_update_ts`.
pub open spec fn pessimistic_locked(s: State, key: Seq<u8>, start_ts: u64, for_update_ts: u64) -> bool {
    &&& s.locks.contains_key(key)
    &&& s.locks[key].ts == start_ts
    &&& s.locks[key].for_update_ts == for_update_ts
    &&& s.locks[key].lock_type == LockType::Pessimistic
}

/// Reads the lock on `key`, where it is known to be the pessimistic lock of
/// the transaction that started at `start_ts`, with `for_update_ts`.
pub fn must_pessimistic_locked(engine: &Engine, key: &[u8], start_ts: TimeStamp, for_update_ts: TimeStamp)
    requires
        pessimistic_locked(engine@, key@, start_ts@, for_update_ts@),
{
    let reader = MvccReader::new(engine);
    match reader.load_lock(&Key::from_raw(key)) {
        Some(lock) => {
            if !(lock.ts.0 == start_ts.0 && lock.for_update_ts.0 == for_update_ts.0 && lock.lock_type
                == LockType::Pessimistic) {
                vstd::pervasive::unreached()
            }
        },
        None => vstd::pervasive::unreached(),
    }
}

} // verus!
