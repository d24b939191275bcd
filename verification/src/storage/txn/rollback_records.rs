//! What every action leaves as it found it: each rollback record stands at
//! the start timestamp of its transaction.

use vstd::prelude::*;
use crate::server::gc_worker::collection::collected;
use crate::storage::kv::state::{
    keeps_rollbacks_in_place,
    lemma_apply_keeps_rollbacks,
    rollbacks_in_place,
    ModifyView,
    State,
};
use crate::storage::mvcc::reader::{lemma_commit_record_absent, txn_commit_record};
use crate::storage::mvcc::txn::{collapse_changes, rollback_lock_outcome, rollback_write};
use crate::storage::txn::actions::acquire_pessimistic_lock::acquire_pessimistic_lock_outcome;
use crate::storage::txn::actions::check_txn_status::{
    check_txn_status_outcome,
    missing_lock_outcome,
    MissingLockAction,
};
use crate::storage::txn::actions::cleanup::cleanup_outcome;
use crate::storage::txn::actions::commit::commit_outcome;
use crate::storage::txn::actions::prewrite::{pessimistic_prewrite_outcome, prewrite_outcome};
use crate::storage::txn::actions::txn_heart_beat::txn_heart_beat_outcome;
use crate::txn_types::lock::{LockType, LockView};
use crate::txn_types::mutation::MutationView;

verus! {

/// The empty store has every rollback record in its place.
pub proof fn lemma_rollbacks_in_place()
    ensures
        rollbacks_in_place(State::empty()),
{
}

/// Whether every change of the batch leaves rollback records where they
/// belong.
pub open spec fn batch_keeps_rollbacks(ms: Seq<ModifyView>) -> bool {
    forall|x: int| 0 <= x < ms.len() ==> keeps_rollbacks_in_place(#[trigger] ms[x])
}

proof fn lemma_concat_keeps(a: Seq<ModifyView>, b: Seq<ModifyView>)
    requires
        batch_keeps_rollbacks(a),
        batch_keeps_rollbacks(b),
    ensures
        batch_keeps_rollbacks(a + b),
{
    assert forall|x: int| 0 <= x < (a + b).len() implies keeps_rollbacks_in_place(#[trigger] (a + b)[x]) by {
        if x < a.len() {
            assert((a + b)[x] == a[x]);
        } else {
            assert((a + b)[x] == b[x - a.len()]);
        }
    }
}

proof fn lemma_rollback_lock_keeps(
    s: State,
    start_ts: u64,
    collapse: bool,
    key: Seq<u8>,
    lock: LockView,
    is_pessimistic_txn: bool,
)
    requires
        rollbacks_in_place(s),
    ensures
        batch_keeps_rollbacks(
            rollback_lock_outcome(s, start_ts, collapse, key, lock, is_pessimistic_txn).changes,
        ),
{
    if txn_commit_record(s, key, start_ts) is Absent {
        lemma_commit_record_absent(s, key, start_ts, u64::MAX);
        let overlapped_write = txn_commit_record(s, key, start_ts)->overlapped_write;
        let protected = is_pessimistic_txn && key == lock.primary;
        let drop_value: Seq<ModifyView> = if lock.short_value is None && lock.lock_type
            == LockType::Put {
            seq![ModifyView::DeleteValue(key, lock.ts)]
        } else {
            Seq::empty()
        };
        let record = seq![
            ModifyView::PutWrite(key, start_ts, rollback_write(start_ts, protected, overlapped_write)),
        ];
        let collapsed = if collapse {
            collapse_changes(s, key, start_ts)
        } else {
            Seq::empty()
        };
        assert(s.writes.contains_key((key, start_ts)) ==> overlapped_write is Some);
        lemma_concat_keeps(drop_value, collapsed);
        lemma_concat_keeps(drop_value + collapsed, record);
        lemma_concat_keeps(drop_value + collapsed + record, seq![ModifyView::DeleteLock(key)]);
    }
}

proof fn lemma_missing_lock_keeps(s: State, start_ts: u64, collapse: bool, key: Seq<u8>, action: MissingLockAction)
    requires
        rollbacks_in_place(s),
    ensures
        batch_keeps_rollbacks(missing_lock_outcome(s, start_ts, collapse, key, action).changes),
{
    if txn_commit_record(s, key, start_ts) is Absent && action != MissingLockAction::ReturnError {
        lemma_commit_record_absent(s, key, start_ts, u64::MAX);
        let overlapped_write = txn_commit_record(s, key, start_ts)->overlapped_write;
        let collapsed = if collapse {
            collapse_changes(s, key, start_ts)
        } else {
            Seq::empty()
        };
        let protected = action == MissingLockAction::ProtectedRollback;
        assert(s.writes.contains_key((key, start_ts)) ==> overlapped_write is Some);
        lemma_concat_keeps(
            collapsed,
            seq![
                ModifyView::PutWrite(key, start_ts, rollback_write(start_ts, protected, overlapped_write)),
            ],
        );
    }
}

/// Taking a pessimistic lock leaves every rollback record at the start
/// timestamp of its transaction.
pub proof fn lemma_acquire_keeps_rollbacks(
    s: State,
    start_ts: u64,
    key: Seq<u8>,
    primary: Seq<u8>,
    should_not_exist: bool,
    lock_ttl: u64,
    for_update_ts: u64,
    need_value: bool,
    min_commit_ts: u64,
)
    requires
        rollbacks_in_place(s),
    ensures
        rollbacks_in_place(
            s.apply_all(
                acquire_pessimistic_lock_outcome(
                    s,
                    start_ts,
                    key,
                    primary,
                    should_not_exist,
                    lock_ttl,
                    for_update_ts,
                    need_value,
                    min_commit_ts,
                ).changes,
            ),
        ),
{
    lemma_apply_keeps_rollbacks(
        s,
        acquire_pessimistic_lock_outcome(
            s,
            start_ts,
            key,
            primary,
            should_not_exist,
            lock_ttl,
            for_update_ts,
            need_value,
            min_commit_ts,
        ).changes,
    );
}

/// A prewrite, optimistic or pessimistic, leaves every rollback record at
/// the start timestamp of its transaction.
pub proof fn lemma_prewrite_keeps_rollbacks(
    s: State,
    start_ts: u64,
    max_ts: u64,
    synced: bool,
    mutation: MutationView,
    primary: Seq<u8>,
    async_commit: bool,
    is_pessimistic_lock: bool,
    lock_ttl: u64,
    for_update_ts: u64,
    txn_size: u64,
    min_commit_ts: u64,
    try_one_pc: bool,
)
    requires
        rollbacks_in_place(s),
    ensures
        rollbacks_in_place(
            s.apply_all(
                prewrite_outcome(
                    s,
                    start_ts,
                    max_ts,
                    synced,
                    mutation,
                    primary,
                    async_commit,
                    lock_ttl,
                    txn_size,
                    min_commit_ts,
                    try_one_pc,
                ).changes,
            ),
        ),
        rollbacks_in_place(
            s.apply_all(
                pessimistic_prewrite_outcome(
                    s,
                    start_ts,
                    max_ts,
                    synced,
                    mutation,
                    primary,
                    async_commit,
                    is_pessimistic_lock,
                    lock_ttl,
                    for_update_ts,
                    txn_size,
                    min_commit_ts,
                    try_one_pc,
                ).changes,
            ),
        ),
{
    lemma_apply_keeps_rollbacks(
        s,
        prewrite_outcome(
            s,
            start_ts,
            max_ts,
            synced,
            mutation,
            primary,
            async_commit,
            lock_ttl,
            txn_size,
            min_commit_ts,
            try_one_pc,
        ).changes,
    );
    lemma_apply_keeps_rollbacks(
        s,
        pessimistic_prewrite_outcome(
            s,
            start_ts,
            max_ts,
            synced,
            mutation,
            primary,
            async_commit,
            is_pessimistic_lock,
            lock_ttl,
            for_update_ts,
            txn_size,
            min_commit_ts,
            try_one_pc,
        ).changes,
    );
}

/// A commit leaves every rollback record at the start timestamp of its
/// transaction.
pub proof fn lemma_commit_keeps_rollbacks(s: State, start_ts: u64, key: Seq<u8>, commit_ts: u64)
    requires
        rollbacks_in_place(s),
    ensures
        rollbacks_in_place(s.apply_all(commit_outcome(s, start_ts, key, commit_ts).changes)),
{
    lemma_apply_keeps_rollbacks(s, commit_outcome(s, start_ts, key, commit_ts).changes);
}

/// A cleanup, and so a rollback, leaves every rollback record at the start
/// timestamp of its transaction.
pub proof fn lemma_cleanup_keeps_rollbacks(
    s: State,
    start_ts: u64,
    collapse: bool,
    key: Seq<u8>,
    current_ts: u64,
    protect_rollback: bool,
)
    requires
        rollbacks_in_place(s),
    ensures
        rollbacks_in_place(
            s.apply_all(cleanup_outcome(s, start_ts, collapse, key, current_ts, protect_rollback).changes),
        ),
{
    if s.locks.contains_key(key) {
        lemma_rollback_lock_keeps(s, start_ts, collapse, key, s.locks[key], s.locks[key].is_pessimistic_txn());
    }
    lemma_missing_lock_keeps(s, start_ts, collapse, key, MissingLockAction::ProtectedRollback);
    lemma_missing_lock_keeps(s, start_ts, collapse, key, MissingLockAction::Rollback);
    lemma_apply_keeps_rollbacks(
        s,
        cleanup_outcome(s, start_ts, collapse, key, current_ts, protect_rollback).changes,
    );
}

/// The check of the status of a transaction leaves every rollback record at
/// the start timestamp of its transaction.
pub proof fn lemma_check_txn_status_keeps_rollbacks(
    s: State,
    start_ts: u64,
    collapse: bool,
    key: Seq<u8>,
    caller_start_ts: u64,
    current_ts: u64,
)
    requires
        rollbacks_in_place(s),
    ensures
        rollbacks_in_place(
            s.apply_all(
                check_txn_status_outcome(s, start_ts, collapse, key, caller_start_ts, current_ts).changes,
            ),
        ),
{
    if s.locks.contains_key(key) {
        lemma_rollback_lock_keeps(s, start_ts, collapse, key, s.locks[key], s.locks[key].is_pessimistic_txn());
    }
    lemma_missing_lock_keeps(s, start_ts, collapse, key, MissingLockAction::ProtectedRollback);
    lemma_apply_keeps_rollbacks(
        s,
        check_txn_status_outcome(s, start_ts, collapse, key, caller_start_ts, current_ts).changes,
    );
}

/// A heart beat leaves every rollback record at the start timestamp of its
/// transaction.
pub proof fn lemma_heart_beat_keeps_rollbacks(s: State, start_ts: u64, key: Seq<u8>, advise_ttl: u64)
    requires
        rollbacks_in_place(s),
    ensures
        rollbacks_in_place(s.apply_all(txn_heart_beat_outcome(s, start_ts, key, advise_ttl).changes)),
{
    lemma_apply_keeps_rollbacks(s, txn_heart_beat_outcome(s, start_ts, key, advise_ttl).changes);
}

/// Garbage collection leaves every rollback record at the start timestamp of
/// its transaction.
pub proof fn lemma_collection_keeps_rollbacks(s: State, safe_point: u64)
    requires
        rollbacks_in_place(s),
    ensures
        rollbacks_in_place(collected(s, safe_point)),
{
    let t = collected(s, safe_point);
    assert forall|key: Seq<u8>, c: u64|
        #[trigger] t.writes.contains_key((key, c)) && t.writes[(key, c)].write_type
            == crate::txn_types::write::WriteType::Rollback implies t.writes[(key, c)].start_ts == c by {
        assert(s.writes.contains_key((key, c)));
    }
}

} // verus!
