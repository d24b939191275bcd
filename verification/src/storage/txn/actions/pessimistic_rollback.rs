//! Giving up a pessimistic lock.

use vstd::prelude::*;
use crate::storage::kv::state::{ModifyView, State};
use crate::storage::mvcc::txn::{released_view, MvccTxn, ReleasedLock, ReleasedLockView};
use crate::txn_types::key::Key;
use crate::txn_types::lock::LockType;
use crate::txn_types::timestamp::TimeStamp;

verus! {

/// Whether the lock on `key` is a pessimistic lock of the transaction that
/// started at `start_ts`, taken at `for_update_ts` or before.
pub open spec fn holds_pessimistic_lock(s: State, start_ts: u64, key: Seq<u8>, for_update_ts: u64) -> bool {
    &&& s.locks.contains_key(key)
    &&& s.locks[key].lock_type == LockType::Pessimistic
    &&& s.locks[key].ts == start_ts
    &&& s.locks[key].for_update_ts <= for_update_ts
}

/// Removes the pessimistic lock that the transaction took on `key` at
/// `for_update_ts` or before. Any other lock stays, and no record is written.
/// The manager of the transaction notes `for_update_ts`.
pub fn pessimistic_rollback(txn: &mut MvccTxn, key: Key, for_update_ts: TimeStamp) -> (r: Option<ReleasedLock>)
    ensures
        final(txn).has_noted(old(txn), for_update_ts@),
        holds_pessimistic_lock(old(txn).state(), old(txn).start_ts@, key@, for_update_ts@)
            ==> released_view(r) == Some(ReleasedLockView { key: key@, pessimistic: true })
            && final(txn).extends(old(txn), seq![ModifyView::DeleteLock(key@)]),
        !holds_pessimistic_lock(old(txn).state(), old(txn).start_ts@, key@, for_update_ts@)
            ==> r is None && final(txn).extends(old(txn), Seq::empty()),
{
    txn.note_ts(for_update_ts);
    assert(txn.changes() + Seq::<ModifyView>::empty() =~= txn.changes());
    if let Some(lock) = txn.reader.load_lock(&key) {
        if lock.lock_type == LockType::Pessimistic && lock.ts.0 == txn.start_ts.0
            && lock.for_update_ts.0 <= for_update_ts.0 {
            return txn.unlock_key(key, true);
        }
    }
    None
}

} // verus!
