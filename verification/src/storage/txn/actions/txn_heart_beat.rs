//! Keeping the lock of a long transaction alive.

use vstd::prelude::*;
use crate::storage::kv::state::{ModifyView, State};
use crate::storage::mvcc::error::{Error, ErrorView};
use crate::storage::mvcc::txn::{fail, MvccTxn, Outcome};
use crate::txn_types::key::Key;
use crate::txn_types::lock::LockView;

verus! {

/// What a heart beat does: the time to live of the transaction's lock on its
/// primary key is raised to `advise_ttl` if it is below, and the time to live
/// that the lock then has is returned. Without the lock it fails.
pub open spec fn txn_heart_beat_outcome(s: State, start_ts: u64, key: Seq<u8>, advise_ttl: u64) -> Outcome<u64> {
    if s.locks.contains_key(key) && s.locks[key].ts == start_ts {
        let lock = s.locks[key];
        if lock.ttl < advise_ttl {
            Outcome {
                result: Ok(advise_ttl),
                changes: seq![ModifyView::PutLock(key, LockView { ttl: advise_ttl, ..lock })],
            }
        } else {
            Outcome { result: Ok(lock.ttl), changes: Seq::empty() }
        }
    } else {
        fail(ErrorView::TxnLockNotFound { start_ts, commit_ts: 0, key })
    }
}

/// Raises the time to live of the transaction's lock on `primary_key` to
/// `advise_ttl` and returns the time to live of the lock.
pub fn txn_heart_beat(txn: &mut MvccTxn, primary_key: Key, advise_ttl: u64) -> (r: Result<u64, Error>)
    ensures
        final(txn).same_clock(old(txn)),
        ({
            let o = txn_heart_beat_outcome(old(txn).state(), old(txn).start_ts@, primary_key@, advise_ttl);
            final(txn).extends(old(txn), o.changes) && match r {
                Ok(ttl) => o.result == Ok::<u64, ErrorView>(ttl),
                Err(e) => o.result == Err::<u64, ErrorView>(e@),
            }
        }),
{
    assert(txn.changes() + Seq::<ModifyView>::empty() =~= txn.changes());
    let held = match txn.reader.load_lock(&primary_key) {
        Some(lock) => if lock.ts.0 == txn.start_ts.0 {
            Some(lock)
        } else {
            None
        },
        None => None,
    };
    match held {
        Some(lock) => {
            let mut lock = lock;
            if lock.ttl < advise_ttl {
                lock.ttl = advise_ttl;
                txn.put_lock(primary_key, &lock);
            }
            Ok(lock.ttl)
        },
        None => Err(
            Error::TxnLockNotFound {
                start_ts: txn.start_ts,
                commit_ts: crate::txn_types::timestamp::TimeStamp::zero(),
                key: primary_key.into_raw(),
            },
        ),
    }
}

} // verus!
