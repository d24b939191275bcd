//! The store with its transactions: each action reads a snapshot, and what it
//! asks for is written as one batch if it succeeds. Every timestamp that
//! comes in is noted as seen: the transaction's manager notes it while the
//! action runs, and the store takes the manager back.

use vstd::prelude::*;
use crate::concurrency_manager::{noted, ConcurrencyManager};
use crate::server::gc_worker::collection::collected;
use crate::server::gc_worker::compaction::{all_picked, dropped_count, gc_by_compact, seen_count, walked_count};
use crate::storage::kv::engine::{batch_view, Engine, Modify};
use crate::storage::kv::state::{ModifyView, State};
use crate::storage::mvcc::error::{ts_result_view, value_result_view, Error, ErrorView};
use crate::storage::mvcc::reader::{get_value, MvccReader};
use crate::storage::mvcc::txn::{released_result_view, released_view, MvccTxn, Outcome, ReleasedLock, ReleasedLockView};
use crate::storage::txn::actions::acquire_pessimistic_lock::{
    acquire_pessimistic_lock,
    acquire_pessimistic_lock_outcome,
};
use crate::storage::txn::actions::check_txn_status::{
    check_txn_status,
    check_txn_status_outcome,
    status_pair_view,
    TxnStatus,
    TxnStatusView,
};
use crate::storage::txn::actions::cleanup::{cleanup, cleanup_outcome};
use crate::storage::txn::actions::commit::{commit, commit_outcome};
use crate::storage::txn::actions::pessimistic_rollback::{holds_pessimistic_lock, pessimistic_rollback};
use crate::storage::txn::actions::prewrite::{
    has_secondaries,
    max2,
    pessimistic_prewrite,
    pessimistic_prewrite_outcome,
    prewrite,
    prewrite_outcome,
};
use crate::storage::txn::actions::txn_heart_beat::{txn_heart_beat, txn_heart_beat_outcome};
use crate::txn_types::key::Key;
use crate::txn_types::mutation::Mutation;
use crate::txn_types::timestamp::TimeStamp;

verus! {

/// The store, the largest timestamp seen and the longest key that is taken.
pub struct Storage {
    pub engine: Engine,
    pub concurrency_manager: ConcurrencyManager,
    pub max_key_size: usize,
}

/// The store after an action: with its changes if it succeeded, else as it
/// was.
pub open spec fn state_after<T>(s: State, o: Outcome<T>) -> State {
    if o.result is Ok {
        s.apply_all(o.changes)
    } else {
        s
    }
}

impl Storage {
    /// What the store holds.
    pub open spec fn state(&self) -> State {
        self.engine@
    }

    /// The largest timestamp seen.
    pub open spec fn max_ts(&self) -> u64 {
        self.concurrency_manager.spec_max_ts()
    }

    /// Whether the largest timestamp is in step with the cluster.
    pub open spec fn synced(&self) -> bool {
        self.concurrency_manager.spec_synced()
    }

    /// Whether `later` is this store a moment on: the settings as they were,
    /// the largest timestamp raised to take in `seen`.
    pub open spec fn moved_on(&self, later: &Self, seen: int) -> bool {
        &&& later.max_key_size == self.max_key_size
        &&& later.synced() == self.synced()
        &&& later.max_ts() == max2(self.max_ts() as int, seen)
        &&& later.max_ts() >= self.max_ts()
    }

    /// An empty store that has seen `latest_ts`.
    pub fn new(latest_ts: TimeStamp, max_key_size: usize) -> (s: Storage)
        ensures
            s.state() == State::empty(),
            s.max_ts() == latest_ts@,
            s.synced(),
            s.max_key_size == max_key_size,
    {
        Storage {
            engine: Engine::new(),
            concurrency_manager: ConcurrencyManager::new(latest_ts),
            max_key_size,
        }
    }

    fn finish(&mut self, ok: bool, modifies: Vec<Modify>)
        ensures
            final(self).engine@ == if ok {
                old(self).engine@.apply_all(batch_view(modifies@))
            } else {
                old(self).engine@
            },
            final(self).concurrency_manager == old(self).concurrency_manager,
            final(self).max_key_size == old(self).max_key_size,
    {
        if ok {
            self.engine.write(modifies);
        }
    }

    /// The value of `key` for a reader at `ts`, who fails on a lock in its
    /// way.
    pub fn get(&mut self, key: &Key, ts: TimeStamp) -> (r: Result<Option<Vec<u8>>, Error>)
        ensures
            value_result_view(r) == get_value(old(self).state(), key@, ts@, false),
            final(self).state() == old(self).state(),
            old(self).moved_on(final(self), ts@ as int),
    {
        self.concurrency_manager.update_max_ts(ts);
        MvccReader::new(&self.engine).get(key, ts, false)
    }

    /// Takes a pessimistic lock on `key` for the transaction that started at
    /// `start_ts`.
    pub fn acquire_pessimistic_lock(
        &mut self,
        key: Key,
        primary: &[u8],
        start_ts: TimeStamp,
        should_not_exist: bool,
        lock_ttl: u64,
        for_update_ts: TimeStamp,
        need_value: bool,
        min_commit_ts: TimeStamp,
    ) -> (r: Result<Option<Vec<u8>>, Error>)
        ensures
            old(self).moved_on(
                final(self),
                max2(start_ts@ as int, max2(for_update_ts@ as int, min_commit_ts@ as int)),
            ),
            ({
                let o = acquire_pessimistic_lock_outcome(
                    old(self).state(),
                    start_ts@,
                    key@,
                    primary@,
                    should_not_exist,
                    lock_ttl,
                    for_update_ts@,
                    need_value,
                    min_commit_ts@,
                );
                value_result_view(r) == o.result && final(self).state() == state_after(
                    old(self).state(),
                    o,
                )
            }),
    {
        let mut txn = MvccTxn::new(&self.engine, start_ts, self.concurrency_manager);
        let r = acquire_pessimistic_lock(
            &mut txn,
            key,
            primary,
            should_not_exist,
            lock_ttl,
            for_update_ts,
            need_value,
            min_commit_ts,
        );
        let concurrency_manager = txn.concurrency_manager;
        let modifies = txn.into_modifies();
        self.concurrency_manager = concurrency_manager;
        assert(Seq::<ModifyView>::empty() + batch_view(modifies@) =~= batch_view(modifies@));
        self.finish(r.is_ok(), modifies);
        r
    }

    /// Prewrites `mutation` for the optimistic transaction that started at
    /// `start_ts`. A key that is too long is refused before anything else.
    pub fn prewrite(
        &mut self,
        mutation: Mutation,
        primary: &[u8],
        secondary_keys: &Option<Vec<Vec<u8>>>,
        start_ts: TimeStamp,
        lock_ttl: u64,
        txn_size: u64,
        min_commit_ts: TimeStamp,
        try_one_pc: bool,
    ) -> (r: Result<TimeStamp, Error>)
        requires
            has_secondaries(*secondary_keys) || try_one_pc ==> old(self).max_ts() < u64::MAX && start_ts@
                < u64::MAX,
        ensures
            old(self).moved_on(final(self), max2(start_ts@ as int, min_commit_ts@ as int)),
            mutation@.key().len() > old(self).max_key_size ==> ts_result_view(r) == Err::<u64, ErrorView>(
                ErrorView::KeyTooLarge {
                    size: mutation@.key().len(),
                    limit: old(self).max_key_size as nat,
                },
            ) && final(self).state() == old(self).state(),
            mutation@.key().len() <= old(self).max_key_size ==> ({
                let o = prewrite_outcome(
                    old(self).state(),
                    start_ts@,
                    noted(old(self).max_ts(), start_ts@),
                    old(self).synced(),
                    mutation@,
                    primary@,
                    has_secondaries(*secondary_keys),
                    lock_ttl,
                    txn_size,
                    min_commit_ts@,
                    try_one_pc,
                );
                ts_result_view(r) == o.result && final(self).state() == state_after(old(self).state(), o)
            }),
    {
        let size = match &mutation {
            Mutation::Put(key, _) => key.0.len(),
            Mutation::Delete(key) => key.0.len(),
            Mutation::Lock(key) => key.0.len(),
            Mutation::Insert(key, _) => key.0.len(),
        };
        if size > self.max_key_size {
            self.concurrency_manager.update_max_ts(start_ts);
            self.concurrency_manager.update_max_ts(min_commit_ts);
            return Err(Error::KeyTooLarge { size, limit: self.max_key_size });
        }
        let mut txn = MvccTxn::new(&self.engine, start_ts, self.concurrency_manager);
        let r = prewrite(
            &mut txn,
            mutation,
            primary,
            secondary_keys,
            lock_ttl,
            txn_size,
            min_commit_ts,
            try_one_pc,
        );
        let concurrency_manager = txn.concurrency_manager;
        let modifies = txn.into_modifies();
        self.concurrency_manager = concurrency_manager;
        assert(Seq::<ModifyView>::empty() + batch_view(modifies@) =~= batch_view(modifies@));
        self.finish(r.is_ok(), modifies);
        r
    }

    /// Prewrites `mutation` for the pessimistic transaction that started at
    /// `start_ts`. A key that is too long is refused before anything else.
    pub fn pessimistic_prewrite(
        &mut self,
        mutation: Mutation,
        primary: &[u8],
        secondary_keys: &Option<Vec<Vec<u8>>>,
        is_pessimistic_lock: bool,
        start_ts: TimeStamp,
        lock_ttl: u64,
        for_update_ts: TimeStamp,
        txn_size: u64,
        min_commit_ts: TimeStamp,
        try_one_pc: bool,
    ) -> (r: Result<TimeStamp, Error>)
        requires
            has_secondaries(*secondary_keys) || try_one_pc ==> old(self).max_ts() < u64::MAX && start_ts@
                < u64::MAX && for_update_ts@ < u64::MAX && (old(self).state().locks.contains_key(
                mutation@.key(),
            ) ==> old(self).state().locks[mutation@.key()].for_update_ts < u64::MAX),
        ensures
            old(self).moved_on(
                final(self),
                max2(start_ts@ as int, max2(for_update_ts@ as int, min_commit_ts@ as int)),
            ),
            mutation@.key().len() > old(self).max_key_size ==> ts_result_view(r) == Err::<u64, ErrorView>(
                ErrorView::KeyTooLarge {
                    size: mutation@.key().len(),
                    limit: old(self).max_key_size as nat,
                },
            ) && final(self).state() == old(self).state(),
            mutation@.key().len() <= old(self).max_key_size ==> ({
                let o = pessimistic_prewrite_outcome(
                    old(self).state(),
                    start_ts@,
                    noted(old(self).max_ts(), start_ts@),
                    old(self).synced(),
                    mutation@,
                    primary@,
                    has_secondaries(*secondary_keys),
                    is_pessimistic_lock,
                    lock_ttl,
                    for_update_ts@,
                    txn_size,
                    min_commit_ts@,
                    try_one_pc,
                );
                ts_result_view(r) == o.result && final(self).state() == state_after(old(self).state(), o)
            }),
    {
        let size = match &mutation {
            Mutation::Put(key, _) => key.0.len(),
            Mutation::Delete(key) => key.0.len(),
            Mutation::Lock(key) => key.0.len(),
            Mutation::Insert(key, _) => key.0.len(),
        };
        if size > self.max_key_size {
            self.concurrency_manager.update_max_ts(start_ts);
            self.concurrency_manager.update_max_ts(for_update_ts);
            self.concurrency_manager.update_max_ts(min_commit_ts);
            return Err(Error::KeyTooLarge { size, limit: self.max_key_size });
        }
        let mut txn = MvccTxn::new(&self.engine, start_ts, self.concurrency_manager);
        let r = pessimistic_prewrite(
            &mut txn,
            mutation,
            primary,
            secondary_keys,
            is_pessimistic_lock,
            lock_ttl,
            for_update_ts,
            txn_size,
            min_commit_ts,
            try_one_pc,
        );
        let concurrency_manager = txn.concurrency_manager;
        let modifies = txn.into_modifies();
        self.concurrency_manager = concurrency_manager;
        assert(Seq::<ModifyView>::empty() + batch_view(modifies@) =~= batch_view(modifies@));
        self.finish(r.is_ok(), modifies);
        r
    }

    /// Commits the transaction that started at `start_ts` on `key` at
    /// `commit_ts`.
    pub fn commit(&mut self, key: Key, start_ts: TimeStamp, commit_ts: TimeStamp) -> (r: Result<
        Option<ReleasedLock>,
        Error,
    >)
        ensures
            old(self).moved_on(final(self), max2(start_ts@ as int, commit_ts@ as int)),
            ({
                let o = commit_outcome(old(self).state(), start_ts@, key@, commit_ts@);
                released_result_view(r) == o.result && final(self).state() == state_after(
                    old(self).state(),
                    o,
                )
            }),
    {
        let mut txn = MvccTxn::new(&self.engine, start_ts, self.concurrency_manager);
        let r = commit(&mut txn, key, commit_ts);
        let concurrency_manager = txn.concurrency_manager;
        let modifies = txn.into_modifies();
        self.concurrency_manager = concurrency_manager;
        assert(Seq::<ModifyView>::empty() + batch_view(modifies@) =~= batch_view(modifies@));
        self.finish(r.is_ok(), modifies);
        r
    }

    /// Cleans up after the transaction that started at `start_ts` on `key`;
    /// with `current_ts` zero this is a rollback. The rollback before it is
    /// collapsed.
    pub fn cleanup(&mut self, key: Key, start_ts: TimeStamp, current_ts: TimeStamp, protect_rollback: bool) -> (r:
        Result<Option<ReleasedLock>, Error>)
        ensures
            old(self).moved_on(final(self), max2(start_ts@ as int, current_ts@ as int)),
            ({
                let o = cleanup_outcome(
                    old(self).state(),
                    start_ts@,
                    true,
                    key@,
                    current_ts@,
                    protect_rollback,
                );
                released_result_view(r) == o.result && final(self).state() == state_after(
                    old(self).state(),
                    o,
                )
            }),
    {
        let mut txn = MvccTxn::new(&self.engine, start_ts, self.concurrency_manager);
        let r = cleanup(&mut txn, key, current_ts, protect_rollback);
        let concurrency_manager = txn.concurrency_manager;
        let modifies = txn.into_modifies();
        self.concurrency_manager = concurrency_manager;
        assert(Seq::<ModifyView>::empty() + batch_view(modifies@) =~= batch_view(modifies@));
        self.finish(r.is_ok(), modifies);
        r
    }

    /// Rolls back the transaction that started at `start_ts` on `key`.
    pub fn rollback(&mut self, key: Key, start_ts: TimeStamp, protect_rollback: bool) -> (r: Result<
        Option<ReleasedLock>,
        Error,
    >)
        ensures
            old(self).moved_on(final(self), start_ts@ as int),
            ({
                let o = cleanup_outcome(old(self).state(), start_ts@, true, key@, 0, protect_rollback);
                released_result_view(r) == o.result && final(self).state() == state_after(
                    old(self).state(),
                    o,
                )
            }),
    {
        self.cleanup(key, start_ts, TimeStamp::zero(), protect_rollback)
    }

    /// Checks what became of the transaction that started at `start_ts`,
    /// from its primary key.
    pub fn check_txn_status(
        &mut self,
        primary_key: Key,
        start_ts: TimeStamp,
        caller_start_ts: TimeStamp,
        current_ts: TimeStamp,
    ) -> (r: (TxnStatus, Option<ReleasedLock>))
        ensures
            old(self).moved_on(
                final(self),
                max2(start_ts@ as int, max2(caller_start_ts@ as int, current_ts@ as int)),
            ),
            ({
                let o = check_txn_status_outcome(
                    old(self).state(),
                    start_ts@,
                    true,
                    primary_key@,
                    caller_start_ts@,
                    current_ts@,
                );
                o.result == Ok::<(TxnStatusView, Option<ReleasedLockView>), ErrorView>(
                    status_pair_view(r),
                ) && final(self).state() == old(self).state().apply_all(o.changes)
            }),
    {
        let mut txn = MvccTxn::new(&self.engine, start_ts, self.concurrency_manager);
        let r = check_txn_status(&mut txn, primary_key, caller_start_ts, current_ts);
        let concurrency_manager = txn.concurrency_manager;
        let modifies = txn.into_modifies();
        self.concurrency_manager = concurrency_manager;
        assert(Seq::<ModifyView>::empty() + batch_view(modifies@) =~= batch_view(modifies@));
        self.finish(true, modifies);
        r
    }

    /// Gives up the pessimistic lock that the transaction that started at
    /// `start_ts` took on `key` at `for_update_ts` or before.
    pub fn pessimistic_rollback(&mut self, key: Key, start_ts: TimeStamp, for_update_ts: TimeStamp) -> (r: Option<
        ReleasedLock,
    >)
        ensures
            old(self).moved_on(final(self), max2(start_ts@ as int, for_update_ts@ as int)),
            holds_pessimistic_lock(old(self).state(), start_ts@, key@, for_update_ts@) ==> released_view(r)
                == Some(ReleasedLockView { key: key@, pessimistic: true }) && final(self).state() == old(
                self,
            ).state().apply(ModifyView::DeleteLock(key@)),
            !holds_pessimistic_lock(old(self).state(), start_ts@, key@, for_update_ts@) ==> r is None
                && final(self).state() == old(self).state(),
    {
        let mut txn = MvccTxn::new(&self.engine, start_ts, self.concurrency_manager);
        let r = pessimistic_rollback(&mut txn, key, for_update_ts);
        let concurrency_manager = txn.concurrency_manager;
        let modifies = txn.into_modifies();
        self.concurrency_manager = concurrency_manager;
        proof {
            assert(Seq::<ModifyView>::empty() + batch_view(modifies@) =~= batch_view(modifies@));
            crate::storage::kv::state::lemma_apply_one(old(self).state(), ModifyView::DeleteLock(key@));
            assert(old(self).state().apply_all(Seq::<ModifyView>::empty()) == old(self).state());
        }
        self.finish(true, modifies);
        r
    }

    /// Collects garbage at `safe_point` in a compaction of the whole write
    /// column family; without a safe point nothing is collected. Returns the
    /// numbers of versions seen at or below the safe point, of records
    /// dropped and of records removed behind delete marks.
    pub fn gc_by_compact(&mut self, safe_point: u64) -> (r: (usize, usize, usize))
        ensures
            final(self).concurrency_manager == old(self).concurrency_manager,
            final(self).max_key_size == old(self).max_key_size,
            safe_point == 0 ==> final(self).state() == old(self).state() && r == (0usize, 0usize, 0usize),
            safe_point != 0 ==> final(self).state() == collected(old(self).state(), safe_point),
            safe_point != 0 ==> ({
                let e = old(self).engine.write_entries();
                let all = all_picked(e.len());
                &&& r.0 == seen_count(e, all, safe_point, e.len() as int)
                &&& r.1 == dropped_count(e, all, safe_point, e.len() as int)
                &&& r.2 == walked_count(e, all, e.len() as int, safe_point, e.len() as int)
            }),
    {
        gc_by_compact(&mut self.engine, safe_point)
    }

    /// Raises the time to live of the lock of the transaction that started at
    /// `start_ts` on its primary key.
    pub fn txn_heart_beat(&mut self, primary_key: Key, start_ts: TimeStamp, advise_ttl: u64) -> (r: Result<
        u64,
        Error,
    >)
        ensures
            old(self).moved_on(final(self), start_ts@ as int),
            ({
                let o = txn_heart_beat_outcome(old(self).state(), start_ts@, primary_key@, advise_ttl);
                final(self).state() == state_after(old(self).state(), o) && match r {
                    Ok(ttl) => o.result == Ok::<u64, ErrorView>(ttl),
                    Err(e) => o.result == Err::<u64, ErrorView>(e@),
                }
            }),
    {
        let mut txn = MvccTxn::new(&self.engine, start_ts, self.concurrency_manager);
        let r = txn_heart_beat(&mut txn, primary_key, advise_ttl);
        let concurrency_manager = txn.concurrency_manager;
        let modifies = txn.into_modifies();
        self.concurrency_manager = concurrency_manager;
        assert(Seq::<ModifyView>::empty() + batch_view(modifies@) =~= batch_view(modifies@));
        self.finish(r.is_ok(), modifies);
        r
    }
}

} // verus!
