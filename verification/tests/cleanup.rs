use mvcc_txn::concurrency_manager::ConcurrencyManager;
use mvcc_txn::storage::kv::engine::Engine;
use mvcc_txn::storage::mvcc::error::Error;
use mvcc_txn::storage::mvcc::reader::{MvccReader, TxnCommitRecord};
use mvcc_txn::storage::mvcc::txn::MvccTxn;
use mvcc_txn::storage::txn::actions::acquire_pessimistic_lock;
use mvcc_txn::storage::txn::actions::check_txn_status::{check_txn_status, TxnStatus};
use mvcc_txn::storage::txn::actions::cleanup::{cleanup, must_err, must_succeed, rollback};
use mvcc_txn::storage::txn::actions::commit::commit;
use mvcc_txn::storage::txn::actions::prewrite::{pessimistic_prewrite, prewrite};
use mvcc_txn::storage::txn::actions::txn_heart_beat::txn_heart_beat;
use mvcc_txn::txn_types::key::Key;
use mvcc_txn::txn_types::lock::LockType;
use mvcc_txn::txn_types::mutation::Mutation;
use mvcc_txn::txn_types::timestamp::TimeStamp;
use mvcc_txn::txn_types::write::WriteType;

fn new_txn(engine: &Engine, start_ts: TimeStamp) -> MvccTxn<'_> {
    MvccTxn::new(engine, start_ts, ConcurrencyManager::new(start_ts))
}

fn must_prewrite_put(engine: &mut Engine, key: &[u8], value: &[u8], pk: &[u8], ts: TimeStamp) {
    let mut txn = new_txn(engine, ts);
    let m = Mutation::Put(Key::from_raw(key), value.to_vec());
    prewrite(&mut txn, m, pk, &None, 0, 0, TimeStamp::zero(), false).unwrap();
    let modifies = txn.into_modifies();
    engine.write(modifies);
}

fn must_pessimistic_prewrite_put(
    engine: &mut Engine,
    key: &[u8],
    value: &[u8],
    pk: &[u8],
    ts: TimeStamp,
    for_update_ts: TimeStamp,
    is_pessimistic_lock: bool,
) {
    let mut txn = new_txn(engine, ts);
    let m = Mutation::Put(Key::from_raw(key), value.to_vec());
    pessimistic_prewrite(&mut txn, m, pk, &None, is_pessimistic_lock, 0, for_update_ts, 0, TimeStamp::zero(), false)
        .unwrap();
    let modifies = txn.into_modifies();
    engine.write(modifies);
}

fn must_acquire_pessimistic_lock(engine: &mut Engine, key: &[u8], pk: &[u8], ts: TimeStamp, for_update_ts: TimeStamp) {
    acquire_pessimistic_lock::must_succeed(engine, key, pk, ts, for_update_ts);
}

fn must_heart_beat(engine: &mut Engine, pk: &[u8], start_ts: TimeStamp, advise_ttl: u64, expect_ttl: u64) {
    let mut txn = new_txn(engine, start_ts);
    let ttl = txn_heart_beat(&mut txn, Key::from_raw(pk), advise_ttl).unwrap();
    assert_eq!(ttl, expect_ttl);
    let modifies = txn.into_modifies();
    engine.write(modifies);
}

fn must_locked(engine: &Engine, key: &[u8], start_ts: TimeStamp) {
    let lock = MvccReader::new(engine).load_lock(&Key::from_raw(key)).unwrap();
    assert_eq!(lock.ts, start_ts);
    assert_ne!(lock.lock_type, LockType::Pessimistic);
}

fn must_unlocked(engine: &Engine, key: &[u8]) {
    assert!(MvccReader::new(engine).load_lock(&Key::from_raw(key)).is_none());
}

fn must_get_rollback_ts(engine: &Engine, key: &[u8], start_ts: TimeStamp) {
    match MvccReader::new(engine).get_txn_commit_record(&Key::from_raw(key), start_ts) {
        TxnCommitRecord::SingleRecord { commit_ts, write } => {
            assert_eq!(commit_ts, start_ts);
            assert_eq!(write.start_ts, start_ts);
            assert_eq!(write.write_type, WriteType::Rollback);
        }
        r => panic!("no rollback record: {:?}", r),
    }
}

fn must_get_rollback_protected(engine: &Engine, key: &[u8], start_ts: TimeStamp, protected: bool) {
    match MvccReader::new(engine).get_txn_commit_record(&Key::from_raw(key), start_ts) {
        TxnCommitRecord::SingleRecord { commit_ts, write } => {
            assert_eq!(commit_ts, start_ts);
            assert_eq!(write.start_ts, start_ts);
            assert_eq!(write.write_type, WriteType::Rollback);
            assert_eq!(write.is_protected(), protected);
        }
        r => panic!("no rollback record: {:?}", r),
    }
}

#[test]
fn test_cleanup() {
    // Cleanup's logic is mostly similar to rollback, except the TTL check. Tests that not
    // related to TTL check should be covered by other test cases.
    let mut engine = Engine::new();
    let engine = &mut engine;

    // Shorthand for composing ts.
    let ts = TimeStamp::compose;

    let (k, v) = (b"k", b"v");

    must_prewrite_put(engine, k, v, k, ts(10, 0));
    must_locked(engine, k, ts(10, 0));
    must_heart_beat(engine, k, ts(10, 0), 100, 100);
    // Check the last txn_heart_beat has set the lock's TTL to 100.
    must_heart_beat(engine, k, ts(10, 0), 90, 100);

    // TTL not expired. Do nothing but returns an error.
    must_err(engine, k, ts(10, 0), ts(20, 0));
    must_locked(engine, k, ts(10, 0));

    // Try to cleanup another transaction's lock. Does nothing.
    must_succeed(engine, k, ts(10, 1), ts(120, 0));
    // If there is no exisiting lock when cleanup, it may be a pessimistic transaction,
    // so the rollback should be protected.
    must_get_rollback_protected(engine, k, ts(10, 1), true);
    must_locked(engine, k, ts(10, 0));

    // TTL expired. The lock should be removed.
    must_succeed(engine, k, ts(10, 0), ts(120, 0));
    must_unlocked(engine, k);
    // Rollbacks of optimistic transactions needn't be protected
    must_get_rollback_protected(engine, k, ts(10, 0), false);
    must_get_rollback_ts(engine, k, ts(10, 0));

    // Rollbacks of primary keys in pessimistic transactions should be protected
    must_acquire_pessimistic_lock(engine, k, k, ts(11, 1), ts(12, 1));
    must_succeed(engine, k, ts(11, 1), ts(120, 0));
    must_get_rollback_protected(engine, k, ts(11, 1), true);

    must_acquire_pessimistic_lock(engine, k, k, ts(13, 1), ts(14, 1));
    must_pessimistic_prewrite_put(engine, k, v, k, ts(13, 1), ts(14, 1), true);
    must_succeed(engine, k, ts(13, 1), ts(120, 0));
    must_get_rollback_protected(engine, k, ts(13, 1), true);
}

#[test]
fn test_cleanup_errors() {
    let mut engine = Engine::new();
    let engine = &mut engine;
    let t = TimeStamp::new;
    let (k, v) = (b"k", b"v");

    // A lock that is alive.
    must_prewrite_put(engine, k, v, k, TimeStamp::compose(10, 0));
    must_heart_beat(engine, k, TimeStamp::compose(10, 0), 50, 50);
    match must_err(engine, k, TimeStamp::compose(10, 0), TimeStamp::compose(60, 0)) {
        Error::KeyIsLocked(info) => {
            assert_eq!(info.lock_version, TimeStamp::compose(10, 0).into_inner());
            assert_eq!(info.lock_ttl, 50);
            assert_eq!(info.key, k.to_vec());
        }
        e => panic!("unexpected error: {:?}", e),
    }
    // One millisecond later it has expired.
    must_succeed(engine, k, TimeStamp::compose(10, 0), TimeStamp::compose(61, 0));
    must_unlocked(engine, k);

    // A committed transaction cannot be cleaned up.
    let k2 = b"k2";
    must_prewrite_put(engine, k2, v, k2, t(100));
    {
        let mut txn = new_txn(engine, t(100));
        commit(&mut txn, Key::from_raw(k2), t(110)).unwrap();
        let modifies = txn.into_modifies();
        engine.write(modifies);
    }
    match must_err(engine, k2, t(100), t(0)) {
        Error::Committed { commit_ts } => assert_eq!(commit_ts, t(110)),
        e => panic!("unexpected error: {:?}", e),
    }
    let mut txn = new_txn(engine, t(100));
    match rollback(&mut txn, Key::from_raw(k2), false) {
        Err(Error::Committed { commit_ts }) => assert_eq!(commit_ts, t(110)),
        r => panic!("unexpected result: {:?}", r),
    }
    assert!(txn.into_modifies().is_empty());
}

#[test]
fn test_rollback_twice_changes_nothing() {
    let mut engine = Engine::new();
    let engine = &mut engine;
    let t = TimeStamp::new;
    let (k, v) = (b"k", b"v");
    must_prewrite_put(engine, k, v, k, t(10));
    let released = {
        let mut txn = new_txn(engine, t(10));
        let r = rollback(&mut txn, Key::from_raw(k), false).unwrap();
        let modifies = txn.into_modifies();
        assert_eq!(modifies.len(), 2);
        engine.write(modifies);
        r
    };
    let released = released.unwrap();
    assert_eq!(released.key, k.to_vec());
    assert!(!released.pessimistic);
    must_unlocked(engine, k);
    must_get_rollback_ts(engine, k, t(10));
    // The second time: success, nothing to write.
    let mut txn = new_txn(engine, t(10));
    assert!(rollback(&mut txn, Key::from_raw(k), false).unwrap().is_none());
    assert!(txn.into_modifies().is_empty());
    // A rolled-back transaction cannot be committed.
    let mut txn = new_txn(engine, t(10));
    match commit(&mut txn, Key::from_raw(k), t(20)) {
        Err(Error::TxnLockNotFound { start_ts, commit_ts, key }) => {
            assert_eq!(start_ts, t(10));
            assert_eq!(commit_ts, t(20));
            assert_eq!(key, k.to_vec());
        }
        r => panic!("unexpected result: {:?}", r),
    }
    // Nor prewritten again.
    let mut txn = new_txn(engine, t(10));
    let m = Mutation::Put(Key::from_raw(k), v.to_vec());
    match prewrite(&mut txn, m, k, &None, 0, 0, TimeStamp::zero(), false) {
        Err(Error::WriteConflict { start_ts, conflict_start_ts, conflict_commit_ts, .. }) => {
            assert_eq!(start_ts, t(10));
            assert_eq!(conflict_start_ts, t(10));
            assert_eq!(conflict_commit_ts, t(10));
        }
        r => panic!("unexpected result: {:?}", r),
    }
}

#[test]
fn test_rollback_removes_long_value() {
    let mut engine = Engine::new();
    let engine = &mut engine;
    let t = TimeStamp::new;
    let k = b"k";
    let long = vec![b'v'; 256];
    must_prewrite_put(engine, k, &long, k, t(10));
    assert_eq!(engine.get_value(k, t(10)), Some(&long));
    let mut txn = new_txn(engine, t(10));
    cleanup(&mut txn, Key::from_raw(k), t(0), false).unwrap();
    let modifies = txn.into_modifies();
    assert_eq!(modifies.len(), 3);
    engine.write(modifies);
    assert_eq!(engine.get_value(k, t(10)), None);
}

#[test]
fn test_check_txn_status() {
    let mut engine = Engine::new();
    let engine = &mut engine;
    let ts = TimeStamp::compose;
    let (k, v) = (b"k", b"v");

    // No trace: a protected rollback is left.
    {
        let mut txn = new_txn(engine, ts(5, 0));
        let (status, released) = check_txn_status(&mut txn, Key::from_raw(k), ts(6, 0), ts(7, 0));
        assert!(matches!(status, TxnStatus::LockNotExist));
        assert!(released.is_none());
        let modifies = txn.into_modifies();
        engine.write(modifies);
    }
    must_get_rollback_protected(engine, k, ts(5, 0), true);
    {
        let mut txn = new_txn(engine, ts(5, 0));
        let (status, _) = check_txn_status(&mut txn, Key::from_raw(k), ts(6, 0), ts(7, 0));
        assert!(matches!(status, TxnStatus::RolledBack));
        assert!(txn.into_modifies().is_empty());
    }

    // A lock that is alive stays; its lower bound is pushed past the caller.
    {
        let mut txn = new_txn(engine, ts(10, 0));
        let m = Mutation::Put(Key::from_raw(k), v.to_vec());
        prewrite(&mut txn, m, k, &None, 100, 0, ts(10, 1), false).unwrap();
        let modifies = txn.into_modifies();
        engine.write(modifies);
    }
    {
        let mut txn = new_txn(engine, ts(10, 0));
        let (status, released) = check_txn_status(&mut txn, Key::from_raw(k), ts(12, 0), ts(11, 0));
        match status {
            TxnStatus::Uncommitted { lock, min_commit_ts_pushed } => {
                assert!(min_commit_ts_pushed);
                assert_eq!(lock.min_commit_ts, ts(12, 1));
            }
            s => panic!("unexpected status: {:?}", s),
        }
        assert!(released.is_none());
        let modifies = txn.into_modifies();
        engine.write(modifies);
    }
    assert_eq!(MvccReader::new(engine).load_lock(&Key::from_raw(k)).unwrap().min_commit_ts, ts(12, 1));

    // Expired: rolled back.
    {
        let mut txn = new_txn(engine, ts(10, 0));
        let (status, released) = check_txn_status(&mut txn, Key::from_raw(k), ts(12, 0), ts(111, 0));
        assert!(matches!(status, TxnStatus::TtlExpire));
        assert!(released.is_some());
        let modifies = txn.into_modifies();
        engine.write(modifies);
    }
    must_unlocked(engine, k);
    must_get_rollback_ts(engine, k, ts(10, 0));

    // Committed.
    must_prewrite_put(engine, k, v, k, ts(20, 0));
    {
        let mut txn = new_txn(engine, ts(20, 0));
        commit(&mut txn, Key::from_raw(k), ts(21, 0)).unwrap();
        let modifies = txn.into_modifies();
        engine.write(modifies);
    }
    let mut txn = new_txn(engine, ts(20, 0));
    let (status, _) = check_txn_status(&mut txn, Key::from_raw(k), ts(30, 0), ts(30, 0));
    match status {
        TxnStatus::Committed { commit_ts } => assert_eq!(commit_ts, ts(21, 0)),
        s => panic!("unexpected status: {:?}", s),
    }
}
