use mvcc_txn::concurrency_manager::ConcurrencyManager;
use mvcc_txn::storage::kv::engine::Engine;
use mvcc_txn::storage::mvcc::error::Error;
use mvcc_txn::storage::mvcc::reader::{MvccReader, TxnCommitRecord};
use mvcc_txn::storage::mvcc::txn::MvccTxn;
use mvcc_txn::storage::txn::actions::acquire_pessimistic_lock::{
    must_err, must_err_return_value, must_pessimistic_locked, must_succeed, must_succeed_for_large_txn,
    must_succeed_return_value, must_succeed_with_ttl,
};
use mvcc_txn::storage::txn::actions::cleanup;
use mvcc_txn::storage::txn::actions::commit::commit;
use mvcc_txn::storage::txn::actions::pessimistic_rollback::pessimistic_rollback;
use mvcc_txn::storage::txn::actions::prewrite::{pessimistic_prewrite, prewrite};
use mvcc_txn::txn_types::key::Key;
use mvcc_txn::txn_types::lock::LockType;
use mvcc_txn::txn_types::mutation::Mutation;
use mvcc_txn::txn_types::timestamp::TimeStamp;
use mvcc_txn::txn_types::write::WriteType;

fn t(ts: u64) -> TimeStamp {
    TimeStamp::new(ts)
}

fn new_txn(engine: &Engine, start_ts: u64) -> MvccTxn<'_> {
    MvccTxn::new(engine, t(start_ts), ConcurrencyManager::new(t(start_ts)))
}

fn try_prewrite(engine: &mut Engine, mutation: Mutation, pk: &[u8], ts: u64) -> Result<TimeStamp, Error> {
    let mut txn = new_txn(engine, ts);
    let res = prewrite(&mut txn, mutation, pk, &None, 0, 0, TimeStamp::zero(), false);
    let modifies = txn.into_modifies();
    if res.is_ok() {
        engine.write(modifies);
    }
    res
}

fn must_prewrite_put(engine: &mut Engine, key: &[u8], value: &[u8], pk: &[u8], ts: u64) {
    try_prewrite(engine, Mutation::Put(Key::from_raw(key), value.to_vec()), pk, ts).unwrap();
}

fn must_prewrite_put_err(engine: &mut Engine, key: &[u8], value: &[u8], pk: &[u8], ts: u64) -> Error {
    try_prewrite(engine, Mutation::Put(Key::from_raw(key), value.to_vec()), pk, ts).unwrap_err()
}

fn must_prewrite_delete(engine: &mut Engine, key: &[u8], pk: &[u8], ts: u64) {
    try_prewrite(engine, Mutation::Delete(Key::from_raw(key)), pk, ts).unwrap();
}

fn must_prewrite_lock(engine: &mut Engine, key: &[u8], pk: &[u8], ts: u64) {
    try_prewrite(engine, Mutation::Lock(Key::from_raw(key)), pk, ts).unwrap();
}

fn must_prewrite_lock_err(engine: &mut Engine, key: &[u8], pk: &[u8], ts: u64) -> Error {
    try_prewrite(engine, Mutation::Lock(Key::from_raw(key)), pk, ts).unwrap_err()
}

fn try_pessimistic_prewrite(
    engine: &mut Engine,
    mutation: Mutation,
    pk: &[u8],
    ts: u64,
    for_update_ts: u64,
    is_pessimistic_lock: bool,
) -> Result<TimeStamp, Error> {
    let mut txn = new_txn(engine, ts);
    let res = pessimistic_prewrite(
        &mut txn,
        mutation,
        pk,
        &None,
        is_pessimistic_lock,
        0,
        t(for_update_ts),
        0,
        TimeStamp::zero(),
        false,
    );
    let modifies = txn.into_modifies();
    if res.is_ok() {
        engine.write(modifies);
    }
    res
}

fn must_pessimistic_prewrite_put(
    engine: &mut Engine,
    key: &[u8],
    value: &[u8],
    pk: &[u8],
    ts: u64,
    for_update_ts: u64,
    is_pessimistic_lock: bool,
) {
    let m = Mutation::Put(Key::from_raw(key), value.to_vec());
    try_pessimistic_prewrite(engine, m, pk, ts, for_update_ts, is_pessimistic_lock).unwrap();
}

fn must_pessimistic_prewrite_put_err(
    engine: &mut Engine,
    key: &[u8],
    value: &[u8],
    pk: &[u8],
    ts: u64,
    for_update_ts: u64,
    is_pessimistic_lock: bool,
) -> Error {
    let m = Mutation::Put(Key::from_raw(key), value.to_vec());
    try_pessimistic_prewrite(engine, m, pk, ts, for_update_ts, is_pessimistic_lock).unwrap_err()
}

fn must_pessimistic_prewrite_delete(
    engine: &mut Engine,
    key: &[u8],
    pk: &[u8],
    ts: u64,
    for_update_ts: u64,
    is_pessimistic_lock: bool,
) {
    let m = Mutation::Delete(Key::from_raw(key));
    try_pessimistic_prewrite(engine, m, pk, ts, for_update_ts, is_pessimistic_lock).unwrap();
}

fn must_commit(engine: &mut Engine, key: &[u8], start_ts: u64, commit_ts: u64) {
    let mut txn = new_txn(engine, start_ts);
    commit(&mut txn, Key::from_raw(key), t(commit_ts)).unwrap();
    let modifies = txn.into_modifies();
    engine.write(modifies);
}

fn must_cleanup(engine: &mut Engine, key: &[u8], start_ts: u64, current_ts: u64) {
    cleanup::must_succeed(engine, key, t(start_ts), t(current_ts));
}

fn do_rollback(engine: &mut Engine, key: &[u8], start_ts: u64, collapse: bool) {
    let mut txn = new_txn(engine, start_ts);
    txn.collapse_rollback(collapse);
    cleanup::rollback(&mut txn, Key::from_raw(key), false).unwrap();
    let modifies = txn.into_modifies();
    engine.write(modifies);
}

fn must_rollback(engine: &mut Engine, key: &[u8], start_ts: u64) {
    do_rollback(engine, key, start_ts, false);
}

fn must_rollback_collapsed(engine: &mut Engine, key: &[u8], start_ts: u64) {
    do_rollback(engine, key, start_ts, true);
}

fn must_pessimistic_rollback(engine: &mut Engine, key: &[u8], start_ts: u64, for_update_ts: u64) {
    let mut txn = new_txn(engine, start_ts);
    pessimistic_rollback(&mut txn, Key::from_raw(key), t(for_update_ts));
    let modifies = txn.into_modifies();
    engine.write(modifies);
}

fn must_locked(engine: &Engine, key: &[u8], start_ts: u64) {
    let lock = MvccReader::new(engine).load_lock(&Key::from_raw(key)).unwrap();
    assert_eq!(lock.ts.into_inner(), start_ts);
    assert_ne!(lock.lock_type, LockType::Pessimistic);
}

fn must_unlocked(engine: &Engine, key: &[u8]) {
    assert!(MvccReader::new(engine).load_lock(&Key::from_raw(key)).is_none());
    assert_eq!(engine.lock_count(key), 0);
}

fn must_get(engine: &Engine, key: &[u8], ts: u64, expect: &[u8]) {
    let v = MvccReader::new(engine).get(&Key::from_raw(key), t(ts), false).unwrap();
    assert_eq!(v, Some(expect.to_vec()));
}

fn must_get_none(engine: &Engine, key: &[u8], ts: u64) {
    let v = MvccReader::new(engine).get(&Key::from_raw(key), t(ts), false).unwrap();
    assert_eq!(v, None);
}

fn must_get_err(engine: &Engine, key: &[u8], ts: u64) {
    assert!(MvccReader::new(engine).get(&Key::from_raw(key), t(ts), false).is_err());
}

fn must_get_commit_ts(engine: &Engine, key: &[u8], start_ts: u64, commit_ts: u64) {
    match MvccReader::new(engine).get_txn_commit_record(&Key::from_raw(key), t(start_ts)) {
        TxnCommitRecord::SingleRecord { commit_ts: ts, write } if write.write_type != WriteType::Rollback => {
            assert_eq!(ts.into_inner(), commit_ts);
        }
        r => panic!("no commit record: {:?}", r),
    }
}

fn must_get_rollback_ts(engine: &Engine, key: &[u8], start_ts: u64) {
    match MvccReader::new(engine).get_txn_commit_record(&Key::from_raw(key), t(start_ts)) {
        TxnCommitRecord::SingleRecord { commit_ts, write } => {
            assert_eq!(commit_ts.into_inner(), start_ts);
            assert_eq!(write.start_ts.into_inner(), start_ts);
            assert_eq!(write.write_type, WriteType::Rollback);
        }
        r => panic!("no rollback record: {:?}", r),
    }
}

fn must_get_rollback_protected(engine: &Engine, key: &[u8], start_ts: u64, protected: bool) {
    match MvccReader::new(engine).get_txn_commit_record(&Key::from_raw(key), t(start_ts)) {
        TxnCommitRecord::SingleRecord { commit_ts, write } => {
            assert_eq!(commit_ts.into_inner(), start_ts);
            assert_eq!(write.start_ts.into_inner(), start_ts);
            assert_eq!(write.write_type, WriteType::Rollback);
            assert_eq!(write.is_protected(), protected);
        }
        r => panic!("no rollback record: {:?}", r),
    }
}

fn must_get_overlapped_rollback(
    engine: &Engine,
    key: &[u8],
    start_ts: u64,
    overlapped_start_ts: u64,
    overlapped_write_type: WriteType,
) {
    let reader = MvccReader::new(engine);
    match reader.get_txn_commit_record(&Key::from_raw(key), t(start_ts)) {
        TxnCommitRecord::OverlappedRollback { commit_ts } => assert_eq!(commit_ts.into_inner(), start_ts),
        r => panic!("no overlapped rollback: {:?}", r),
    }
    let (commit_ts, write) = reader.seek_write(&Key::from_raw(key), t(start_ts)).unwrap();
    assert_eq!(commit_ts.into_inner(), start_ts);
    assert!(write.has_overlapped_rollback);
    assert_eq!(write.start_ts.into_inner(), overlapped_start_ts);
    assert_eq!(write.write_type, overlapped_write_type);
}

#[test]
fn test_pessimistic_lock() {
    let mut engine = Engine::new();
    let engine = &mut engine;

    let k = b"k1";
    let v = b"v1";

    // Normal
    must_succeed(engine, k, k, t(1), t(1));
    must_pessimistic_locked(engine, k, t(1), t(1));
    must_pessimistic_prewrite_put(engine, k, v, k, 1, 1, true);
    must_locked(engine, k, 1);
    must_commit(engine, k, 1, 2);
    must_unlocked(engine, k);

    // Lock conflict
    must_prewrite_put(engine, k, v, k, 3);
    must_err(engine, k, k, t(4), t(4));
    must_cleanup(engine, k, 3, 0);
    must_unlocked(engine, k);
    must_succeed(engine, k, k, t(5), t(5));
    must_prewrite_lock_err(engine, k, k, 6);
    must_err(engine, k, k, t(6), t(6));
    must_cleanup(engine, k, 5, 0);
    must_unlocked(engine, k);

    // Data conflict
    must_prewrite_put(engine, k, v, k, 7);
    must_commit(engine, k, 7, 9);
    must_unlocked(engine, k);
    must_prewrite_lock_err(engine, k, k, 8);
    must_err(engine, k, k, t(8), t(8));
    must_succeed(engine, k, k, t(8), t(9));
    must_pessimistic_prewrite_put(engine, k, v, k, 8, 8, true);
    must_commit(engine, k, 8, 10);
    must_unlocked(engine, k);

    // Rollback
    must_succeed(engine, k, k, t(11), t(11));
    must_pessimistic_locked(engine, k, t(11), t(11));
    must_cleanup(engine, k, 11, 0);
    must_err(engine, k, k, t(11), t(11));
    must_pessimistic_prewrite_put_err(engine, k, v, k, 11, 11, true);
    must_prewrite_lock_err(engine, k, k, 11);
    must_unlocked(engine, k);

    must_succeed(engine, k, k, t(12), t(12));
    must_pessimistic_prewrite_put(engine, k, v, k, 12, 12, true);
    must_locked(engine, k, 12);
    must_cleanup(engine, k, 12, 0);
    must_err(engine, k, k, t(12), t(12));
    must_pessimistic_prewrite_put_err(engine, k, v, k, 12, 12, true);
    must_prewrite_lock_err(engine, k, k, 12);
    must_unlocked(engine, k);

    // Duplicated
    must_succeed(engine, k, k, t(13), t(13));
    must_pessimistic_locked(engine, k, t(13), t(13));
    must_succeed(engine, k, k, t(13), t(13));
    must_pessimistic_locked(engine, k, t(13), t(13));
    must_pessimistic_prewrite_put(engine, k, v, k, 13, 13, true);
    must_locked(engine, k, 13);
    must_pessimistic_prewrite_put(engine, k, v, k, 13, 13, true);
    must_locked(engine, k, 13);
    must_commit(engine, k, 13, 14);
    must_unlocked(engine, k);
    must_commit(engine, k, 13, 14);
    must_unlocked(engine, k);

    // Pessimistic lock doesn't block reads.
    must_succeed(engine, k, k, t(15), t(15));
    must_pessimistic_locked(engine, k, t(15), t(15));
    must_get(engine, k, 16, v);
    must_pessimistic_prewrite_delete(engine, k, k, 15, 15, true);
    must_get_err(engine, k, 16);
    must_commit(engine, k, 15, 17);

    // Rollback
    must_succeed(engine, k, k, t(18), t(18));
    must_rollback(engine, k, 18);
    must_unlocked(engine, k);
    must_prewrite_put(engine, k, v, k, 19);
    must_commit(engine, k, 19, 20);
    must_err(engine, k, k, t(18), t(21));
    must_unlocked(engine, k);

    // LockTypeNotMatch
    must_prewrite_put(engine, k, v, k, 23);
    must_locked(engine, k, 23);
    must_err(engine, k, k, t(23), t(23));
    must_cleanup(engine, k, 23, 0);
    must_succeed(engine, k, k, t(24), t(24));
    must_pessimistic_locked(engine, k, t(24), t(24));
    must_prewrite_put_err(engine, k, v, k, 24);
    must_rollback(engine, k, 24);

    // Acquire lock on a prewritten key should fail.
    must_succeed(engine, k, k, t(26), t(26));
    must_pessimistic_locked(engine, k, t(26), t(26));
    must_pessimistic_prewrite_delete(engine, k, k, 26, 26, true);
    must_locked(engine, k, 26);
    must_err(engine, k, k, t(26), t(26));
    must_locked(engine, k, 26);

    // Acquire lock on a committed key should fail.
    must_commit(engine, k, 26, 27);
    must_unlocked(engine, k);
    must_get_none(engine, k, 28);
    must_err(engine, k, k, t(26), t(26));
    must_unlocked(engine, k);
    must_get_none(engine, k, 28);
    // Pessimistic prewrite on a committed key should fail.
    must_pessimistic_prewrite_put_err(engine, k, v, k, 26, 26, true);
    must_unlocked(engine, k);
    must_get_none(engine, k, 28);
    // Currently we cannot avoid this.
    must_succeed(engine, k, k, t(26), t(29));
    must_pessimistic_rollback(engine, k, 26, 29);
    must_unlocked(engine, k);

    // Non pessimistic key in pessimistic transaction.
    must_pessimistic_prewrite_put(engine, k, v, k, 30, 30, false);
    must_locked(engine, k, 30);
    must_commit(engine, k, 30, 31);
    must_unlocked(engine, k);
    must_get_commit_ts(engine, k, 30, 31);

    // Rollback collapsed.
    must_rollback_collapsed(engine, k, 32);
    must_rollback_collapsed(engine, k, 33);
    must_err(engine, k, k, t(32), t(32));
    // Currently we cannot avoid this.
    must_succeed(engine, k, k, t(32), t(34));
    must_pessimistic_rollback(engine, k, 32, 34);
    must_unlocked(engine, k);

    // Acquire lock when there is lock with different for_update_ts.
    must_succeed(engine, k, k, t(35), t(36));
    must_pessimistic_locked(engine, k, t(35), t(36));
    must_succeed(engine, k, k, t(35), t(35));
    must_pessimistic_locked(engine, k, t(35), t(36));
    must_succeed(engine, k, k, t(35), t(37));
    must_pessimistic_locked(engine, k, t(35), t(37));

    // Cannot prewrite when there is another transaction's pessimistic lock.
    must_pessimistic_prewrite_put_err(engine, k, v, k, 36, 36, true);
    must_pessimistic_prewrite_put_err(engine, k, v, k, 36, 38, true);
    must_pessimistic_locked(engine, k, t(35), t(37));
    // Cannot prewrite when there is another transaction's non-pessimistic lock.
    must_pessimistic_prewrite_put(engine, k, v, k, 35, 37, true);
    must_locked(engine, k, 35);
    must_pessimistic_prewrite_put_err(engine, k, v, k, 36, 38, true);
    must_locked(engine, k, 35);

    // Commit pessimistic transaction's key but with smaller commit_ts than for_update_ts.
    // Currently not checked, so in this case it will actually be successfully committed.
    must_commit(engine, k, 35, 36);
    must_unlocked(engine, k);
    must_get_commit_ts(engine, k, 35, 36);

    // Prewrite meets pessimistic lock on a non-pessimistic key.
    // Currently not checked, so prewrite will success.
    must_succeed(engine, k, k, t(40), t(40));
    must_pessimistic_locked(engine, k, t(40), t(40));
    must_pessimistic_prewrite_put(engine, k, v, k, 40, 40, false);
    must_locked(engine, k, 40);
    must_commit(engine, k, 40, 41);
    must_unlocked(engine, k);

    // Prewrite with different for_update_ts.
    // Currently not checked.
    must_succeed(engine, k, k, t(42), t(45));
    must_pessimistic_locked(engine, k, t(42), t(45));
    must_pessimistic_prewrite_put(engine, k, v, k, 42, 43, true);
    must_locked(engine, k, 42);
    must_commit(engine, k, 42, 45);
    must_unlocked(engine, k);

    must_succeed(engine, k, k, t(46), t(47));
    must_pessimistic_locked(engine, k, t(46), t(47));
    must_pessimistic_prewrite_put(engine, k, v, k, 46, 48, true);
    must_locked(engine, k, 46);
    must_commit(engine, k, 46, 50);
    must_unlocked(engine, k);

    // Prewrite on non-pessimistic key meets write with larger commit_ts than current
    // for_update_ts (non-pessimistic data conflict).
    // Normally non-pessimistic keys in pessimistic transactions are used when we are sure that
    // there won't be conflicts. So this case is also not checked, and prewrite will succeeed.
    must_pessimistic_prewrite_put(engine, k, v, k, 47, 48, false);
    must_locked(engine, k, 47);
    must_cleanup(engine, k, 47, 0);
    must_unlocked(engine, k);

    // The rollback of the primary key in a pessimistic transaction should be protected from
    // being collapsed.
    must_succeed(engine, k, k, t(49), t(60));
    must_pessimistic_prewrite_put(engine, k, v, k, 49, 60, true);
    must_locked(engine, k, 49);
    must_cleanup(engine, k, 49, 0);
    must_get_rollback_protected(engine, k, 49, true);
    must_prewrite_put(engine, k, v, k, 51);
    must_rollback_collapsed(engine, k, 51);
    must_err(engine, k, k, t(49), t(60));

    // Overlapped rollback record will be written when the current start_ts equals to another write
    // records' commit ts. Now there is a commit record with commit_ts = 50.
    must_succeed(engine, k, k, t(50), t(61));
    must_pessimistic_prewrite_put(engine, k, v, k, 50, 61, true);
    must_locked(engine, k, 50);
    must_cleanup(engine, k, 50, 0);
    must_get_overlapped_rollback(engine, k, 50, 46, WriteType::Put);

    // start_ts and commit_ts interlacing
    for start_ts in &[140, 150, 160] {
        let for_update_ts = start_ts + 48;
        let commit_ts = start_ts + 50;
        must_succeed(engine, k, k, t(*start_ts), t(for_update_ts));
        must_pessimistic_prewrite_put(engine, k, v, k, *start_ts, for_update_ts, true);
        must_commit(engine, k, *start_ts, commit_ts);
        must_get(engine, k, commit_ts + 1, v);
    }

    must_rollback(engine, k, 170);

    // Now the data should be like: (start_ts -> commit_ts)
    // 140 -> 190
    // 150 -> 200
    // 160 -> 210
    // 170 -> rollback
    must_get_commit_ts(engine, k, 140, 190);
    must_get_commit_ts(engine, k, 150, 200);
    must_get_commit_ts(engine, k, 160, 210);
    must_get_rollback_ts(engine, k, 170);
}

#[test]
fn test_pessimistic_lock_return_value() {
    let mut engine = Engine::new();
    let engine = &mut engine;
    let (k, v) = (b"k", b"v");

    assert_eq!(must_succeed_return_value(engine, k, k, t(10), t(10)), None);
    must_pessimistic_locked(engine, k, t(10), t(10));
    must_pessimistic_rollback(engine, k, 10, 10);

    // Put
    must_prewrite_put(engine, k, v, k, 10);
    // KeyIsLocked
    match must_err_return_value(engine, k, k, t(20), t(20)) {
        Error::KeyIsLocked(_) => (),
        e => panic!("unexpected error: {:?}", e),
    };
    must_commit(engine, k, 10, 20);
    // WriteConflict
    match must_err_return_value(engine, k, k, t(15), t(15)) {
        Error::WriteConflict { .. } => (),
        e => panic!("unexpected error: {:?}", e),
    };
    assert_eq!(must_succeed_return_value(engine, k, k, t(25), t(25)), Some(v.to_vec()));
    must_pessimistic_locked(engine, k, t(25), t(25));
    must_pessimistic_rollback(engine, k, 25, 25);

    // Skip Write::Lock
    must_prewrite_lock(engine, k, k, 30);
    must_commit(engine, k, 30, 40);
    assert_eq!(must_succeed_return_value(engine, k, k, t(45), t(45)), Some(v.to_vec()));
    must_pessimistic_locked(engine, k, t(45), t(45));
    must_pessimistic_rollback(engine, k, 45, 45);

    // Skip Write::Rollback
    must_rollback(engine, k, 50);
    assert_eq!(must_succeed_return_value(engine, k, k, t(55), t(55)), Some(v.to_vec()));
    must_pessimistic_locked(engine, k, t(55), t(55));
    must_pessimistic_rollback(engine, k, 55, 55);

    // Delete
    must_prewrite_delete(engine, k, k, 60);
    must_commit(engine, k, 60, 70);
    assert_eq!(must_succeed_return_value(engine, k, k, t(75), t(75)), None);
    // Duplicated command
    assert_eq!(must_succeed_return_value(engine, k, k, t(75), t(75)), None);
    assert_eq!(must_succeed_return_value(engine, k, k, t(75), t(55)), Some(v.to_vec()));
    must_pessimistic_locked(engine, k, t(75), t(75));
    must_pessimistic_rollback(engine, k, 75, 75);
}

#[test]
fn test_overwrite_pessimistic_lock() {
    let mut engine = Engine::new();
    let engine = &mut engine;

    let k = b"k1";

    must_succeed(engine, k, k, t(1), t(2));
    must_pessimistic_locked(engine, k, t(1), t(2));
    must_succeed(engine, k, k, t(1), t(1));
    must_pessimistic_locked(engine, k, t(1), t(2));
    must_succeed(engine, k, k, t(1), t(3));
    must_pessimistic_locked(engine, k, t(1), t(3));
}

#[test]
fn test_pessimistic_lock_with_ttl_and_bound() {
    let mut engine = Engine::new();
    let engine = &mut engine;
    let k = b"k";
    must_succeed_with_ttl(engine, k, k, t(10), t(12), 3000);
    let lock = MvccReader::new(engine).load_lock(&Key::from_raw(k)).unwrap();
    assert_eq!(lock.ttl, 3000);
    assert_eq!(lock.min_commit_ts.into_inner(), 0);
    must_pessimistic_rollback(engine, k, 10, 12);
    must_succeed_for_large_txn(engine, k, k, t(20), t(22), 100);
    let lock = MvccReader::new(engine).load_lock(&Key::from_raw(k)).unwrap();
    assert_eq!(lock.ttl, 100);
    assert_eq!(lock.for_update_ts.into_inner(), 22);
    assert_eq!(lock.min_commit_ts.into_inner(), 23);
    assert_eq!(engine.lock_count(k), 1);
}
