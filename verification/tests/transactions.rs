use mvcc_txn::concurrency_manager::ConcurrencyManager;
use mvcc_txn::storage::kv::engine::{Engine, Modify};
use mvcc_txn::storage::mvcc::error::Error;
use mvcc_txn::storage::mvcc::reader::{MvccReader, TxnCommitRecord};
use mvcc_txn::storage::mvcc::txn::MvccTxn;
use mvcc_txn::storage::txn::actions::acquire_pessimistic_lock::acquire_pessimistic_lock;
use mvcc_txn::storage::txn::actions::check_txn_status::{
    check_txn_status, check_txn_status_missing_lock, is_lock_expired, MissingLockAction, TxnStatus,
};
use mvcc_txn::storage::txn::actions::cleanup::{cleanup, rollback};
use mvcc_txn::storage::txn::actions::commit::commit;
use mvcc_txn::storage::txn::actions::pessimistic_rollback::pessimistic_rollback;
use mvcc_txn::storage::txn::actions::prewrite::{pessimistic_prewrite, prewrite, prewrite_key_value};
use mvcc_txn::storage::txn::actions::txn_heart_beat::txn_heart_beat;
use mvcc_txn::txn_types::key::Key;
use mvcc_txn::txn_types::lock::{Lock, LockType};
use mvcc_txn::txn_types::mutation::Mutation;
use mvcc_txn::txn_types::timestamp::TimeStamp;
use mvcc_txn::txn_types::write::{Write, WriteType};

fn t(ts: u64) -> TimeStamp {
    TimeStamp::new(ts)
}

fn key(k: &[u8]) -> Key {
    Key::from_raw(k)
}

fn new_txn(engine: &Engine, start_ts: u64) -> MvccTxn<'_> {
    MvccTxn::new(engine, t(start_ts), ConcurrencyManager::new(t(start_ts)))
}

fn put(k: &[u8], v: &[u8]) -> Mutation {
    Mutation::Put(key(k), v.to_vec())
}

fn try_prewrite(engine: &mut Engine, mutation: Mutation, pk: &[u8], ts: u64) -> Result<TimeStamp, Error> {
    let mut txn = new_txn(engine, ts);
    let res = prewrite(&mut txn, mutation, pk, &None, 0, 0, TimeStamp::zero(), false);
    let modifies = txn.into_modifies();
    if res.is_ok() {
        engine.write(modifies);
    } else {
        assert!(modifies.is_empty());
    }
    res
}

fn try_commit(engine: &mut Engine, k: &[u8], start_ts: u64, commit_ts: u64) -> Result<usize, Error> {
    let mut txn = new_txn(engine, start_ts);
    let res = commit(&mut txn, key(k), t(commit_ts));
    let modifies = txn.into_modifies();
    let n = modifies.len();
    if res.is_ok() {
        engine.write(modifies);
    } else {
        assert!(modifies.is_empty());
    }
    res.map(|_| n)
}

fn try_acquire(
    engine: &mut Engine,
    k: &[u8],
    start_ts: u64,
    for_update_ts: u64,
    should_not_exist: bool,
    need_value: bool,
) -> Result<(Option<Vec<u8>>, usize), Error> {
    let mut txn = new_txn(engine, start_ts);
    let res = acquire_pessimistic_lock(&mut txn, key(k), k, should_not_exist, 0, t(for_update_ts), need_value, t(0));
    let modifies = txn.into_modifies();
    let n = modifies.len();
    if res.is_ok() {
        engine.write(modifies);
    } else {
        assert!(modifies.is_empty());
    }
    res.map(|v| (v, n))
}

fn get(engine: &Engine, k: &[u8], ts: u64) -> Result<Option<Vec<u8>>, Error> {
    MvccReader::new(engine).get(&key(k), t(ts), false)
}

fn lock_of(engine: &Engine, k: &[u8]) -> Option<Lock> {
    MvccReader::new(engine).load_lock(&key(k))
}

#[test]
fn test_optimistic_commit() {
    // Prewrite k = v at 10, commit at 20: a read at 21 gives v, a read at 19
    // gives nothing.
    let mut engine = Engine::new();
    assert_eq!(try_prewrite(&mut engine, put(b"k", b"v"), b"k", 10).unwrap(), t(0));
    let lock = lock_of(&engine, b"k").unwrap();
    assert_eq!(lock.lock_type, LockType::Put);
    assert_eq!(lock.primary, b"k".to_vec());
    assert_eq!(lock.ts, t(10));
    assert_eq!(lock.short_value, Some(b"v".to_vec()));
    assert_eq!(lock.for_update_ts, t(0));
    assert_eq!(engine.lock_count(b"k"), 1);
    // The lock stands in the way of a reader after it, not of one before.
    match get(&engine, b"k", 15) {
        Err(Error::KeyIsLocked(info)) => assert_eq!(info.lock_version, 10),
        r => panic!("unexpected result: {:?}", r),
    }
    assert_eq!(get(&engine, b"k", 9).unwrap(), None);
    assert_eq!(try_commit(&mut engine, b"k", 10, 20).unwrap(), 2);
    assert!(lock_of(&engine, b"k").is_none());
    assert_eq!(engine.lock_count(b"k"), 0);
    assert_eq!(get(&engine, b"k", 21).unwrap(), Some(b"v".to_vec()));
    assert_eq!(get(&engine, b"k", 20).unwrap(), Some(b"v".to_vec()));
    assert_eq!(get(&engine, b"k", 19).unwrap(), None);
    let w = engine.get_write(b"k", t(20)).unwrap();
    assert_eq!(w.write_type, WriteType::Put);
    assert_eq!(w.start_ts, t(10));
    assert_eq!(w.short_value, Some(b"v".to_vec()));
    assert!(!w.has_overlapped_rollback);
}

#[test]
fn test_write_write_conflict() {
    let mut engine = Engine::new();
    try_prewrite(&mut engine, put(b"k", b"v"), b"k", 10).unwrap();
    try_commit(&mut engine, b"k", 10, 20).unwrap();
    match try_prewrite(&mut engine, put(b"k", b"w"), b"pk", 15) {
        Err(Error::WriteConflict { start_ts, conflict_start_ts, conflict_commit_ts, key, primary }) => {
            assert_eq!(start_ts, t(15));
            assert_eq!(conflict_start_ts, t(10));
            assert_eq!(conflict_commit_ts, t(20));
            assert_eq!(key, b"k".to_vec());
            assert_eq!(primary, b"pk".to_vec());
        }
        r => panic!("unexpected result: {:?}", r),
    }
    // A commit at the very start of the transaction is no conflict.
    try_prewrite(&mut engine, put(b"k", b"w"), b"k", 20).unwrap();
}

#[test]
fn test_pessimistic_lock_and_overlap() {
    let mut engine = Engine::new();
    let k = b"k";
    assert_eq!(try_acquire(&mut engine, k, 35, 36, false, false).unwrap(), (None, 1));
    assert_eq!(lock_of(&engine, k).unwrap().for_update_ts, t(36));
    // Again with the same parameters: nothing to write.
    assert_eq!(try_acquire(&mut engine, k, 35, 36, false, false).unwrap(), (None, 0));
    // A smaller for_update_ts leaves the lock; a larger one overwrites it.
    assert_eq!(try_acquire(&mut engine, k, 35, 35, false, false).unwrap(), (None, 0));
    assert_eq!(lock_of(&engine, k).unwrap().for_update_ts, t(36));
    assert_eq!(try_acquire(&mut engine, k, 35, 37, false, false).unwrap(), (None, 1));
    let lock = lock_of(&engine, k).unwrap();
    assert_eq!(lock.for_update_ts, t(37));
    assert_eq!(lock.lock_type, LockType::Pessimistic);
    assert_eq!(engine.lock_count(k), 1);
    // The lock is committed at 36, the start of another transaction.
    assert_eq!(try_commit(&mut engine, k, 35, 36).unwrap(), 2);
    let w = engine.get_write(k, t(36)).unwrap();
    assert_eq!(w.write_type, WriteType::Lock);
    assert_eq!(w.start_ts, t(35));
    assert!(!w.has_overlapped_rollback);
    // The rollback of that other transaction marks the record.
    let mut txn = new_txn(&engine, 36);
    assert!(rollback(&mut txn, key(k), false).unwrap().is_none());
    let modifies = txn.into_modifies();
    assert_eq!(modifies.len(), 1);
    engine.write(modifies);
    assert_eq!(engine.write_count(), 1);
    let w = engine.get_write(k, t(36)).unwrap();
    assert_eq!(w.write_type, WriteType::Lock);
    assert_eq!(w.start_ts, t(35));
    assert!(w.has_overlapped_rollback);
    match MvccReader::new(&engine).get_txn_commit_record(&key(k), t(36)) {
        TxnCommitRecord::OverlappedRollback { commit_ts } => assert_eq!(commit_ts, t(36)),
        r => panic!("unexpected record: {:?}", r),
    }
    // The transaction that started at 36 cannot lock the key any more.
    match try_acquire(&mut engine, k, 36, 40, false, false) {
        Err(Error::PessimisticLockRolledBack { start_ts, .. }) => assert_eq!(start_ts, t(36)),
        r => panic!("unexpected result: {:?}", r),
    }
}

#[test]
fn test_commit_twice() {
    let mut engine = Engine::new();
    try_prewrite(&mut engine, put(b"k", b"v"), b"k", 10).unwrap();
    assert_eq!(try_commit(&mut engine, b"k", 10, 20).unwrap(), 2);
    // The second commit succeeds and has nothing to write.
    assert_eq!(try_commit(&mut engine, b"k", 10, 20).unwrap(), 0);
    assert_eq!(engine.write_count(), 1);
    // A transaction without lock and record cannot be committed.
    match try_commit(&mut engine, b"k", 11, 21) {
        Err(Error::TxnLockNotFound { start_ts, commit_ts, key }) => {
            assert_eq!((start_ts, commit_ts), (t(11), t(21)));
            assert_eq!(key, b"k".to_vec());
        }
        r => panic!("unexpected result: {:?}", r),
    }
}

#[test]
fn test_commit_delete_and_long_value() {
    let mut engine = Engine::new();
    let long = vec![7u8; 256];
    try_prewrite(&mut engine, put(b"k", &long), b"k", 10).unwrap();
    assert_eq!(lock_of(&engine, b"k").unwrap().short_value, None);
    assert_eq!(engine.get_value(b"k", t(10)), Some(&long));
    try_commit(&mut engine, b"k", 10, 20).unwrap();
    assert_eq!(engine.get_write(b"k", t(20)).unwrap().short_value, None);
    assert_eq!(get(&engine, b"k", 20).unwrap(), Some(long.clone()));
    // A value of 255 bytes rides in the lock.
    let short = vec![8u8; 255];
    try_prewrite(&mut engine, put(b"s", &short), b"s", 10).unwrap();
    assert_eq!(lock_of(&engine, b"s").unwrap().short_value, Some(short));
    assert_eq!(engine.get_value(b"s", t(10)), None);
    // A delete hides the value from its commit on.
    try_prewrite(&mut engine, Mutation::Delete(key(b"k")), b"k", 30).unwrap();
    try_commit(&mut engine, b"k", 30, 40).unwrap();
    assert_eq!(get(&engine, b"k", 40).unwrap(), None);
    assert_eq!(get(&engine, b"k", 39).unwrap(), Some(long));
    // The value behind a record that is gone is missed.
    engine.write(vec![Modify::DeleteValue(b"k".to_vec(), t(10))]);
    match get(&engine, b"k", 39) {
        Err(Error::DefaultNotFound { key, start_ts }) => {
            assert_eq!(key, b"k".to_vec());
            assert_eq!(start_ts, t(10));
        }
        r => panic!("unexpected result: {:?}", r),
    }
}

#[test]
fn test_commit_ts_below_bound() {
    let mut engine = Engine::new();
    let mut txn = new_txn(&engine, 10);
    prewrite(&mut txn, put(b"k", b"v"), b"k", &None, 0, 0, t(30), false).unwrap();
    let modifies = txn.into_modifies();
    engine.write(modifies);
    match try_commit(&mut engine, b"k", 10, 29) {
        Err(Error::CommitTsExpired { start_ts, commit_ts, key, min_commit_ts }) => {
            assert_eq!((start_ts, commit_ts, min_commit_ts), (t(10), t(29), t(30)));
            assert_eq!(key, b"k".to_vec());
        }
        r => panic!("unexpected result: {:?}", r),
    }
    assert_eq!(try_commit(&mut engine, b"k", 10, 30).unwrap(), 2);
}

#[test]
fn test_commit_carries_rollback_on() {
    // A rollback at 20 under the lock of another transaction, which then
    // commits at 20.
    let mut engine = Engine::new();
    try_prewrite(&mut engine, put(b"k", b"v"), b"k", 10).unwrap();
    let mut txn = new_txn(&engine, 20);
    rollback(&mut txn, key(b"k"), true).unwrap();
    let modifies = txn.into_modifies();
    engine.write(modifies);
    assert!(engine.get_write(b"k", t(20)).unwrap().is_protected());
    try_commit(&mut engine, b"k", 10, 20).unwrap();
    let w = engine.get_write(b"k", t(20)).unwrap();
    assert_eq!(w.write_type, WriteType::Put);
    assert!(w.has_overlapped_rollback);
    match try_commit(&mut engine, b"k", 20, 25) {
        Err(Error::TxnLockNotFound { .. }) => (),
        r => panic!("unexpected result: {:?}", r),
    }
}

#[test]
fn test_prewrite_locked_and_repeated() {
    let mut engine = Engine::new();
    try_prewrite(&mut engine, put(b"k", b"v"), b"k", 10).unwrap();
    // Another transaction meets the lock.
    match try_prewrite(&mut engine, put(b"k", b"w"), b"k", 12) {
        Err(Error::KeyIsLocked(info)) => {
            assert_eq!(info.lock_version, 10);
            assert_eq!(info.key, b"k".to_vec());
        }
        r => panic!("unexpected result: {:?}", r),
    }
    // The same prewrite again changes nothing.
    let mut txn = new_txn(&engine, 10);
    assert_eq!(prewrite(&mut txn, put(b"k", b"x"), b"k", &None, 5, 0, t(0), false).unwrap(), t(0));
    assert!(txn.into_modifies().is_empty());
    assert_eq!(lock_of(&engine, b"k").unwrap().short_value, Some(b"v".to_vec()));
}

#[test]
fn test_lock_type_not_match() {
    let mut engine = Engine::new();
    try_acquire(&mut engine, b"k", 10, 10, false, false).unwrap();
    match try_prewrite(&mut engine, put(b"k", b"v"), b"k", 10) {
        Err(Error::LockTypeNotMatch { start_ts, key, pessimistic }) => {
            assert_eq!(start_ts, t(10));
            assert_eq!(key, b"k".to_vec());
            assert!(pessimistic);
        }
        r => panic!("unexpected result: {:?}", r),
    }
    let mut engine = Engine::new();
    try_prewrite(&mut engine, put(b"k", b"v"), b"k", 10).unwrap();
    match try_acquire(&mut engine, b"k", 10, 10, false, false) {
        Err(Error::LockTypeNotMatch { pessimistic, .. }) => assert!(!pessimistic),
        r => panic!("unexpected result: {:?}", r),
    }
}

#[test]
fn test_insert_and_should_not_exist() {
    let mut engine = Engine::new();
    try_prewrite(&mut engine, Mutation::Insert(key(b"k"), b"v".to_vec()), b"k", 10).unwrap();
    try_commit(&mut engine, b"k", 10, 20).unwrap();
    match try_prewrite(&mut engine, Mutation::Insert(key(b"k"), b"w".to_vec()), b"k", 30) {
        Err(Error::AlreadyExist { key }) => assert_eq!(key, b"k".to_vec()),
        r => panic!("unexpected result: {:?}", r),
    }
    match try_acquire(&mut engine, b"k", 30, 30, true, false) {
        Err(Error::AlreadyExist { key }) => assert_eq!(key, b"k".to_vec()),
        r => panic!("unexpected result: {:?}", r),
    }
    // A lock record over the put does not hide it.
    try_prewrite(&mut engine, Mutation::Lock(key(b"k")), b"k", 30).unwrap();
    try_commit(&mut engine, b"k", 30, 40).unwrap();
    assert!(matches!(try_acquire(&mut engine, b"k", 50, 50, true, false), Err(Error::AlreadyExist { .. })));
    // After a delete the key may be inserted again.
    try_prewrite(&mut engine, Mutation::Delete(key(b"k")), b"k", 50).unwrap();
    try_commit(&mut engine, b"k", 50, 60).unwrap();
    assert_eq!(try_acquire(&mut engine, b"k", 70, 70, true, true).unwrap(), (None, 1));
    let mut txn = new_txn(&engine, 70);
    pessimistic_rollback(&mut txn, key(b"k"), t(70)).unwrap();
    let modifies = txn.into_modifies();
    engine.write(modifies);
    try_prewrite(&mut engine, Mutation::Insert(key(b"k"), b"w".to_vec()), b"k", 80).unwrap();
}

#[test]
fn test_async_commit_prewrite() {
    let mut engine = Engine::new();
    let mut cm = ConcurrencyManager::new(t(10));
    cm.update_max_ts(t(50));
    let mut txn = MvccTxn::new(&engine, t(10), cm);
    let secondaries = Some(vec![b"k2".to_vec()]);
    let bound = prewrite(&mut txn, put(b"k", b"v"), b"k", &secondaries, 0, 1, t(20), false).unwrap();
    // max(min_commit_ts, max_ts + 1, for_update_ts + 1)
    assert_eq!(bound, t(51));
    let modifies = txn.into_modifies();
    engine.write(modifies);
    let lock = lock_of(&engine, b"k").unwrap();
    assert!(lock.use_async_commit);
    assert_eq!(lock.min_commit_ts, t(51));
    assert_eq!(lock.txn_size, 1);
    // The given bound is the largest.
    let mut txn = MvccTxn::new(&engine, t(10), ConcurrencyManager::new(t(10)));
    assert_eq!(prewrite(&mut txn, put(b"j", b"v"), b"k", &secondaries, 0, 1, t(70), false).unwrap(), t(70));
    // The pessimistic transaction counts its for_update_ts in.
    let mut txn = MvccTxn::new(&engine, t(10), ConcurrencyManager::new(t(10)));
    let r = pessimistic_prewrite(&mut txn, put(b"i", b"v"), b"k", &secondaries, false, 0, t(90), 1, t(70), false);
    assert_eq!(r.unwrap(), t(91));
    // A commit below the bound is refused.
    assert!(matches!(try_commit(&mut engine, b"k", 10, 50), Err(Error::CommitTsExpired { .. })));
    assert_eq!(try_commit(&mut engine, b"k", 10, 51).unwrap(), 2);
}

#[test]
fn test_one_phase_commit() {
    let mut engine = Engine::new();
    let mut cm = ConcurrencyManager::new(t(10));
    cm.update_max_ts(t(40));
    let mut txn = MvccTxn::new(&engine, t(10), cm);
    let long = vec![1u8; 300];
    let commit_ts = prewrite(&mut txn, put(b"k", &long), b"k", &None, 0, 0, t(20), true).unwrap();
    // max(for_update_ts, min_commit_ts, max_ts + 1)
    assert_eq!(commit_ts, t(41));
    let modifies = txn.into_modifies();
    assert_eq!(modifies.len(), 2);
    engine.write(modifies);
    // The record is there at once, without a lock.
    assert!(lock_of(&engine, b"k").is_none());
    let w = engine.get_write(b"k", t(41)).unwrap();
    assert_eq!(w.write_type, WriteType::Put);
    assert_eq!(w.start_ts, t(10));
    assert_eq!(get(&engine, b"k", 41).unwrap(), Some(long));
    assert_eq!(get(&engine, b"k", 40).unwrap(), None);
    // A delete in one phase, in a pessimistic transaction.
    try_acquire(&mut engine, b"k", 50, 60, false, false).unwrap();
    let mut txn = MvccTxn::new(&engine, t(50), ConcurrencyManager::new(t(50)));
    let r = pessimistic_prewrite(&mut txn, Mutation::Delete(key(b"k")), b"k", &None, true, 0, t(60), 0, t(0), true);
    assert_eq!(r.unwrap(), t(60));
    let modifies = txn.into_modifies();
    engine.write(modifies);
    assert_eq!(engine.get_write(b"k", t(60)).unwrap().write_type, WriteType::Delete);
    assert_eq!(get(&engine, b"k", 59).unwrap().map(|v| v.len()), Some(300));
}

#[test]
fn test_max_timestamp_not_synced() {
    let engine = Engine::new();
    let mut cm = ConcurrencyManager::new(t(10));
    cm.set_max_ts_synced(false);
    let mut txn = MvccTxn::new(&engine, t(10), cm);
    let secondaries = Some(vec![b"k2".to_vec()]);
    match prewrite(&mut txn, put(b"k", b"v"), b"k", &secondaries, 0, 0, t(0), false) {
        Err(Error::MaxTimestampNotSynced { start_ts }) => assert_eq!(start_ts, t(10)),
        r => panic!("unexpected result: {:?}", r),
    }
    assert!(matches!(
        prewrite(&mut txn, put(b"k", b"v"), b"k", &None, 0, 0, t(0), true),
        Err(Error::MaxTimestampNotSynced { .. })
    ));
    assert!(matches!(
        pessimistic_prewrite(&mut txn, put(b"k", b"v"), b"k", &secondaries, false, 0, t(10), 0, t(0), false),
        Err(Error::MaxTimestampNotSynced { .. })
    ));
    // A plain prewrite does not ask, nor one with an empty list of
    // secondary keys.
    assert!(prewrite(&mut txn, put(b"k", b"v"), b"k", &None, 0, 0, t(0), false).is_ok());
    assert_eq!(prewrite(&mut txn, put(b"j", b"v"), b"j", &Some(vec![]), 0, 0, t(5), false).unwrap(), t(5));
}

#[test]
fn test_pessimistic_prewrite() {
    let mut engine = Engine::new();
    // Without the pessimistic lock.
    let mut txn = new_txn(&engine, 10);
    match pessimistic_prewrite(&mut txn, put(b"k", b"v"), b"k", &None, true, 0, t(10), 0, t(0), false) {
        Err(Error::PessimisticLockNotFound { start_ts, key }) => {
            assert_eq!(start_ts, t(10));
            assert_eq!(key, b"k".to_vec());
        }
        r => panic!("unexpected result: {:?}", r),
    }
    // With the lock of another transaction.
    try_acquire(&mut engine, b"k", 5, 5, false, false).unwrap();
    let mut txn = new_txn(&engine, 10);
    assert!(matches!(
        pessimistic_prewrite(&mut txn, put(b"k", b"v"), b"k", &None, true, 0, t(10), 0, t(0), false),
        Err(Error::PessimisticLockNotFound { .. })
    ));
    assert!(matches!(
        pessimistic_prewrite(&mut txn, put(b"k", b"v"), b"k", &None, false, 0, t(10), 0, t(0), false),
        Err(Error::KeyIsLocked(_))
    ));
    // With its own: the lock is overwritten and keeps for_update_ts, the
    // longer time to live and the larger bound.
    let mut txn = new_txn(&engine, 20);
    acquire_pessimistic_lock(&mut txn, key(b"j"), b"j", false, 100, t(25), false, t(26)).unwrap();
    let modifies = txn.into_modifies();
    engine.write(modifies);
    let mut txn = new_txn(&engine, 20);
    let r = pessimistic_prewrite(&mut txn, put(b"j", b"v"), b"j", &None, true, 50, t(27), 0, t(22), false);
    assert_eq!(r.unwrap(), t(26));
    let modifies = txn.into_modifies();
    engine.write(modifies);
    let lock = lock_of(&engine, b"j").unwrap();
    assert_eq!(lock.lock_type, LockType::Put);
    assert_eq!(lock.for_update_ts, t(25));
    assert_eq!(lock.ttl, 100);
    assert_eq!(lock.min_commit_ts, t(26));
    assert_eq!(engine.lock_count(b"j"), 1);
}

#[test]
fn test_heart_beat_without_lock() {
    let engine = Engine::new();
    let mut txn = new_txn(&engine, 10);
    match txn_heart_beat(&mut txn, key(b"k"), 100) {
        Err(Error::TxnLockNotFound { start_ts, key, .. }) => {
            assert_eq!(start_ts, t(10));
            assert_eq!(key, b"k".to_vec());
        }
        r => panic!("unexpected result: {:?}", r),
    }
}

#[test]
fn test_missing_lock_actions() {
    let engine = Engine::new();
    let mut txn = new_txn(&engine, 10);
    match check_txn_status_missing_lock(&mut txn, key(b"k"), MissingLockAction::rollback(false)) {
        Err(Error::TxnNotFound { start_ts, key }) => {
            assert_eq!(start_ts, t(10));
            assert_eq!(key, b"k".to_vec());
        }
        r => panic!("unexpected result: {:?}", r),
    }
    assert_eq!(MissingLockAction::rollback(true), MissingLockAction::ProtectedRollback);
    assert_eq!(MissingLockAction::rollback_protect(true), MissingLockAction::ProtectedRollback);
    assert_eq!(MissingLockAction::rollback_protect(false), MissingLockAction::Rollback);
    let status = check_txn_status_missing_lock(&mut txn, key(b"k"), MissingLockAction::Rollback).unwrap();
    assert!(matches!(status, TxnStatus::LockNotExist));
    let modifies = txn.into_modifies();
    assert_eq!(modifies.len(), 1);
    match &modifies[0] {
        Modify::PutWrite(k, ts, w) => {
            assert_eq!(k, &b"k".to_vec());
            assert_eq!(*ts, t(10));
            assert_eq!(w.write_type, WriteType::Rollback);
            assert!(!w.is_protected());
        }
        m => panic!("unexpected change: {:?}", m),
    }
}

#[test]
fn test_lock_expiry() {
    let ts = TimeStamp::compose;
    assert!(!is_lock_expired(ts(10, 0), 100, ts(110, 0)));
    assert!(is_lock_expired(ts(10, 0), 100, ts(111, 0)));
    assert!(!is_lock_expired(ts(10, 5), 100, ts(110, 9)));
    assert!(!is_lock_expired(ts(10, 0), u64::MAX, ts(111, 0)));
    assert!(is_lock_expired(ts(0, 0), 0, ts(1, 0)));
}

#[test]
fn test_rollback_collapses_the_one_before() {
    let mut engine = Engine::new();
    let roll = |engine: &mut Engine, start_ts: u64, collapse: bool, protect: bool| {
        let mut txn = new_txn(engine, start_ts);
        txn.collapse_rollback(collapse);
        rollback(&mut txn, key(b"k"), protect).unwrap();
        let modifies = txn.into_modifies();
        engine.write(modifies);
    };
    roll(&mut engine, 10, true, false);
    roll(&mut engine, 20, true, false);
    assert!(engine.get_write(b"k", t(10)).is_none());
    assert!(engine.get_write(b"k", t(20)).is_some());
    roll(&mut engine, 30, false, false);
    assert!(engine.get_write(b"k", t(20)).is_some());
    roll(&mut engine, 40, true, true);
    assert!(engine.get_write(b"k", t(30)).is_none());
    assert!(engine.get_write(b"k", t(40)).unwrap().is_protected());
    // A protected rollback is not collapsed.
    roll(&mut engine, 50, true, false);
    assert!(engine.get_write(b"k", t(40)).is_some());
    assert_eq!(engine.write_count(), 3);
}

#[test]
fn test_prewrite_key_value_alone() {
    let engine = Engine::new();
    let mut txn = MvccTxn::new(&engine, t(10), ConcurrencyManager::new(t(12)));
    let r = prewrite_key_value(
        &mut txn,
        key(b"k"),
        LockType::Lock,
        b"pk",
        false,
        None,
        9,
        t(11),
        2,
        t(13),
        true,
    );
    assert_eq!(r, t(13));
    let modifies = txn.into_modifies();
    match &modifies[..] {
        [Modify::PutWrite(k, ts, w)] => {
            assert_eq!(k, &b"k".to_vec());
            assert_eq!(*ts, t(13));
            assert_eq!(w.write_type, WriteType::Lock);
            assert_eq!(w.start_ts, t(10));
        }
        m => panic!("unexpected changes: {:?}", m),
    }
}

#[test]
fn test_engine_batches() {
    let mut engine = Engine::new();
    let lock = Lock::new(LockType::Put, b"a".to_vec(), t(1), 0, None, t(0), 0, t(0));
    engine.write(vec![
        Modify::PutLock(b"b".to_vec(), lock.duplicate()),
        Modify::PutLock(b"a".to_vec(), lock.duplicate()),
        Modify::PutLock(b"b".to_vec(), Lock::new(LockType::Delete, b"a".to_vec(), t(2), 0, None, t(0), 0, t(0))),
        Modify::PutWrite(b"a".to_vec(), t(5), Write::new(WriteType::Put, t(4), None)),
        Modify::PutWrite(b"a".to_vec(), t(9), Write::new(WriteType::Delete, t(8), None)),
        Modify::PutWrite(b"".to_vec(), t(9), Write::new(WriteType::Lock, t(8), None)),
        Modify::PutValue(b"a".to_vec(), t(4), b"value".to_vec()),
        Modify::DeleteLock(b"a".to_vec()),
        Modify::DeleteLock(b"c".to_vec()),
    ]);
    assert_eq!(engine.lock_count(b"a"), 0);
    assert_eq!(engine.lock_count(b"b"), 1);
    assert_eq!(engine.load_lock(b"b").unwrap().lock_type, LockType::Delete);
    // The write column family stands in order: by key, newest version first.
    let order: Vec<(Vec<u8>, u64)> = (0..engine.write_count())
        .map(|i| {
            let e = engine.write_entry(i);
            (e.key.clone(), e.ts)
        })
        .collect();
    assert_eq!(order, vec![(b"".to_vec(), 9), (b"a".to_vec(), 9), (b"a".to_vec(), 5)]);
    assert_eq!(engine.seek_write_entry(b"a", t(7)), 2);
    assert_eq!(engine.seek_write_entry(b"a", t(3)), 3);
    assert_eq!(engine.seek_write(b"a", t(8)).unwrap().0, t(5));
    assert_eq!(engine.seek_write(b"a", TimeStamp::max()).unwrap().0, t(9));
    assert!(engine.seek_write(b"a", t(4)).is_none());
    assert!(engine.seek_write(b"b", TimeStamp::max()).is_none());
    assert_eq!(engine.get_value(b"a", t(4)), Some(&b"value".to_vec()));
    engine.write(vec![Modify::DeleteWrite(b"a".to_vec(), t(9)), Modify::DeleteValue(b"a".to_vec(), t(4))]);
    assert_eq!(engine.seek_write(b"a", TimeStamp::max()).unwrap().0, t(5));
    assert_eq!(engine.get_value(b"a", t(4)), None);
}

#[test]
fn test_error_codes() {
    let ts = t(1);
    let k = || b"k".to_vec();
    let lock = Lock::new(LockType::Put, k(), ts, 0, None, ts, 0, ts);
    let errors = vec![
        Error::KeyIsLocked(lock.into_lock_info(k())),
        Error::LockTypeNotMatch { start_ts: ts, key: k(), pessimistic: true },
        Error::WriteConflict { start_ts: ts, conflict_start_ts: ts, conflict_commit_ts: ts, key: k(), primary: k() },
        Error::PessimisticLockRolledBack { start_ts: ts, key: k() },
        Error::PessimisticLockNotFound { start_ts: ts, key: k() },
        Error::AlreadyExist { key: k() },
        Error::TxnLockNotFound { start_ts: ts, commit_ts: ts, key: k() },
        Error::TxnNotFound { start_ts: ts, key: k() },
        Error::Committed { commit_ts: ts },
        Error::CommitTsExpired { start_ts: ts, commit_ts: ts, key: k(), min_commit_ts: ts },
        Error::MaxTimestampNotSynced { start_ts: ts },
        Error::KeyTooLarge { size: 2, limit: 1 },
        Error::DefaultNotFound { key: k(), start_ts: ts },
    ];
    let codes: Vec<u32> = errors.iter().map(|e| e.code()).collect();
    assert_eq!(codes, (1..=13).collect::<Vec<u32>>());
    // The code does not depend on what the failure carries.
    assert_eq!(Error::Committed { commit_ts: t(99) }.code(), 9);
    assert_eq!(Error::AlreadyExist { key: vec![] }.code(), 6);
}

#[test]
fn test_actions_note_timestamps() {
    let engine = Engine::new();
    let txn_at = |start_ts: u64, seen: u64| MvccTxn::new(&engine, t(start_ts), ConcurrencyManager::new(t(seen)));
    // The start is noted when the transaction is made.
    assert_eq!(txn_at(10, 5).concurrency_manager.max_ts(), t(10));
    assert_eq!(txn_at(10, 50).concurrency_manager.max_ts(), t(50));
    // A cleanup notes the current time, and never lowers what was seen.
    let mut txn = txn_at(10, 5);
    cleanup(&mut txn, key(b"k"), t(30), true).unwrap();
    assert_eq!(txn.concurrency_manager.max_ts(), t(30));
    cleanup(&mut txn, key(b"k"), t(20), true).unwrap();
    assert_eq!(txn.concurrency_manager.max_ts(), t(30));
    rollback(&mut txn, key(b"j"), false).unwrap();
    assert_eq!(txn.concurrency_manager.max_ts(), t(30));
    // A commit notes the commit timestamp, also where it fails.
    let mut txn = txn_at(10, 5);
    assert!(commit(&mut txn, key(b"k"), t(40)).is_err());
    assert_eq!(txn.concurrency_manager.max_ts(), t(40));
    // Taking a lock notes for_update_ts and min_commit_ts.
    let mut txn = txn_at(10, 5);
    acquire_pessimistic_lock(&mut txn, key(b"k"), b"k", false, 0, t(12), false, t(15)).unwrap();
    assert_eq!(txn.concurrency_manager.max_ts(), t(15));
    let mut txn = txn_at(10, 5);
    acquire_pessimistic_lock(&mut txn, key(b"k"), b"k", false, 0, t(22), false, t(15)).unwrap();
    assert_eq!(txn.concurrency_manager.max_ts(), t(22));
    pessimistic_rollback(&mut txn, key(b"k"), t(25));
    assert_eq!(txn.concurrency_manager.max_ts(), t(25));
    // A prewrite reckons from what was seen before it and notes its bound.
    let mut txn = txn_at(10, 5);
    assert_eq!(prewrite(&mut txn, put(b"k", b"v"), b"k", &None, 0, 0, t(70), true).unwrap(), t(70));
    assert_eq!(txn.concurrency_manager.max_ts(), t(70));
    let mut txn = txn_at(10, 5);
    let secondaries = Some(vec![b"j".to_vec()]);
    let r = pessimistic_prewrite(&mut txn, put(b"k", b"v"), b"k", &secondaries, false, 0, t(80), 0, t(60), false);
    assert_eq!(r.unwrap(), t(81));
    assert_eq!(txn.concurrency_manager.max_ts(), t(80));
    // The check of a status notes the caller's start and the current time.
    let mut txn = txn_at(10, 5);
    check_txn_status(&mut txn, key(b"k"), t(33), t(31));
    assert_eq!(txn.concurrency_manager.max_ts(), t(33));
    // A heart beat brings no timestamp.
    let mut txn = txn_at(10, 5);
    assert!(txn_heart_beat(&mut txn, key(b"k"), 100).is_err());
    assert_eq!(txn.concurrency_manager.max_ts(), t(10));
    assert!(txn.concurrency_manager.is_max_ts_synced());
}
