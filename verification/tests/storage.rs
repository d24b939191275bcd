use mvcc_txn::storage::mvcc::error::Error;
use mvcc_txn::storage::store::Storage;
use mvcc_txn::storage::txn::actions::check_txn_status::TxnStatus;
use mvcc_txn::txn_types::key::Key;
use mvcc_txn::txn_types::mutation::Mutation;
use mvcc_txn::txn_types::timestamp::TimeStamp;

fn t(ts: u64) -> TimeStamp {
    TimeStamp::new(ts)
}

fn key(k: &[u8]) -> Key {
    Key::from_raw(k)
}

fn put(k: &[u8], v: &[u8]) -> Mutation {
    Mutation::Put(key(k), v.to_vec())
}

#[test]
fn test_storage_commit_and_read() {
    let mut store = Storage::new(t(1), 4096);
    assert_eq!(store.prewrite(put(b"k", b"v"), b"k", &None, t(10), 0, 0, t(0), false).unwrap(), t(0));
    assert_eq!(store.concurrency_manager.max_ts(), t(10));
    assert!(store.commit(key(b"k"), t(10), t(20)).unwrap().is_some());
    assert_eq!(store.concurrency_manager.max_ts(), t(20));
    assert_eq!(store.get(&key(b"k"), t(21)).unwrap(), Some(b"v".to_vec()));
    assert_eq!(store.get(&key(b"k"), t(19)).unwrap(), None);
    // A read notes its timestamp, and nothing lowers the largest one.
    assert_eq!(store.concurrency_manager.max_ts(), t(21));
    assert!(store.commit(key(b"k"), t(10), t(20)).unwrap().is_none());
    assert_eq!(store.concurrency_manager.max_ts(), t(21));
}

#[test]
fn test_storage_refuses_long_keys() {
    let mut store = Storage::new(t(1), 4);
    match store.prewrite(put(b"12345", b"v"), b"k", &None, t(10), 0, 0, t(0), false) {
        Err(Error::KeyTooLarge { size, limit }) => assert_eq!((size, limit), (5, 4)),
        r => panic!("unexpected result: {:?}", r),
    }
    assert!(matches!(
        store.pessimistic_prewrite(put(b"12345", b"v"), b"k", &None, false, t(10), 0, t(10), 0, t(0), false),
        Err(Error::KeyTooLarge { .. })
    ));
    assert_eq!(store.engine.lock_count(b"12345"), 0);
    assert!(store.prewrite(put(b"1234", b"v"), b"k", &None, t(10), 0, 0, t(0), false).is_ok());
    assert_eq!(store.engine.lock_count(b"1234"), 1);
}

#[test]
fn test_storage_failure_writes_nothing() {
    let mut store = Storage::new(t(1), 4096);
    store.prewrite(put(b"k", b"v"), b"k", &None, t(10), 0, 0, t(0), false).unwrap();
    assert!(matches!(store.prewrite(put(b"k", b"w"), b"k", &None, t(12), 0, 0, t(0), false), Err(Error::KeyIsLocked(_))));
    assert!(matches!(store.commit(key(b"k"), t(12), t(13)), Err(Error::TxnLockNotFound { .. })));
    assert!(matches!(store.acquire_pessimistic_lock(key(b"k"), b"k", t(12), false, 0, t(12), false, t(0)), Err(Error::KeyIsLocked(_))));
    assert_eq!(store.engine.load_lock(b"k").unwrap().ts, t(10));
    assert_eq!(store.engine.write_count(), 0);
    // The timestamps were noted all the same.
    assert_eq!(store.concurrency_manager.max_ts(), t(13));
}

#[test]
fn test_storage_one_phase_after_the_largest_timestamp() {
    let mut store = Storage::new(t(100), 4096);
    let commit_ts = store.prewrite(put(b"k", b"v"), b"k", &None, t(10), 0, 0, t(0), true).unwrap();
    assert_eq!(commit_ts, t(101));
    assert_eq!(store.get(&key(b"k"), t(101)).unwrap(), Some(b"v".to_vec()));
    // The start itself counts as seen.
    let mut store = Storage::new(t(1), 4096);
    let commit_ts = store.prewrite(put(b"k", b"v"), b"k", &None, t(10), 0, 0, t(0), true).unwrap();
    assert_eq!(commit_ts, t(11));
    let bound = store.prewrite(put(b"j", b"v"), b"j", &Some(vec![b"i".to_vec()]), t(20), 0, 0, t(0), false).unwrap();
    assert_eq!(bound, t(21));
}

#[test]
fn test_storage_pessimistic_round() {
    let mut store = Storage::new(t(1), 4096);
    assert_eq!(store.acquire_pessimistic_lock(key(b"k"), b"k", t(10), false, 50, t(12), true, t(0)).unwrap(), None);
    assert_eq!(store.txn_heart_beat(key(b"k"), t(10), 80).unwrap(), 80);
    assert_eq!(store.txn_heart_beat(key(b"k"), t(10), 60).unwrap(), 80);
    assert!(store.pessimistic_rollback(key(b"k"), t(10), t(11)).is_none());
    assert!(store.pessimistic_rollback(key(b"k"), t(10), t(12)).is_some());
    assert_eq!(store.engine.lock_count(b"k"), 0);
    store.acquire_pessimistic_lock(key(b"k"), b"k", t(20), false, 0, t(22), false, t(0)).unwrap();
    store.pessimistic_prewrite(put(b"k", b"v"), b"k", &None, true, t(20), 0, t(22), 0, t(0), false).unwrap();
    let (status, released) = store.check_txn_status(key(b"k"), t(20), t(30), TimeStamp::compose(1, 0));
    assert!(matches!(status, TxnStatus::TtlExpire));
    assert!(released.unwrap().pessimistic);
    assert!(store.engine.get_write(b"k", t(20)).unwrap().is_protected());
    assert!(store.rollback(key(b"k"), t(20), false).unwrap().is_none());
    assert!(store.cleanup(key(b"k"), t(20), t(0), true).unwrap().is_none());
    assert_eq!(store.engine.write_count(), 1);
    assert_eq!(store.gc_by_compact(0), (0, 0, 0));
    assert_eq!(store.gc_by_compact(1000), (1, 0, 0));
    assert_eq!(store.engine.write_count(), 1);
}
