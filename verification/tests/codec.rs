use mvcc_txn::concurrency_manager::ConcurrencyManager;
use mvcc_txn::txn_types::codec::{decode_var_u64, encode_var_u64};
use mvcc_txn::txn_types::key::{decode_u64_desc, encode_u64_desc, Key, KeyError};
use mvcc_txn::txn_types::lock::{Lock, LockType};
use mvcc_txn::txn_types::order::{bytes_equal, bytes_less, version_before};
use mvcc_txn::txn_types::timestamp::TimeStamp;
use mvcc_txn::txn_types::write::{Write, WriteType};
use mvcc_txn::txn_types::write_codec::BadFormat;

#[test]
fn test_timestamp_parts() {
    let ts = TimeStamp::compose(10, 1);
    assert_eq!(ts.into_inner(), (10 << 18) + 1);
    assert_eq!(ts.physical(), 10);
    assert_eq!(ts.logical(), 1);
    assert_eq!(TimeStamp::compose(0, 0), TimeStamp::zero());
    assert!(TimeStamp::zero().is_zero());
    assert!(TimeStamp::max().is_max());
    assert_eq!(TimeStamp::max().into_inner(), u64::MAX);
    assert_eq!(TimeStamp::new(7).next(), TimeStamp::new(8));
    assert_eq!(TimeStamp::new(7).prev(), TimeStamp::new(6));
    let top = TimeStamp::compose((1 << 46) - 1, (1 << 18) - 1);
    assert_eq!(top.into_inner(), u64::MAX);
    assert_eq!(top.physical(), (1 << 46) - 1);
    assert_eq!(top.logical(), (1 << 18) - 1);
}

#[test]
fn test_max_ts_never_decreases() {
    let mut cm = ConcurrencyManager::new(TimeStamp::new(10));
    assert_eq!(cm.max_ts(), TimeStamp::new(10));
    assert!(cm.is_max_ts_synced());
    let mut last = 10;
    for ts in [5u64, 10, 11, 3, 100, 99, 100, 0, u64::MAX, 7] {
        cm.update_max_ts(TimeStamp::new(ts));
        let now = cm.max_ts().into_inner();
        assert!(now >= last);
        assert_eq!(now, last.max(ts));
        last = now;
    }
    cm.set_max_ts_synced(false);
    assert!(!cm.is_max_ts_synced());
    assert_eq!(cm.max_ts().into_inner(), u64::MAX);
}

#[test]
fn test_versioned_key() {
    let key = Key::from_raw(b"k").append_ts(TimeStamp::new(5));
    // The timestamp is written as the bytes of its complement.
    assert_eq!(key.as_encoded(), &vec![b'k', 0xff, 0xff, 0xff, 0xff, 0xff, 0xff, 0xff, 0xfa]);
    assert_eq!(key.decode_ts().unwrap(), TimeStamp::new(5));
    let (user_key, ts) = Key::split_on_ts_for(key.as_encoded()).unwrap();
    assert_eq!(user_key, b"k");
    assert_eq!(ts, TimeStamp::new(5));
    assert_eq!(Key::truncate_ts_for(key.as_encoded()).unwrap(), b"k");
    assert!(Key::is_user_key_eq(key.as_encoded(), b"k"));
    assert!(!Key::is_user_key_eq(key.as_encoded(), b"j"));
    assert_eq!(key.truncate_ts().unwrap().into_raw(), b"k".to_vec());
    // A key without room for a timestamp.
    assert_eq!(Key::split_on_ts_for(b"1234567").unwrap_err(), KeyError::KeyLength);
    assert_eq!(Key::truncate_ts_for(b"").unwrap_err(), KeyError::KeyLength);
    assert_eq!(Key::decode_ts_from(b"abc").unwrap_err(), KeyError::KeyLength);
    assert!(Key::from_raw(b"1234567").truncate_ts().is_err());
    // Eight bytes are a timestamp under the empty key.
    let (user_key, ts) = Key::split_on_ts_for(&[0u8; 8]).unwrap();
    assert!(user_key.is_empty());
    assert_eq!(ts, TimeStamp::max());
}

#[test]
fn test_newer_versions_sort_first() {
    let at = |ts: u64| Key::from_raw(b"key").append_ts(TimeStamp::new(ts)).into_encoded();
    let stamps = [0u64, 1, 2, 255, 256, 65535, 1 << 32, (1 << 32) + 1, u64::MAX - 1, u64::MAX];
    for a in stamps {
        for b in stamps {
            assert_eq!(at(a) < at(b), a > b);
            assert_eq!(bytes_less(&at(a), &at(b)), a > b);
            assert_eq!(version_before(b"key", a, b"key", b), a > b);
        }
        let mut out = Vec::new();
        encode_u64_desc(&mut out, a);
        assert_eq!(out, (!a).to_be_bytes().to_vec());
        assert_eq!(decode_u64_desc(&out), a);
    }
    assert!(version_before(b"a", 1, b"b", 9));
    assert!(!version_before(b"b", 9, b"a", 1));
    assert!(!version_before(b"a", 1, b"a", 1));
}

#[test]
fn test_byte_order() {
    assert!(bytes_less(b"", b"a"));
    assert!(bytes_less(b"a", b"ab"));
    assert!(bytes_less(b"ab", b"b"));
    assert!(bytes_less(&[1, 255], &[2]));
    assert!(!bytes_less(b"a", b"a"));
    assert!(!bytes_less(b"b", b"ab"));
    assert!(!bytes_less(b"", b""));
    assert!(bytes_equal(b"abc", b"abc"));
    assert!(!bytes_equal(b"abc", b"abd"));
    assert!(!bytes_equal(b"abc", b"ab"));
    assert!(bytes_equal(b"", b""));
}

#[test]
fn test_var_u64() {
    let cases: [(u64, &[u8]); 8] = [
        (0, &[0]),
        (1, &[1]),
        (127, &[127]),
        (128, &[0x80, 1]),
        (300, &[0xac, 2]),
        (16383, &[0xff, 0x7f]),
        (16384, &[0x80, 0x80, 1]),
        (u64::MAX, &[0xff, 0xff, 0xff, 0xff, 0xff, 0xff, 0xff, 0xff, 0xff, 1]),
    ];
    for (v, bytes) in cases {
        let mut out = vec![9u8];
        encode_var_u64(&mut out, v);
        assert_eq!(&out[1..], bytes);
        assert_eq!(decode_var_u64(&out, 1), Some((v, out.len())));
        out.push(5);
        assert_eq!(decode_var_u64(&out, 1), Some((v, out.len() - 1)));
    }
    // The bytes end too early.
    assert_eq!(decode_var_u64(&[0x80], 0), None);
    assert_eq!(decode_var_u64(&[1], 1), None);
    // A needless zero at the end.
    assert_eq!(decode_var_u64(&[0x80, 0], 0), None);
    // Too large for 64 bits.
    assert_eq!(decode_var_u64(&[0xff, 0xff, 0xff, 0xff, 0xff, 0xff, 0xff, 0xff, 0xff, 2], 0), None);
    assert_eq!(decode_var_u64(&[0x80, 0x80, 0x80, 0x80, 0x80, 0x80, 0x80, 0x80, 0x80, 0x80, 1], 0), None);
}

#[test]
fn test_write_bytes() {
    let w = Write::new(WriteType::Put, TimeStamp::new(300), Some(b"ab".to_vec()));
    assert_eq!(w.to_bytes(), vec![b'P', 0xac, 2, b'v', 2, b'a', b'b']);
    let w = Write::new(WriteType::Delete, TimeStamp::new(1), None).set_overlapped_rollback(true);
    assert_eq!(w.to_bytes(), vec![b'D', 1, b'R']);
    assert_eq!(Write::new(WriteType::Lock, TimeStamp::new(0), None).to_bytes(), vec![b'L', 0]);
    assert_eq!(Write::new_rollback(TimeStamp::new(5), false).to_bytes(), vec![b'R', 5]);
    assert_eq!(Write::new_rollback(TimeStamp::new(5), true).to_bytes(), vec![b'R', 5, b'v', 1, b'p']);
    assert!(Write::new_rollback(TimeStamp::new(5), true).is_protected());
    assert!(!Write::new_rollback(TimeStamp::new(5), false).is_protected());
    assert!(!Write::new(WriteType::Put, TimeStamp::new(5), Some(b"p".to_vec())).is_protected());
    assert!(!Write::new(WriteType::Put, TimeStamp::new(1), Some(vec![0; 256])).is_encodable());
    assert!(Write::new(WriteType::Put, TimeStamp::new(1), Some(vec![0; 255])).is_encodable());
}

#[test]
fn test_write_round_trip() {
    let types = [WriteType::Put, WriteType::Delete, WriteType::Lock, WriteType::Rollback];
    let values: [Option<Vec<u8>>; 5] =
        [None, Some(vec![]), Some(b"R".to_vec()), Some(b"vv".to_vec()), Some(vec![b'v'; 255])];
    for t in types {
        for ts in [0u64, 1, 127, 128, 1 << 40, u64::MAX] {
            for value in &values {
                for flag in [false, true] {
                    let w = Write::new(t, TimeStamp::new(ts), value.clone()).set_overlapped_rollback(flag);
                    let back = Write::parse(&w.to_bytes()).unwrap();
                    assert_eq!(back.write_type, t);
                    assert_eq!(back.start_ts, TimeStamp::new(ts));
                    assert_eq!(&back.short_value, value);
                    assert_eq!(back.has_overlapped_rollback, flag);
                    let copy = w.duplicate();
                    assert_eq!(copy.to_bytes(), w.to_bytes());
                }
            }
        }
    }
}

#[test]
fn test_write_parse_refuses() {
    let bad: [&[u8]; 9] = [
        &[],
        &[b'X', 1],
        &[b'P'],
        &[b'P', 0x80],
        &[b'P', 1, b'v'],
        &[b'P', 1, b'v', 2, b'a'],
        &[b'P', 1, b'R', b'R'],
        &[b'P', 1, b'x'],
        &[b'P', 1, b'R', b'v', 0],
    ];
    for bytes in bad {
        assert_eq!(Write::parse(bytes).unwrap_err(), BadFormat);
    }
    assert_eq!(WriteType::from_u8(b'P'), Some(WriteType::Put));
    assert_eq!(WriteType::from_u8(b'p'), None);
    assert_eq!(WriteType::Rollback.to_u8(), b'R');
    assert_eq!(WriteType::from_lock_type(LockType::Put), Some(WriteType::Put));
    assert_eq!(WriteType::from_lock_type(LockType::Pessimistic), None);
}

#[test]
fn test_lock_info() {
    let lock = Lock::new(
        LockType::Put,
        b"pk".to_vec(),
        TimeStamp::new(10),
        20,
        Some(b"v".to_vec()),
        TimeStamp::new(11),
        3,
        TimeStamp::new(12),
    );
    assert!(lock.is_pessimistic_txn());
    let copy = lock.duplicate();
    let info = lock.into_lock_info(b"k".to_vec());
    assert_eq!(info.primary_lock, b"pk".to_vec());
    assert_eq!(info.key, b"k".to_vec());
    assert_eq!(info.lock_version, 10);
    assert_eq!(info.lock_ttl, 20);
    assert_eq!(info.lock_for_update_ts, 11);
    assert_eq!(info.txn_size, 3);
    assert_eq!(info.min_commit_ts, 12);
    assert_eq!(info.lock_type, LockType::Put);
    assert!(!info.use_async_commit);
    assert_eq!(copy.short_value, Some(b"v".to_vec()));
}
