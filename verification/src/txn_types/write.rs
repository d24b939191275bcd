//! Write records: what a transaction leaves in the write column family when it
//! commits or is rolled back.

use vstd::prelude::*;
use crate::txn_types::bytes::{clone_opt_bytes, opt_view};
use crate::txn_types::lock::LockType;
use crate::txn_types::timestamp::TimeStamp;

verus! {

/// Longest value that is kept inside a record.
pub const SHORT_VALUE_MAX_LEN: usize = 255;

/// The byte that a protected rollback carries as its short value.
pub const PROTECTED_ROLLBACK_BYTE: u8 = 112;

/// Kind of a write record.
#[derive(Clone, Copy, Debug, PartialEq, Eq, Structural)]
pub enum WriteType {
    Put,
    Delete,
    Lock,
    Rollback,
}

/// A write record as a mathematical value.
pub struct WriteView {
    pub write_type: WriteType,
    pub start_ts: u64,
    pub short_value: Option<Seq<u8>>,
    pub has_overlapped_rollback: bool,
}

impl WriteView {
    /// Whether this is a rollback that garbage collection must keep.
    pub open spec fn is_protected(self) -> bool {
        self.write_type == WriteType::Rollback && self.short_value == Some(
            seq![PROTECTED_ROLLBACK_BYTE],
        )
    }

    /// Whether this record says that the transaction with its start timestamp
    /// wrote or removed the key.
    pub open spec fn is_data(self) -> bool {
        self.write_type == WriteType::Put || self.write_type == WriteType::Delete
    }

    /// The rollback record of a transaction.
    pub open spec fn rollback(start_ts: u64, protected: bool) -> WriteView {
        WriteView {
            write_type: WriteType::Rollback,
            start_ts,
            short_value: if protected {
                Some(seq![PROTECTED_ROLLBACK_BYTE])
            } else {
                None
            },
            has_overlapped_rollback: false,
        }
    }

    /// This record with its overlapped-rollback flag set to `flag`.
    pub open spec fn with_overlapped_rollback(self, flag: bool) -> WriteView {
        WriteView { has_overlapped_rollback: flag, ..self }
    }
}

/// A write record.
#[derive(Debug)]
pub struct Write {
    pub write_type: WriteType,
    pub start_ts: TimeStamp,
    pub short_value: Option<Vec<u8>>,
    pub has_overlapped_rollback: bool,
}

impl View for Write {
    type V = WriteView;

    open spec fn view(&self) -> WriteView {
        WriteView {
            write_type: self.write_type,
            start_ts: self.start_ts@,
            short_value: opt_view(self.short_value),
            has_overlapped_rollback: self.has_overlapped_rollback,
        }
    }
}

/// The kind of record that committing a lock of kind `lock_type` writes, if
/// such a lock can be committed as it is.
pub open spec fn write_type_of_lock(lock_type: LockType) -> Option<WriteType> {
    match lock_type {
        LockType::Put => Some(WriteType::Put),
        LockType::Delete => Some(WriteType::Delete),
        LockType::Lock => Some(WriteType::Lock),
        LockType::Pessimistic => None,
    }
}

impl WriteType {
    /// The kind of record that committing a lock of kind `lock_type` writes.
    pub fn from_lock_type(lock_type: LockType) -> (r: Option<WriteType>)
        ensures
            r == write_type_of_lock(lock_type),
    {
        match lock_type {
            LockType::Put => Some(WriteType::Put),
            LockType::Delete => Some(WriteType::Delete),
            LockType::Lock => Some(WriteType::Lock),
            LockType::Pessimistic => None,
        }
    }
}

impl Write {
    /// A record without the overlapped-rollback flag.
    pub fn new(write_type: WriteType, start_ts: TimeStamp, short_value: Option<Vec<u8>>) -> (w:
        Write)
        ensures
            w@ == (WriteView {
                write_type,
                start_ts: start_ts@,
                short_value: opt_view(short_value),
                has_overlapped_rollback: false,
            }),
    {
        Write { write_type, start_ts, short_value, has_overlapped_rollback: false }
    }

    /// The rollback record of the transaction that started at `start_ts`.
    pub fn new_rollback(start_ts: TimeStamp, protected: bool) -> (w: Write)
        ensures
            w@ == WriteView::rollback(start_ts@, protected),
    {
        let short_value = if protected {
            let mut v: Vec<u8> = Vec::new();
            v.push(PROTECTED_ROLLBACK_BYTE);
            assert(v@ =~= seq![PROTECTED_ROLLBACK_BYTE]);
            Some(v)
        } else {
            None
        };
        Write { write_type: WriteType::Rollback, start_ts, short_value, has_overlapped_rollback: false }
    }

    /// This record with its overlapped-rollback flag set to `flag`.
    pub fn set_overlapped_rollback(self, flag: bool) -> (w: Write)
        ensures
            w@ == self@.with_overlapped_rollback(flag),
    {
        Write {
            write_type: self.write_type,
            start_ts: self.start_ts,
            short_value: self.short_value,
            has_overlapped_rollback: flag,
        }
    }

    /// Whether this is a rollback that garbage collection must keep.
    pub fn is_protected(&self) -> (r: bool)
        ensures
            r == self@.is_protected(),
    {
        if self.write_type != WriteType::Rollback {
            return false;
        }
        match &self.short_value {
            Some(v) => {
                let r = v.len() == 1 && v[0] == PROTECTED_ROLLBACK_BYTE;
                assert(r == (v@ == seq![PROTECTED_ROLLBACK_BYTE])) by {
                    if r {
                        assert(v@ =~= seq![PROTECTED_ROLLBACK_BYTE]);
                    } else if v@ == seq![PROTECTED_ROLLBACK_BYTE] {
                        assert(seq![PROTECTED_ROLLBACK_BYTE].len() == 1);
                        assert(seq![PROTECTED_ROLLBACK_BYTE][0] == PROTECTED_ROLLBACK_BYTE);
                    }
                }
                r
            },
            None => false,
        }
    }

    /// A copy of this record.
    pub fn duplicate(&self) -> (w: Write)
        ensures
            w@ == self@,
    {
        Write {
            write_type: self.write_type,
            start_ts: self.start_ts,
            short_value: clone_opt_bytes(&self.short_value),
            has_overlapped_rollback: self.has_overlapped_rollback,
        }
    }
}

} // verus!
