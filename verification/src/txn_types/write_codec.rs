//! Write records as bytes: a byte for the kind, the start timestamp as a
//! number of variable length, then the short value if there is one (a mark,
//! its length, its bytes) and a mark if the record carries a rollback.

use vstd::prelude::*;
use vstd::slice::slice_subrange;
use crate::txn_types::bytes::clone_bytes;
use crate::txn_types::codec::{
    decode_var_u64,
    encode_var_u64,
    lemma_parse_var_bounds,
    lemma_parse_var_sound,
    lemma_var_bytes_len,
    lemma_var_roundtrip,
    parse_var,
    var_bytes,
};
use crate::txn_types::timestamp::TimeStamp;
use crate::txn_types::write::{Write, WriteType, WriteView, SHORT_VALUE_MAX_LEN};

verus! {

pub const FLAG_PUT: u8 = 80;

pub const FLAG_DELETE: u8 = 68;

pub const FLAG_LOCK: u8 = 76;

pub const FLAG_ROLLBACK: u8 = 82;

/// Stands before a short value.
pub const SHORT_VALUE_PREFIX: u8 = 118;

/// Says that the record carries the rollback of another transaction.
pub const FLAG_OVERLAPPED_ROLLBACK: u8 = 82;

/// The byte that stands for a kind of record.
pub open spec fn type_flag(t: WriteType) -> u8 {
    match t {
        WriteType::Put => FLAG_PUT,
        WriteType::Delete => FLAG_DELETE,
        WriteType::Lock => FLAG_LOCK,
        WriteType::Rollback => FLAG_ROLLBACK,
    }
}

/// The kind of record that a byte stands for.
pub open spec fn flag_type(b: u8) -> Option<WriteType> {
    if b == FLAG_PUT {
        Some(WriteType::Put)
    } else if b == FLAG_DELETE {
        Some(WriteType::Delete)
    } else if b == FLAG_LOCK {
        Some(WriteType::Lock)
    } else if b == FLAG_ROLLBACK {
        Some(WriteType::Rollback)
    } else {
        None
    }
}

/// Whether the record can be written as bytes: its short value, if any, has
/// a length that fits in a byte.
pub open spec fn encodable(w: WriteView) -> bool {
    w.short_value matches Some(v) ==> v.len() <= SHORT_VALUE_MAX_LEN
}

/// The bytes of the short value with its mark and length.
pub open spec fn short_value_bytes(v: Option<Seq<u8>>) -> Seq<u8> {
    match v {
        Some(v) => seq![SHORT_VALUE_PREFIX, v.len() as u8] + v,
        None => Seq::empty(),
    }
}

/// The byte of the rollback mark, if the record carries one.
pub open spec fn overlapped_bytes(flag: bool) -> Seq<u8> {
    if flag {
        seq![FLAG_OVERLAPPED_ROLLBACK]
    } else {
        Seq::empty()
    }
}

/// The bytes of a record.
pub open spec fn write_bytes(w: WriteView) -> Seq<u8> {
    seq![type_flag(w.write_type)] + var_bytes(w.start_ts) + short_value_bytes(w.short_value)
        + overlapped_bytes(w.has_overlapped_rollback)
}

/// The record that the bytes stand for, if they stand for one.
pub open spec fn parse_write_bytes(b: Seq<u8>) -> Option<WriteView> {
    if b.len() == 0 || flag_type(b[0]) is None || parse_var(b, 1) is None {
        None
    } else {
        let (start_ts, i) = parse_var(b, 1).unwrap();
        let has_value = i < b.len() && b[i] == SHORT_VALUE_PREFIX;
        if has_value && (i + 1 >= b.len() || i + 2 + b[i + 1] > b.len()) {
            None
        } else {
            let j = if has_value {
                i + 2 + b[i + 1]
            } else {
                i
            };
            let flag = j < b.len() && b[j] == FLAG_OVERLAPPED_ROLLBACK;
            let k = if flag {
                j + 1
            } else {
                j
            };
            if k != b.len() {
                None
            } else {
                Some(
                    WriteView {
                        write_type: flag_type(b[0]).unwrap(),
                        start_ts,
                        short_value: if has_value {
                            Some(b.subrange(i + 2, j))
                        } else {
                            None
                        },
                        has_overlapped_rollback: flag,
                    },
                )
            }
        }
    }
}

/// Reading back the bytes of a record gives the record.
pub proof fn lemma_write_roundtrip(w: WriteView)
    requires
        encodable(w),
    ensures
        parse_write_bytes(write_bytes(w)) == Some(w),
{
    let b = write_bytes(w);
    let pre = seq![type_flag(w.write_type)];
    let post = short_value_bytes(w.short_value) + overlapped_bytes(w.has_overlapped_rollback);
    lemma_var_roundtrip(pre, w.start_ts, post);
    lemma_var_bytes_len(w.start_ts);
    assert(pre + var_bytes(w.start_ts) + post =~= b);
    let i = 1 + var_bytes(w.start_ts).len() as int;
    assert(parse_var(b, 1) == Some((w.start_ts, i)));
    assert(b[0] == type_flag(w.write_type));
    assert(flag_type(b[0]) == Some(w.write_type));
    let sv = short_value_bytes(w.short_value);
    let ob = overlapped_bytes(w.has_overlapped_rollback);
    assert(b.len() == i + sv.len() + ob.len());
    assert(forall|x: int| 0 <= x < sv.len() ==> b[i + x] == sv[x]);
    assert(forall|x: int| 0 <= x < ob.len() ==> b[i + sv.len() + x] == ob[x]);
    match w.short_value {
        Some(v) => {
            assert(sv[0] == SHORT_VALUE_PREFIX);
            assert(sv[1] == v.len() as u8);
            assert(b[i] == SHORT_VALUE_PREFIX);
            assert(b[i + 1] == v.len() as u8);
            let j = i + 2 + v.len();
            assert(b.subrange(i + 2, j) =~= v) by {
                assert forall|x: int| 0 <= x < v.len() implies b[i + 2 + x] == v[x] by {
                    assert(sv[2 + x] == v[x]);
                }
            }
            if w.has_overlapped_rollback {
                assert(b[j] == ob[0]);
            }
        },
        None => {
            if w.has_overlapped_rollback {
                assert(b[i] == ob[0]);
            }
        },
    }
}

/// Bytes that stand for a record are the bytes of that record, which can be
/// written as bytes: reading and writing undo each other.
pub proof fn lemma_parse_is_inverse(b: Seq<u8>)
    requires
        parse_write_bytes(b) is Some,
    ensures
        encodable(parse_write_bytes(b).unwrap()),
        write_bytes(parse_write_bytes(b).unwrap()) == b,
{
    let w = parse_write_bytes(b).unwrap();
    let (start_ts, i) = parse_var(b, 1).unwrap();
    lemma_parse_var_bounds(b, 1);
    lemma_parse_var_sound(b, 1);
    let has_value = i < b.len() && b[i] == SHORT_VALUE_PREFIX;
    let j = if has_value {
        i + 2 + b[i + 1]
    } else {
        i
    };
    let head = seq![type_flag(w.write_type)] + var_bytes(w.start_ts);
    assert(head =~= b.subrange(0, i)) by {
        assert(b.subrange(0, i) =~= seq![b[0]] + b.subrange(1, i));
    }
    let sv = short_value_bytes(w.short_value);
    assert(sv =~= b.subrange(i, j)) by {
        if has_value {
            let v = b.subrange(i + 2, j);
            assert(v.len() == b[i + 1]);
            assert(b.subrange(i, j) =~= seq![b[i], b[i + 1]] + v);
        }
    }
    let ob = overlapped_bytes(w.has_overlapped_rollback);
    assert(ob =~= b.subrange(j, b.len() as int));
    assert(write_bytes(w) =~= b);
}

impl WriteType {
    /// The byte that stands for this kind of record.
    pub fn to_u8(self) -> (b: u8)
        ensures
            b == type_flag(self),
            flag_type(b) == Some(self),
    {
        match self {
            WriteType::Put => FLAG_PUT,
            WriteType::Delete => FLAG_DELETE,
            WriteType::Lock => FLAG_LOCK,
            WriteType::Rollback => FLAG_ROLLBACK,
        }
    }

    /// The kind of record that a byte stands for.
    pub fn from_u8(b: u8) -> (t: Option<WriteType>)
        ensures
            t == flag_type(b),
    {
        if b == FLAG_PUT {
            Some(WriteType::Put)
        } else if b == FLAG_DELETE {
            Some(WriteType::Delete)
        } else if b == FLAG_LOCK {
            Some(WriteType::Lock)
        } else if b == FLAG_ROLLBACK {
            Some(WriteType::Rollback)
        } else {
            None
        }
    }
}

/// Bytes that do not stand for a write record.
#[derive(Clone, Copy, Debug, PartialEq, Eq, Structural)]
pub struct BadFormat;

impl Write {
    /// Whether this record can be written as bytes.
    pub fn is_encodable(&self) -> (r: bool)
        ensures
            r == encodable(self@),
    {
        match &self.short_value {
            Some(v) => v.len() <= SHORT_VALUE_MAX_LEN,
            None => true,
        }
    }

    /// The bytes of this record.
    pub fn to_bytes(&self) -> (b: Vec<u8>)
        requires
            encodable(self@),
        ensures
            b@ == write_bytes(self@),
    {
        let mut b: Vec<u8> = Vec::new();
        b.push(self.write_type.to_u8());
        encode_var_u64(&mut b, self.start_ts.0);
        let ghost head = b@;
        if let Some(v) = &self.short_value {
            b.push(SHORT_VALUE_PREFIX);
            b.push(v.len() as u8);
            let mut i: usize = 0;
            while i < v.len()
                invariant
                    i <= v.len(),
                    b@ == head + seq![SHORT_VALUE_PREFIX, v.len() as u8] + v@.subrange(0, i as int),
                decreases v.len() - i,
            {
                b.push(v[i]);
                assert(v@.subrange(0, i + 1) =~= v@.subrange(0, i as int).push(v@[i as int]));
                i += 1;
            }
            assert(v@.subrange(0, v.len() as int) =~= v@);
            assert(b@ =~= head + short_value_bytes(self@.short_value));
        } else {
            assert(b@ =~= head + short_value_bytes(self@.short_value));
        }
        let ghost mid = b@;
        if self.has_overlapped_rollback {
            b.push(FLAG_OVERLAPPED_ROLLBACK);
        }
        assert(b@ =~= mid + overlapped_bytes(self.has_overlapped_rollback));
        assert(b@ =~= write_bytes(self@));
        b
    }

    /// The record that the bytes stand for.
    pub fn parse(b: &[u8]) -> (r: Result<Write, BadFormat>)
        ensures
            match r {
                Ok(w) => parse_write_bytes(b@) == Some(w@),
                Err(_) => parse_write_bytes(b@) is None,
            },
    {
        if b.len() == 0 {
            return Err(BadFormat);
        }
        let write_type = match WriteType::from_u8(b[0]) {
            Some(t) => t,
            None => {
                return Err(BadFormat);
            },
        };
        let (start_ts, i) = match decode_var_u64(b, 1) {
            Some(r) => r,
            None => {
                return Err(BadFormat);
            },
        };
        proof {
            lemma_parse_var_bounds(b@, 1);
        }
        let mut j: usize = i;
        let mut short_value: Option<Vec<u8>> = None;
        if i < b.len() && b[i] == SHORT_VALUE_PREFIX {
            if i + 1 >= b.len() {
                return Err(BadFormat);
            }
            let len = b[i + 1] as usize;
            if len > b.len() - (i + 2) {
                return Err(BadFormat);
            }
            j = i + 2 + len;
            short_value = Some(clone_bytes(slice_subrange(b, i + 2, j)));
        }
        let mut has_overlapped_rollback = false;
        let mut k: usize = j;
        if j < b.len() && b[j] == FLAG_OVERLAPPED_ROLLBACK {
            has_overlapped_rollback = true;
            k = j + 1;
        }
        if k != b.len() {
            return Err(BadFormat);
        }
        Ok(Write { write_type, start_ts: TimeStamp(start_ts), short_value, has_overlapped_rollback })
    }
}

} // verus!
