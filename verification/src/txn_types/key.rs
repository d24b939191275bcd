//! Keys. A user key is a byte string; a versioned key is a user key followed by
//! eight bytes that hold a timestamp, written so that a newer version sorts
//! before an older one.

use vstd::prelude::*;
use vstd::slice::slice_subrange;
use crate::txn_types::bytes::clone_bytes;
use crate::txn_types::order::{lex_less, lex_less_from};
use crate::txn_types::timestamp::TimeStamp;

verus! {

/// Length of the timestamp at the end of a versioned key.
pub const U64_SIZE: usize = 8;

/// Byte `i` (0 is the most significant) of `x`.
pub open spec fn be_byte(x: u64, i: int) -> u8 {
    ((x >> ((56 - 8 * i) as u64)) & 0xffu64) as u8
}

/// The eight bytes of `x`, most significant first.
pub open spec fn be_bytes(x: u64) -> Seq<u8> {
    seq![
        be_byte(x, 0),
        be_byte(x, 1),
        be_byte(x, 2),
        be_byte(x, 3),
        be_byte(x, 4),
        be_byte(x, 5),
        be_byte(x, 6),
        be_byte(x, 7),
    ]
}

/// The number whose big-endian bytes are the first eight of `b`.
pub open spec fn from_be_bytes(b: Seq<u8>) -> u64 {
    ((b[0] as u64) << 56u64) | ((b[1] as u64) << 48u64) | ((b[2] as u64) << 40u64) | ((b[3] as u64)
        << 32u64) | ((b[4] as u64) << 24u64) | ((b[5] as u64) << 16u64) | ((b[6] as u64) << 8u64)
        | (b[7] as u64)
}

/// The eight bytes that stand for timestamp `ts` at the end of a key: the
/// big-endian bytes of its complement.
pub open spec fn ts_suffix(ts: u64) -> Seq<u8> {
    be_bytes(!ts)
}

/// The versioned key of `key` at `ts`.
pub open spec fn versioned(key: Seq<u8>, ts: u64) -> Seq<u8> {
    key + ts_suffix(ts)
}

/// The user key of a versioned key.
pub open spec fn user_key_of(encoded: Seq<u8>) -> Seq<u8> {
    encoded.subrange(0, encoded.len() - 8)
}

/// The timestamp of a versioned key.
pub open spec fn ts_of(encoded: Seq<u8>) -> u64 {
    !from_be_bytes(encoded.subrange(encoded.len() - 8, encoded.len() as int))
}

/// Reading back the bytes of a number gives the number.
pub proof fn lemma_be_bytes_roundtrip(x: u64)
    ensures
        from_be_bytes(be_bytes(x)) == x,
        be_bytes(x).len() == 8,
{
    let b = be_bytes(x);
    assert(((((x >> 56u64) & 0xffu64) as u8) as u64) << 56u64 | ((((x >> 48u64) & 0xffu64) as u8) as u64)
        << 48u64 | ((((x >> 40u64) & 0xffu64) as u8) as u64) << 40u64 | ((((x >> 32u64)
        & 0xffu64) as u8) as u64) << 32u64 | ((((x >> 24u64) & 0xffu64) as u8) as u64) << 24u64 | ((((x
        >> 16u64) & 0xffu64) as u8) as u64) << 16u64 | ((((x >> 8u64) & 0xffu64) as u8) as u64) << 8u64
        | ((((x >> 0u64) & 0xffu64) as u8) as u64) == x) by (bit_vector);
}

/// Writing the bytes of the number read from eight bytes gives those bytes.
pub proof fn lemma_from_be_bytes_roundtrip(b: Seq<u8>)
    requires
        b.len() == 8,
    ensures
        be_bytes(from_be_bytes(b)) == b,
{
    let (b0, b1, b2, b3, b4, b5, b6, b7) = (b[0], b[1], b[2], b[3], b[4], b[5], b[6], b[7]);
    let x = from_be_bytes(b);
    assert(x == ((b0 as u64) << 56u64) | ((b1 as u64) << 48u64) | ((b2 as u64) << 40u64) | ((b3 as u64)
        << 32u64) | ((b4 as u64) << 24u64) | ((b5 as u64) << 16u64) | ((b6 as u64) << 8u64) | (b7 as u64));
    assert(((x >> 56u64) & 0xffu64) as u8 == b0 && ((x >> 48u64) & 0xffu64) as u8 == b1 && ((x >> 40u64)
        & 0xffu64) as u8 == b2 && ((x >> 32u64) & 0xffu64) as u8 == b3 && ((x >> 24u64) & 0xffu64) as u8
        == b4 && ((x >> 16u64) & 0xffu64) as u8 == b5 && ((x >> 8u64) & 0xffu64) as u8 == b6 && ((x
        >> 0u64) & 0xffu64) as u8 == b7) by (bit_vector)
        requires
            x == ((b0 as u64) << 56u64) | ((b1 as u64) << 48u64) | ((b2 as u64) << 40u64) | ((b3 as u64)
                << 32u64) | ((b4 as u64) << 24u64) | ((b5 as u64) << 16u64) | ((b6 as u64) << 8u64) | (
            b7 as u64),
    ;
    assert(be_bytes(x) =~= b);
}

/// Splitting a versioned key gives back the user key and the timestamp.
pub proof fn lemma_versioned_roundtrip(key: Seq<u8>, ts: u64)
    ensures
        versioned(key, ts).len() == key.len() + 8,
        user_key_of(versioned(key, ts)) == key,
        ts_of(versioned(key, ts)) == ts,
{
    let e = versioned(key, ts);
    lemma_be_bytes_roundtrip(!ts);
    assert(e.subrange(0, e.len() - 8) =~= key);
    assert(e.subrange(e.len() - 8, e.len() as int) =~= ts_suffix(ts));
    assert(!(!ts) == ts) by (bit_vector);
}

/// A key of eight bytes or more is the versioned key of its two parts.
pub proof fn lemma_split_roundtrip(encoded: Seq<u8>)
    requires
        encoded.len() >= 8,
    ensures
        versioned(user_key_of(encoded), ts_of(encoded)) == encoded,
{
    let tail = encoded.subrange(encoded.len() - 8, encoded.len() as int);
    lemma_from_be_bytes_roundtrip(tail);
    let x = from_be_bytes(tail);
    assert(!(!x) == x) by (bit_vector);
    assert(versioned(user_key_of(encoded), ts_of(encoded)) =~= encoded);
}

proof fn lemma_lex_shift(k: Seq<u8>, a: Seq<u8>, b: Seq<u8>, j: int)
    requires
        0 <= j,
    ensures
        lex_less_from(k + a, k + b, k.len() + j) == lex_less_from(a, b, j),
    decreases a.len() - j,
{
    if j < a.len() && j < b.len() {
        assert((k + a)[k.len() + j] == a[j]);
        assert((k + b)[k.len() + j] == b[j]);
        if a[j] == b[j] {
            lemma_lex_shift(k, a, b, j + 1);
        }
    }
}

proof fn lemma_lex_prefix(k: Seq<u8>, a: Seq<u8>, b: Seq<u8>, i: int)
    requires
        0 <= i <= k.len(),
    ensures
        lex_less_from(k + a, k + b, i) == lex_less(a, b),
    decreases k.len() - i,
{
    if i < k.len() {
        assert((k + a)[i] == k[i]);
        assert((k + b)[i] == k[i]);
        lemma_lex_prefix(k, a, b, i + 1);
    } else {
        lemma_lex_shift(k, a, b, 0);
    }
}

/// Byte strings with a common start compare as what follows it.
pub proof fn lemma_lex_common_prefix(k: Seq<u8>, a: Seq<u8>, b: Seq<u8>)
    ensures
        lex_less(k + a, k + b) == lex_less(a, b),
{
    lemma_lex_prefix(k, a, b, 0);
}

/// The big-endian bytes of numbers compare as the numbers.
pub proof fn lemma_be_bytes_order(x: u64, y: u64)
    ensures
        lex_less(be_bytes(x), be_bytes(y)) == (x < y),
{
    let a = be_bytes(x);
    let b = be_bytes(y);
    let (a0, a1, a2, a3, a4, a5, a6, a7) = (a[0], a[1], a[2], a[3], a[4], a[5], a[6], a[7]);
    let (b0, b1, b2, b3, b4, b5, b6, b7) = (b[0], b[1], b[2], b[3], b[4], b[5], b[6], b[7]);
    assert((x < y) == (a0 < b0 || (a0 == b0 && (a1 < b1 || (a1 == b1 && (a2 < b2 || (a2 == b2 && (a3
        < b3 || (a3 == b3 && (a4 < b4 || (a4 == b4 && (a5 < b5 || (a5 == b5 && (a6 < b6 || (a6 == b6
        && a7 < b7))))))))))))))) by (bit_vector)
        requires
            a0 == ((x >> 56u64) & 0xffu64) as u8,
            a1 == ((x >> 48u64) & 0xffu64) as u8,
            a2 == ((x >> 40u64) & 0xffu64) as u8,
            a3 == ((x >> 32u64) & 0xffu64) as u8,
            a4 == ((x >> 24u64) & 0xffu64) as u8,
            a5 == ((x >> 16u64) & 0xffu64) as u8,
            a6 == ((x >> 8u64) & 0xffu64) as u8,
            a7 == ((x >> 0u64) & 0xffu64) as u8,
            b0 == ((y >> 56u64) & 0xffu64) as u8,
            b1 == ((y >> 48u64) & 0xffu64) as u8,
            b2 == ((y >> 40u64) & 0xffu64) as u8,
            b3 == ((y >> 32u64) & 0xffu64) as u8,
            b4 == ((y >> 24u64) & 0xffu64) as u8,
            b5 == ((y >> 16u64) & 0xffu64) as u8,
            b6 == ((y >> 8u64) & 0xffu64) as u8,
            b7 == ((y >> 0u64) & 0xffu64) as u8,
    ;
    reveal_with_fuel(lex_less_from, 9);
}

/// Of two versions of a key, the newer one has the versioned key that sorts
/// first.
pub proof fn lemma_versioned_order(key: Seq<u8>, t1: u64, t2: u64)
    ensures
        lex_less(versioned(key, t1), versioned(key, t2)) == (t1 > t2),
{
    lemma_lex_common_prefix(key, ts_suffix(t1), ts_suffix(t2));
    lemma_be_bytes_order(!t1, !t2);
    assert((!t1 < !t2) == (t1 > t2)) by (bit_vector);
}

fn byte_at(x: u64, i: u64) -> (r: u8)
    requires
        i < 8,
    ensures
        r == be_byte(x, i as int),
{
    let shift: u64 = 56 - 8 * i;
    assert(((x >> shift) & 0xffu64) <= 0xffu64) by (bit_vector);
    ((x >> shift) & 0xffu64) as u8
}

/// Appends the eight bytes that stand for `ts` to `out`.
pub fn encode_u64_desc(out: &mut Vec<u8>, ts: u64)
    ensures
        final(out)@ == old(out)@ + ts_suffix(ts),
{
    let x: u64 = !ts;
    out.push(byte_at(x, 0));
    out.push(byte_at(x, 1));
    out.push(byte_at(x, 2));
    out.push(byte_at(x, 3));
    out.push(byte_at(x, 4));
    out.push(byte_at(x, 5));
    out.push(byte_at(x, 6));
    out.push(byte_at(x, 7));
    assert(out@ =~= old(out)@ + ts_suffix(ts));
}

/// Reads the timestamp that eight bytes stand for.
pub fn decode_u64_desc(b: &[u8]) -> (ts: u64)
    requires
        b@.len() == 8,
    ensures
        ts == !from_be_bytes(b@),
{
    let x: u64 = ((b[0] as u64) << 56u64) | ((b[1] as u64) << 48u64) | ((b[2] as u64) << 40u64) | ((
    b[3] as u64) << 32u64) | ((b[4] as u64) << 24u64) | ((b[5] as u64) << 16u64) | ((b[6] as u64)
        << 8u64) | (b[7] as u64);
    !x
}

/// A key of the store.
#[derive(Debug)]
pub struct Key(pub Vec<u8>);

impl View for Key {
    type V = Seq<u8>;

    open spec fn view(&self) -> Seq<u8> {
        self.0@
    }
}

/// Failure to take a timestamp off a key.
#[derive(Clone, Copy, Debug, PartialEq, Eq, Structural)]
pub enum KeyError {
    /// The key is shorter than a timestamp.
    KeyLength,
}

impl Key {
    /// The key that holds the bytes of a user key.
    pub fn from_raw(key: &[u8]) -> (k: Key)
        ensures
            k@ == key@,
    {
        Key(clone_bytes(key))
    }

    /// The key that holds bytes which are already in stored form.
    pub fn from_encoded(encoded: Vec<u8>) -> (k: Key)
        ensures
            k@ == encoded@,
    {
        Key(encoded)
    }

    /// The key that holds a copy of bytes which are already in stored form.
    pub fn from_encoded_slice(encoded: &[u8]) -> (k: Key)
        ensures
            k@ == encoded@,
    {
        Key(clone_bytes(encoded))
    }

    /// The user key.
    pub fn into_raw(self) -> (raw: Vec<u8>)
        ensures
            raw@ == self@,
    {
        self.0
    }

    /// The stored bytes.
    pub fn into_encoded(self) -> (encoded: Vec<u8>)
        ensures
            encoded@ == self@,
    {
        self.0
    }

    /// The stored bytes.
    pub fn as_encoded(&self) -> (encoded: &Vec<u8>)
        ensures
            encoded@ == self@,
    {
        &self.0
    }

    /// A copy of this key.
    pub fn duplicate(&self) -> (k: Key)
        ensures
            k@ == self@,
    {
        Key(clone_bytes(self.0.as_slice()))
    }

    /// The versioned key of this key at `ts`.
    pub fn append_ts(self, ts: TimeStamp) -> (k: Key)
        ensures
            k@ == versioned(self@, ts@),
    {
        let mut encoded = self.0;
        encode_u64_desc(&mut encoded, ts.0);
        Key(encoded)
    }

    /// The timestamp at the end of this versioned key.
    pub fn decode_ts(&self) -> (r: Result<TimeStamp, KeyError>)
        ensures
            self@.len() < 8 <==> r is Err,
            r matches Ok(ts) ==> ts@ == ts_of(self@),
    {
        Key::decode_ts_from(self.0.as_slice())
    }

    /// The user key of this versioned key.
    pub fn truncate_ts(self) -> (r: Result<Key, KeyError>)
        ensures
            self@.len() < 8 <==> r is Err,
            r matches Ok(k) ==> k@ == user_key_of(self@),
    {
        let len = self.0.len();
        if len < U64_SIZE {
            Err(KeyError::KeyLength)
        } else {
            let mut encoded = self.0;
            encoded.truncate(len - U64_SIZE);
            Ok(Key(encoded))
        }
    }

    /// Splits a versioned key into its user key and its timestamp.
    pub fn split_on_ts_for(key: &[u8]) -> (r: Result<(&[u8], TimeStamp), KeyError>)
        ensures
            key@.len() < 8 <==> r is Err,
            r matches Ok((user_key, ts)) ==> user_key@ == user_key_of(key@) && ts@ == ts_of(key@),
    {
        if key.len() < U64_SIZE {
            Err(KeyError::KeyLength)
        } else {
            let pos: usize = key.len() - U64_SIZE;
            let ts = decode_u64_desc(slice_subrange(key, pos, key.len()));
            Ok((slice_subrange(key, 0, pos), TimeStamp(ts)))
        }
    }

    /// The user key of a versioned key.
    pub fn truncate_ts_for(key: &[u8]) -> (r: Result<&[u8], KeyError>)
        ensures
            key@.len() < 8 <==> r is Err,
            r matches Ok(user_key) ==> user_key@ == user_key_of(key@),
    {
        if key.len() < U64_SIZE {
            Err(KeyError::KeyLength)
        } else {
            Ok(slice_subrange(key, 0, key.len() - U64_SIZE))
        }
    }

    /// The timestamp of a versioned key.
    pub fn decode_ts_from(key: &[u8]) -> (r: Result<TimeStamp, KeyError>)
        ensures
            key@.len() < 8 <==> r is Err,
            r matches Ok(ts) ==> ts@ == ts_of(key@),
    {
        if key.len() < U64_SIZE {
            Err(KeyError::KeyLength)
        } else {
            let ts = decode_u64_desc(slice_subrange(key, key.len() - U64_SIZE, key.len()));
            Ok(TimeStamp(ts))
        }
    }

    /// Whether `encoded` is a versioned key of the user key `user_key`.
    pub fn is_user_key_eq(encoded: &[u8], user_key: &[u8]) -> (r: bool)
        ensures
            r == (encoded@.len() >= 8 && user_key_of(encoded@) == user_key@),
    {
        if encoded.len() < U64_SIZE {
            false
        } else {
            crate::txn_types::order::bytes_equal(
                slice_subrange(encoded, 0, encoded.len() - U64_SIZE),
                user_key,
            )
        }
    }
}

} // verus!
