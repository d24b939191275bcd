//! Numbers of variable length: seven bits to a byte, the low ones first, and
//! the high bit set on every byte but the last.

use vstd::prelude::*;

verus! {

/// The bytes that stand for `v`.
pub open spec fn var_bytes(v: u64) -> Seq<u8>
    decreases v,
{
    if v < 128 {
        seq![v as u8]
    } else {
        seq![(v % 128 + 128) as u8] + var_bytes(v / 128)
    }
}

/// The number that starts at index `i` of `b`, with the index after it. None
/// where the bytes end too early, the number does not fit in 64 bits, or a
/// needless zero byte ends it.
pub open spec fn parse_var(b: Seq<u8>, i: int) -> Option<(u64, int)>
    decreases b.len() - i,
{
    if i < 0 || i >= b.len() {
        None
    } else if b[i] < 128 {
        Some((b[i] as u64, i + 1))
    } else {
        match parse_var(b, i + 1) {
            Some((rest, j)) => {
                let low = b[i] - 128;
                if rest == 0 || low + 128 * rest > u64::MAX {
                    None
                } else {
                    Some(((low + 128 * rest) as u64, j))
                }
            },
            None => None,
        }
    }
}

/// A parsed number ends after the index where it starts, within the bytes.
pub proof fn lemma_parse_var_bounds(b: Seq<u8>, i: int)
    requires
        parse_var(b, i) is Some,
    ensures
        i < parse_var(b, i).unwrap().1 <= b.len(),
    decreases b.len() - i,
{
    if b[i] >= 128 {
        lemma_parse_var_bounds(b, i + 1);
    }
}

/// The bytes of a number have at least one byte.
pub proof fn lemma_var_bytes_len(v: u64)
    ensures
        var_bytes(v).len() >= 1,
    decreases v,
{
    if v >= 128 {
        lemma_var_bytes_len(v / 128);
    }
}

/// Parsing the bytes of `v`, wherever they stand, gives `v` and the index
/// after them.
pub proof fn lemma_var_roundtrip(pre: Seq<u8>, v: u64, post: Seq<u8>)
    ensures
        parse_var(pre + var_bytes(v) + post, pre.len() as int) == Some(
            (v, (pre.len() + var_bytes(v).len()) as int),
        ),
    decreases v,
{
    let b = pre + var_bytes(v) + post;
    let i = pre.len() as int;
    lemma_var_bytes_len(v);
    if v < 128 {
        assert(b[i] == v as u8);
    } else {
        let first = (v % 128 + 128) as u8;
        let pre2 = pre + seq![first];
        lemma_var_roundtrip(pre2, v / 128, post);
        lemma_var_bytes_len(v / 128);
        assert(pre2 + var_bytes(v / 128) + post =~= b);
        assert(b[i] == first);
        assert(pre2.len() == i + 1);
        assert(var_bytes(v).len() == 1 + var_bytes(v / 128).len());
    }
}

/// The bytes that a number was parsed from are the bytes of that number.
pub proof fn lemma_parse_var_sound(b: Seq<u8>, i: int)
    requires
        parse_var(b, i) is Some,
    ensures
        b.subrange(i, parse_var(b, i).unwrap().1) == var_bytes(parse_var(b, i).unwrap().0),
    decreases b.len() - i,
{
    lemma_parse_var_bounds(b, i);
    let (v, j) = parse_var(b, i).unwrap();
    if b[i] < 128 {
        assert(b.subrange(i, j) =~= seq![b[i]]);
    } else {
        let (rest, j2) = parse_var(b, i + 1).unwrap();
        lemma_parse_var_sound(b, i + 1);
        lemma_parse_var_bounds(b, i + 1);
        let low = b[i] - 128;
        assert(v == low + 128 * rest);
        assert(v % 128 == low);
        assert(v / 128 == rest);
        assert(b.subrange(i, j) =~= seq![b[i]] + b.subrange(i + 1, j));
    }
}

/// Appends the bytes that stand for `v` to `out`.
pub fn encode_var_u64(out: &mut Vec<u8>, v: u64)
    ensures
        final(out)@ == old(out)@ + var_bytes(v),
    decreases v,
{
    if v < 128 {
        out.push(v as u8);
        assert(out@ =~= old(out)@ + var_bytes(v));
    } else {
        out.push((v % 128 + 128) as u8);
        encode_var_u64(out, v / 128);
        assert(out@ =~= old(out)@ + var_bytes(v));
    }
}

/// Reads the number that starts at index `i` of `b`.
pub fn decode_var_u64(b: &[u8], i: usize) -> (r: Option<(u64, usize)>)
    ensures
        match r {
            Some((v, j)) => parse_var(b@, i as int) == Some((v, j as int)),
            None => parse_var(b@, i as int) is None,
        },
    decreases b@.len() - i,
{
    if i >= b.len() {
        return None;
    }
    let byte = b[i];
    if byte < 128 {
        return Some((byte as u64, i + 1));
    }
    match decode_var_u64(b, i + 1) {
        Some((rest, j)) => {
            let low: u64 = (byte - 128) as u64;
            if rest == 0 || rest > (u64::MAX - low) / 128 {
                None
            } else {
                Some((low + 128 * rest, j))
            }
        },
        None => None,
    }
}

} // verus!
