//! Copies of byte strings.

use vstd::prelude::*;

verus! {

/// A copy of `src`.
pub fn clone_bytes(src: &[u8]) -> (out: Vec<u8>)
    ensures
        out@ == src@,
{
    let mut out: Vec<u8> = Vec::new();
    let mut i: usize = 0;
    while i < src.len()
        invariant
            i <= src.len(),
            out@ == src@.subrange(0, i as int),
        decreases src.len() - i,
    {
        out.push(src[i]);
        assert(out@ =~= src@.subrange(0, i + 1));
        i += 1;
    }
    assert(out@ =~= src@);
    out
}

/// The bytes that an optional value holds.
pub open spec fn opt_view(v: Option<Vec<u8>>) -> Option<Seq<u8>> {
    match v {
        Some(b) => Some(b@),
        None => None,
    }
}

/// A copy of an optional byte string.
pub fn clone_opt_bytes(src: &Option<Vec<u8>>) -> (out: Option<Vec<u8>>)
    ensures
        opt_view(out) == opt_view(*src),
{
    match src {
        Some(b) => Some(clone_bytes(b.as_slice())),
        None => None,
    }
}

} // verus!
