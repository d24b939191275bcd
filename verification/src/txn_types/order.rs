//! The order of keys: byte strings compare lexicographically, and the versions
//! of one key run from the newest timestamp to the oldest.

use vstd::prelude::*;

verus! {

/// Lexicographic "less than" on the parts of `a` and `b` from index `i` on,
/// for strings that agree before `i`.
pub open spec fn lex_less_from(a: Seq<u8>, b: Seq<u8>, i: int) -> bool
    decreases a.len() - i,
{
    if i >= b.len() {
        false
    } else if i >= a.len() {
        true
    } else if a[i] != b[i] {
        a[i] < b[i]
    } else {
        lex_less_from(a, b, i + 1)
    }
}

/// Lexicographic "less than" on byte strings.
pub open spec fn lex_less(a: Seq<u8>, b: Seq<u8>) -> bool {
    lex_less_from(a, b, 0)
}

/// Order of versioned keys: by user key, then from the newest version down.
pub open spec fn version_less(k1: Seq<u8>, t1: u64, k2: Seq<u8>, t2: u64) -> bool {
    lex_less(k1, k2) || (k1 == k2 && t1 > t2)
}

pub proof fn lemma_lex_irreflexive_from(a: Seq<u8>, i: int)
    requires
        0 <= i,
    ensures
        !lex_less_from(a, a, i),
    decreases a.len() - i,
{
    if i < a.len() {
        lemma_lex_irreflexive_from(a, i + 1);
    }
}

pub proof fn lemma_lex_transitive_from(a: Seq<u8>, b: Seq<u8>, c: Seq<u8>, i: int)
    requires
        0 <= i,
        lex_less_from(a, b, i),
        lex_less_from(b, c, i),
    ensures
        lex_less_from(a, c, i),
    decreases a.len() - i,
{
    if i < a.len() && i < b.len() && i < c.len() && a[i] == b[i] && b[i] == c[i] {
        lemma_lex_transitive_from(a, b, c, i + 1);
    }
}

pub proof fn lemma_lex_total_from(a: Seq<u8>, b: Seq<u8>, i: int)
    requires
        0 <= i,
        i <= a.len(),
        i <= b.len(),
        forall|j: int| 0 <= j < i ==> a[j] == b[j],
    ensures
        lex_less_from(a, b, i) || lex_less_from(b, a, i) || a == b,
    decreases a.len() - i,
{
    if i < a.len() && i < b.len() && a[i] == b[i] {
        lemma_lex_total_from(a, b, i + 1);
    } else if i == a.len() && i == b.len() {
        assert(a =~= b);
    }
}

/// No byte string is less than itself.
pub proof fn lemma_lex_irreflexive(a: Seq<u8>)
    ensures
        !lex_less(a, a),
{
    lemma_lex_irreflexive_from(a, 0);
}

/// `lex_less` is transitive.
pub proof fn lemma_lex_transitive(a: Seq<u8>, b: Seq<u8>, c: Seq<u8>)
    requires
        lex_less(a, b),
        lex_less(b, c),
    ensures
        lex_less(a, c),
{
    lemma_lex_transitive_from(a, b, c, 0);
}

/// Two byte strings are equal or one is less than the other.
pub proof fn lemma_lex_total(a: Seq<u8>, b: Seq<u8>)
    ensures
        lex_less(a, b) || lex_less(b, a) || a == b,
{
    lemma_lex_total_from(a, b, 0);
}

/// `lex_less` is asymmetric.
pub proof fn lemma_lex_asymmetric(a: Seq<u8>, b: Seq<u8>)
    requires
        lex_less(a, b),
    ensures
        !lex_less(b, a),
{
    if lex_less(b, a) {
        lemma_lex_transitive(a, b, a);
        lemma_lex_irreflexive(a);
    }
}

/// `version_less` is a strict total order on versioned keys.
pub proof fn lemma_version_order(
    k1: Seq<u8>,
    t1: u64,
    k2: Seq<u8>,
    t2: u64,
    k3: Seq<u8>,
    t3: u64,
)
    ensures
        !version_less(k1, t1, k1, t1),
        version_less(k1, t1, k2, t2) && version_less(k2, t2, k3, t3) ==> version_less(
            k1,
            t1,
            k3,
            t3,
        ),
        version_less(k1, t1, k2, t2) || version_less(k2, t2, k1, t1) || (k1 == k2 && t1 == t2),
        version_less(k1, t1, k2, t2) ==> !version_less(k2, t2, k1, t1),
{
    lemma_lex_irreflexive(k1);
    lemma_lex_total(k1, k2);
    if lex_less(k1, k2) {
        lemma_lex_asymmetric(k1, k2);
        if lex_less(k2, k3) {
            lemma_lex_transitive(k1, k2, k3);
        }
    }
}

/// Whether two byte strings hold the same bytes.
pub fn bytes_equal(a: &[u8], b: &[u8]) -> (r: bool)
    ensures
        r == (a@ == b@),
{
    if a.len() != b.len() {
        return false;
    }
    let mut i: usize = 0;
    while i < a.len()
        invariant
            i <= a.len(),
            a.len() == b.len(),
            forall|j: int| 0 <= j < i ==> a@[j] == b@[j],
        decreases a.len() - i,
    {
        if a[i] != b[i] {
            return false;
        }
        i += 1;
    }
    assert(a@ =~= b@);
    true
}

/// Whether `a` sorts before `b`.
pub fn bytes_less(a: &[u8], b: &[u8]) -> (r: bool)
    ensures
        r == lex_less(a@, b@),
{
    let mut i: usize = 0;
    while i < a.len() && i < b.len()
        invariant
            i <= a.len(),
            i <= b.len(),
            lex_less(a@, b@) == lex_less_from(a@, b@, i as int),
        decreases a.len() - i,
    {
        if a[i] != b[i] {
            return a[i] < b[i];
        }
        i += 1;
    }
    i < b.len()
}

/// Whether version `t1` of `k1` sorts before version `t2` of `k2`.
pub fn version_before(k1: &[u8], t1: u64, k2: &[u8], t2: u64) -> (r: bool)
    ensures
        r == version_less(k1@, t1, k2@, t2),
{
    if bytes_less(k1, k2) {
        true
    } else {
        bytes_equal(k1, k2) && t1 > t2
    }
}

} // verus!
