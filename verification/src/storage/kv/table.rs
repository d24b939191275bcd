//! A column family in memory: entries in the order of their versioned keys,
//! no key twice.

use vstd::prelude::*;
use crate::txn_types::order::{lemma_version_order, version_before, version_less};

verus! {

/// One entry of a column family: a user key, a timestamp and what is stored
/// under them.
pub struct Entry<V> {
    pub key: Vec<u8>,
    pub ts: u64,
    pub value: V,
}

/// The versioned key of an entry.
pub open spec fn entry_key<V>(e: Entry<V>) -> (Seq<u8>, u64) {
    (e.key@, e.ts)
}

/// Order of versioned keys given as pairs.
pub open spec fn pair_less(a: (Seq<u8>, u64), b: (Seq<u8>, u64)) -> bool {
    version_less(a.0, a.1, b.0, b.1)
}

/// Whether the entries stand in strictly rising order.
pub open spec fn sorted<V>(s: Seq<Entry<V>>) -> bool {
    forall|i: int, j: int|
        #![trigger s[i], s[j]]
        0 <= i < j < s.len() ==> pair_less(entry_key(s[i]), entry_key(s[j]))
}

/// Whether some entry has the versioned key `k`.
pub open spec fn has_key<V>(s: Seq<Entry<V>>, k: (Seq<u8>, u64)) -> bool {
    exists|i: int| 0 <= i < s.len() && #[trigger] entry_key(s[i]) == k
}

/// The place of an entry with the versioned key `k`.
pub open spec fn index_of<V>(s: Seq<Entry<V>>, k: (Seq<u8>, u64)) -> int {
    choose|i: int| 0 <= i < s.len() && #[trigger] entry_key(s[i]) == k
}

/// The entries as a map from versioned keys to what is stored.
pub open spec fn table_map<V: View>(s: Seq<Entry<V>>) -> Map<(Seq<u8>, u64), V::V> {
    Map::new(|k: (Seq<u8>, u64)| has_key(s, k), |k: (Seq<u8>, u64)| s[index_of(s, k)].value@)
}

/// `p` is where the versioned key `k` stands or would stand among the entries.
pub open spec fn is_position<V>(s: Seq<Entry<V>>, k: (Seq<u8>, u64), p: int) -> bool {
    &&& 0 <= p <= s.len()
    &&& forall|j: int| 0 <= j < p ==> pair_less(#[trigger] entry_key(s[j]), k)
    &&& forall|j: int| p <= j < s.len() ==> !pair_less(#[trigger] entry_key(s[j]), k)
}

proof fn lemma_pair_order(a: (Seq<u8>, u64), b: (Seq<u8>, u64), c: (Seq<u8>, u64))
    ensures
        !pair_less(a, a),
        pair_less(a, b) && pair_less(b, c) ==> pair_less(a, c),
        pair_less(a, b) || pair_less(b, a) || a == b,
        pair_less(a, b) ==> !pair_less(b, a),
{
    lemma_version_order(a.0, a.1, b.0, b.1, c.0, c.1);
}

/// In sorted entries a versioned key stands at one place only, and the map
/// holds at that key what the entry holds.
pub proof fn lemma_map_at<V: View>(s: Seq<Entry<V>>, i: int)
    requires
        sorted(s),
        0 <= i < s.len(),
    ensures
        table_map(s).contains_key(entry_key(s[i])),
        table_map(s)[entry_key(s[i])] == s[i].value@,
        index_of(s, entry_key(s[i])) == i,
{
    let k = entry_key(s[i]);
    let j = index_of(s, k);
    assert(entry_key(s[i]) == k);
    lemma_pair_order(k, k, k);
    if j < i {
        assert(pair_less(entry_key(s[j]), entry_key(s[i])));
    } else if i < j {
        assert(pair_less(entry_key(s[i]), entry_key(s[j])));
    }
}

/// A versioned key that would stand at `p`, where another one stands or none,
/// is not in the map.
pub proof fn lemma_absent<V: View>(s: Seq<Entry<V>>, k: (Seq<u8>, u64), p: int)
    requires
        sorted(s),
        is_position(s, k, p),
        p == s.len() || entry_key(s[p]) != k,
    ensures
        !table_map(s).contains_key(k),
{
    if has_key(s, k) {
        let j = index_of(s, k);
        lemma_pair_order(k, k, k);
        if j < p {
            assert(pair_less(entry_key(s[j]), k));
        } else {
            assert(p < j);
            assert(pair_less(entry_key(s[p]), entry_key(s[j])));
            assert(!pair_less(entry_key(s[p]), k));
        }
    }
}

/// Putting a new entry at its position keeps the order and adds it to the map.
pub proof fn lemma_insert<V: View>(s: Seq<Entry<V>>, p: int, e: Entry<V>)
    requires
        sorted(s),
        is_position(s, entry_key(e), p),
        p == s.len() || entry_key(s[p]) != entry_key(e),
    ensures
        sorted(s.insert(p, e)),
        table_map(s.insert(p, e)) == table_map(s).insert(entry_key(e), e.value@),
{
    let t = s.insert(p, e);
    let k = entry_key(e);
    assert forall|i: int, j: int| 0 <= i < j < t.len() implies pair_less(
        entry_key(#[trigger] t[i]),
        entry_key(#[trigger] t[j]),
    ) by {
        let a = if i < p { i } else { i - 1 };
        let b = if j < p { j } else { j - 1 };
        if i == p {
            assert(t[j] == s[b]);
            assert(!pair_less(entry_key(s[b]), k));
            lemma_pair_order(entry_key(s[b]), k, k);
            if b > p {
                assert(pair_less(entry_key(s[p]), entry_key(s[b])));
                lemma_pair_order(k, entry_key(s[p]), entry_key(s[b]));
                assert(!pair_less(entry_key(s[p]), k));
            }
        } else if j == p {
            assert(t[i] == s[a]);
            assert(pair_less(entry_key(s[a]), k));
        } else {
            assert(t[i] == s[a]);
            assert(t[j] == s[b]);
            assert(pair_less(entry_key(s[a]), entry_key(s[b])));
        }
    }
    lemma_absent(s, k, p);
    let m1 = table_map(t);
    let m2 = table_map(s).insert(k, e.value@);
    assert forall|x: (Seq<u8>, u64)| m1.contains_key(x) <==> m2.contains_key(x) by {
        if has_key(t, x) {
            let i = index_of(t, x);
            if i != p {
                let a = if i < p { i } else { i - 1 };
                assert(t[i] == s[a]);
                assert(entry_key(s[a]) == x);
            }
        }
        if x == k {
            assert(entry_key(t[p]) == x);
        } else if has_key(s, x) {
            let a = index_of(s, x);
            let i = if a < p { a } else { a + 1 };
            assert(t[i] == s[a]);
            assert(entry_key(t[i]) == x);
        }
    }
    assert forall|x: (Seq<u8>, u64)| m1.contains_key(x) implies m1[x] == m2[x] by {
        let i = index_of(t, x);
        lemma_map_at(t, i);
        if i != p {
            let a = if i < p { i } else { i - 1 };
            assert(t[i] == s[a]);
            lemma_map_at(s, a);
        }
    }
    assert(m1 =~= m2);
}

/// Replacing what an entry holds keeps the order and updates the map.
pub proof fn lemma_update<V: View>(s: Seq<Entry<V>>, p: int, e: Entry<V>)
    requires
        sorted(s),
        0 <= p < s.len(),
        entry_key(s[p]) == entry_key(e),
    ensures
        sorted(s.update(p, e)),
        table_map(s.update(p, e)) == table_map(s).insert(entry_key(e), e.value@),
{
    let t = s.update(p, e);
    let k = entry_key(e);
    assert forall|i: int, j: int| 0 <= i < j < t.len() implies pair_less(
        entry_key(#[trigger] t[i]),
        entry_key(#[trigger] t[j]),
    ) by {
        assert(entry_key(t[i]) == entry_key(s[i]));
        assert(entry_key(t[j]) == entry_key(s[j]));
    }
    let m1 = table_map(t);
    let m2 = table_map(s).insert(k, e.value@);
    assert forall|x: (Seq<u8>, u64)| m1.contains_key(x) <==> m2.contains_key(x) by {
        if has_key(t, x) {
            let i = index_of(t, x);
            assert(entry_key(s[i]) == x);
        }
        if x == k {
            assert(entry_key(t[p]) == x);
        } else if has_key(s, x) {
            let a = index_of(s, x);
            assert(entry_key(t[a]) == x);
        }
    }
    assert forall|x: (Seq<u8>, u64)| m1.contains_key(x) implies m1[x] == m2[x] by {
        let i = index_of(t, x);
        lemma_map_at(t, i);
        lemma_map_at(s, p);
        if i != p {
            assert(entry_key(s[i]) == x);
            lemma_map_at(s, i);
        }
    }
    assert(m1 =~= m2);
}

/// Taking an entry out keeps the order and removes its key from the map.
pub proof fn lemma_remove<V: View>(s: Seq<Entry<V>>, p: int)
    requires
        sorted(s),
        0 <= p < s.len(),
    ensures
        sorted(s.remove(p)),
        table_map(s.remove(p)) == table_map(s).remove(entry_key(s[p])),
{
    let t = s.remove(p);
    let k = entry_key(s[p]);
    assert forall|i: int, j: int| 0 <= i < j < t.len() implies pair_less(
        entry_key(#[trigger] t[i]),
        entry_key(#[trigger] t[j]),
    ) by {
        let a = if i < p { i } else { i + 1 };
        let b = if j < p { j } else { j + 1 };
        assert(t[i] == s[a]);
        assert(t[j] == s[b]);
        assert(pair_less(entry_key(s[a]), entry_key(s[b])));
    }
    let m1 = table_map(t);
    let m2 = table_map(s).remove(k);
    assert forall|x: (Seq<u8>, u64)| m1.contains_key(x) <==> m2.contains_key(x) by {
        if has_key(t, x) {
            let i = index_of(t, x);
            let a = if i < p { i } else { i + 1 };
            assert(t[i] == s[a]);
            assert(entry_key(s[a]) == x);
            lemma_map_at(s, a);
            lemma_map_at(s, p);
        }
        if x != k && has_key(s, x) {
            let a = index_of(s, x);
            let i = if a < p { a } else { a - 1 };
            assert(t[i] == s[a]);
            assert(entry_key(t[i]) == x);
        }
    }
    assert forall|x: (Seq<u8>, u64)| m1.contains_key(x) implies m1[x] == m2[x] by {
        let i = index_of(t, x);
        lemma_map_at(t, i);
        let a = if i < p { i } else { i + 1 };
        assert(t[i] == s[a]);
        lemma_map_at(s, a);
    }
    assert(m1 =~= m2);
}

/// A versioned key has one position.
pub proof fn lemma_position_unique<V>(s: Seq<Entry<V>>, k: (Seq<u8>, u64), p: int, q: int)
    requires
        is_position(s, k, p),
        is_position(s, k, q),
    ensures
        p == q,
{
    if p < q {
        assert(pair_less(entry_key(s[p]), k));
    } else if q < p {
        assert(pair_less(entry_key(s[q]), k));
    }
}

/// A column family: a sorted table from versioned keys to values.
pub struct Table<V> {
    entries: Vec<Entry<V>>,
}

impl<V: View> View for Table<V> {
    type V = Map<(Seq<u8>, u64), V::V>;

    closed spec fn view(&self) -> Map<(Seq<u8>, u64), V::V> {
        table_map(self.entries@)
    }
}

impl<V> Table<V> {
    #[verifier::type_invariant]
    closed spec fn inv(&self) -> bool {
        sorted(self.entries@)
    }

    /// The entries in their order.
    pub closed spec fn entries(&self) -> Seq<Entry<V>> {
        self.entries@
    }
}

impl<V: View> Table<V> {

    /// An empty table.
    pub fn new() -> (t: Table<V>)
        ensures
            t@ == Map::<(Seq<u8>, u64), V::V>::empty(),
            t.entries().len() == 0,
    {
        let t = Table { entries: Vec::new() };
        assert(t@ =~= Map::<(Seq<u8>, u64), V::V>::empty());
        t
    }

    /// Number of entries; they are sorted, and the view is the map that they
    /// make.
    pub fn len(&self) -> (n: usize)
        ensures
            n == self.entries().len(),
            sorted(self.entries()),
            self@ == table_map(self.entries()),
    {
        proof {
            use_type_invariant(self);
        }
        self.entries.len()
    }

    /// The entry at place `i`.
    pub fn entry(&self, i: usize) -> (e: &Entry<V>)
        requires
            i < self.entries().len(),
        ensures
            *e == self.entries()[i as int],
    {
        &self.entries[i]
    }

    /// The place of the first entry that does not sort before version `ts` of
    /// `key`; the number of entries if there is none.
    pub fn seek(&self, key: &[u8], ts: u64) -> (p: usize)
        ensures
            is_position(self.entries(), (key@, ts), p as int),
    {
        let mut i: usize = 0;
        while i < self.entries.len()
            invariant
                i <= self.entries@.len(),
                forall|j: int| 0 <= j < i ==> pair_less(#[trigger] entry_key(self.entries@[j]), (key@, ts)),
            decreases self.entries@.len() - i,
        {
            let e = &self.entries[i];
            if !version_before(e.key.as_slice(), e.ts, key, ts) {
                proof {
                    use_type_invariant(self);
                    let s = self.entries@;
                    let k = (key@, ts);
                    assert forall|j: int| i <= j < s.len() implies !pair_less(
                        #[trigger] entry_key(s[j]),
                        k,
                    ) by {
                        if j > i {
                            assert(pair_less(entry_key(s[i as int]), entry_key(s[j])));
                            lemma_pair_order(entry_key(s[i as int]), entry_key(s[j]), k);
                        }
                    }
                }
                return i;
            }
            i += 1;
        }
        i
    }

    /// What is stored under version `ts` of `key`.
    pub fn get(&self, key: &[u8], ts: u64) -> (r: Option<&V>)
        ensures
            r is Some <==> self@.contains_key((key@, ts)),
            r matches Some(v) ==> v@ == self@[(key@, ts)],
    {
        let p = self.seek(key, ts);
        proof {
            use_type_invariant(self);
        }
        if p < self.entries.len() {
            let e = &self.entries[p];
            if e.ts == ts && crate::txn_types::order::bytes_equal(e.key.as_slice(), key) {
                proof {
                    lemma_map_at(self.entries@, p as int);
                }
                return Some(&e.value);
            }
        }
        proof {
            lemma_absent(self.entries@, (key@, ts), p as int);
        }
        None
    }

    /// Stores `value` under version `ts` of `key`, in place of what was there.
    pub fn put(&mut self, key: Vec<u8>, ts: u64, value: V)
        ensures
            final(self)@ == old(self)@.insert((key@, ts), value@),
    {
        let p = self.seek(key.as_slice(), ts);
        proof {
            use_type_invariant(&*self);
        }
        let found = p < self.entries.len() && self.entries[p].ts == ts
            && crate::txn_types::order::bytes_equal(self.entries[p].key.as_slice(), key.as_slice());
        let e = Entry { key, ts, value };
        let mut entries: Vec<Entry<V>> = Vec::new();
        core::mem::swap(&mut self.entries, &mut entries);
        if found {
            proof {
                lemma_update(entries@, p as int, e);
            }
            entries.set(p, e);
        } else {
            proof {
                lemma_insert(entries@, p as int, e);
            }
            entries.insert(p, e);
        }
        core::mem::swap(&mut self.entries, &mut entries);
    }

    /// Removes what is stored under version `ts` of `key`, if anything.
    pub fn delete(&mut self, key: &[u8], ts: u64)
        ensures
            final(self)@ == old(self)@.remove((key@, ts)),
    {
        let p = self.seek(key, ts);
        proof {
            use_type_invariant(&*self);
        }
        let found = p < self.entries.len() && self.entries[p].ts == ts
            && crate::txn_types::order::bytes_equal(self.entries[p].key.as_slice(), key);
        if found {
            let mut entries: Vec<Entry<V>> = Vec::new();
            core::mem::swap(&mut self.entries, &mut entries);
            proof {
                lemma_remove(entries@, p as int);
            }
            entries.remove(p);
            core::mem::swap(&mut self.entries, &mut entries);
        } else {
            proof {
                lemma_absent(self.entries@, (key@, ts), p as int);
                assert(self@ =~= self@.remove((key@, ts)));
            }
        }
    }
}

} // verus!
