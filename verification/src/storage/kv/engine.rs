//! The engine: the three column families in memory.

use vstd::prelude::*;
use crate::storage::kv::state::{ModifyView, State};
use crate::storage::kv::table::{entry_key, is_position, lemma_map_at, pair_less, sorted, table_map, Entry, Table};
use crate::txn_types::lock::{Lock, LockView};
use crate::txn_types::order::{bytes_equal, lemma_lex_asymmetric, lemma_lex_irreflexive};
use crate::txn_types::timestamp::TimeStamp;
use crate::txn_types::write::Write;

verus! {

/// One change to the store.
#[derive(Debug)]
pub enum Modify {
    PutLock(Vec<u8>, Lock),
    DeleteLock(Vec<u8>),
    PutWrite(Vec<u8>, TimeStamp, Write),
    DeleteWrite(Vec<u8>, TimeStamp),
    PutValue(Vec<u8>, TimeStamp, Vec<u8>),
    DeleteValue(Vec<u8>, TimeStamp),
}

impl View for Modify {
    type V = ModifyView;

    open spec fn view(&self) -> ModifyView {
        match self {
            Modify::PutLock(key, lock) => ModifyView::PutLock(key@, lock@),
            Modify::DeleteLock(key) => ModifyView::DeleteLock(key@),
            Modify::PutWrite(key, ts, write) => ModifyView::PutWrite(key@, ts@, write@),
            Modify::DeleteWrite(key, ts) => ModifyView::DeleteWrite(key@, ts@),
            Modify::PutValue(key, ts, value) => ModifyView::PutValue(key@, ts@, value@),
            Modify::DeleteValue(key, ts) => ModifyView::DeleteValue(key@, ts@),
        }
    }
}

/// The changes of a batch as mathematical values.
pub open spec fn batch_view(ms: Seq<Modify>) -> Seq<ModifyView> {
    ms.map_values(|m: Modify| m@)
}

/// The locks by user key: the lock column family keeps each under timestamp
/// zero.
pub open spec fn lock_map(t: Map<(Seq<u8>, u64), LockView>) -> Map<Seq<u8>, LockView> {
    Map::new(|k: Seq<u8>| t.contains_key((k, 0u64)), |k: Seq<u8>| t[(k, 0u64)])
}

/// `c` is the commit timestamp of the newest version of `key` that is not
/// newer than `ts`.
pub open spec fn is_newest_at(s: State, key: Seq<u8>, ts: u64, c: u64) -> bool {
    &&& s.writes.contains_key((key, c))
    &&& c <= ts
    &&& forall|c2: u64| #[trigger] s.writes.contains_key((key, c2)) && c2 <= ts ==> c2 <= c
}

/// Whether `key` has a version that is not newer than `ts`.
pub open spec fn has_version_at(s: State, key: Seq<u8>, ts: u64) -> bool {
    exists|c: u64| #[trigger] s.writes.contains_key((key, c)) && c <= ts
}

/// The commit timestamp of the newest version of `key` that is not newer than
/// `ts`, if there is one.
pub open spec fn seek_write(s: State, key: Seq<u8>, ts: u64) -> Option<u64> {
    if exists|c: u64| is_newest_at(s, key, ts, c) {
        Some(choose|c: u64| is_newest_at(s, key, ts, c))
    } else {
        None
    }
}

/// The newest version not newer than `ts` is the one that `seek_write` names.
pub proof fn lemma_seek_write_is(s: State, key: Seq<u8>, ts: u64, c: u64)
    requires
        is_newest_at(s, key, ts, c),
    ensures
        seek_write(s, key, ts) == Some(c),
{
    let d = choose|c: u64| is_newest_at(s, key, ts, c);
    assert(is_newest_at(s, key, ts, d));
    assert(s.writes.contains_key((key, c)));
    assert(s.writes.contains_key((key, d)));
}

/// Where no version is old enough, `seek_write` names none.
pub proof fn lemma_seek_write_none(s: State, key: Seq<u8>, ts: u64)
    requires
        !has_version_at(s, key, ts),
    ensures
        seek_write(s, key, ts) is None,
{
    if exists|c: u64| is_newest_at(s, key, ts, c) {
        let d = choose|c: u64| is_newest_at(s, key, ts, c);
        assert(s.writes.contains_key((key, d)) && d <= ts);
    }
}

/// What `seek_write` names is the newest version that is old enough.
pub proof fn lemma_seek_write_some(s: State, key: Seq<u8>, ts: u64)
    requires
        seek_write(s, key, ts) is Some,
    ensures
        is_newest_at(s, key, ts, seek_write(s, key, ts).unwrap()),
{
}

/// Among the versions of `key` from `low` up to `high`, where `low` is one
/// and none is above `high`, there is a newest.
pub proof fn lemma_newest_exists(s: State, key: Seq<u8>, ts: u64, low: u64, high: u64)
    requires
        s.writes.contains_key((key, low)),
        low <= high <= ts,
        forall|c: u64| high < c <= ts ==> !#[trigger] s.writes.contains_key((key, c)),
    ensures
        exists|c: u64| is_newest_at(s, key, ts, c),
    decreases high - low,
{
    if s.writes.contains_key((key, high)) {
        assert(is_newest_at(s, key, ts, high));
    } else {
        lemma_newest_exists(s, key, ts, low, (high - 1) as u64);
    }
}

/// A key with a version that is old enough has a newest such version.
pub proof fn lemma_seek_write_exists(s: State, key: Seq<u8>, ts: u64)
    requires
        has_version_at(s, key, ts),
    ensures
        seek_write(s, key, ts) is Some,
{
    let c0 = choose|c: u64| #[trigger] s.writes.contains_key((key, c)) && c <= ts;
    lemma_newest_exists(s, key, ts, c0, ts);
}

/// The newest version at `hi` is also the newest at any `lo` between it and
/// `hi`.
pub proof fn lemma_seek_write_lower(s: State, key: Seq<u8>, hi: u64, lo: u64)
    requires
        seek_write(s, key, hi) is Some,
        seek_write(s, key, hi).unwrap() <= lo <= hi,
    ensures
        seek_write(s, key, lo) == seek_write(s, key, hi),
{
    let c = seek_write(s, key, hi).unwrap();
    assert(is_newest_at(s, key, hi, c));
    assert(is_newest_at(s, key, lo, c));
    lemma_seek_write_is(s, key, lo, c);
}

/// The store in memory.
pub struct Engine {
    locks: Table<Lock>,
    writes: Table<Write>,
    values: Table<Vec<u8>>,
}

impl View for Engine {
    type V = State;

    closed spec fn view(&self) -> State {
        State { locks: lock_map(self.locks@), writes: self.writes@, values: self.values@ }
    }
}

impl Engine {
    /// The write column family in its order: by user key, each key's versions
    /// from the newest down.
    pub closed spec fn write_entries(&self) -> Seq<Entry<Write>> {
        self.writes.entries()
    }

    /// An engine that holds nothing.
    pub fn new() -> (e: Engine)
        ensures
            e@ == State::empty(),
    {
        let e = Engine { locks: Table::new(), writes: Table::new(), values: Table::new() };
        assert(e@.locks =~= Map::<Seq<u8>, LockView>::empty());
        e
    }

    /// The lock on `key`, if there is one.
    pub fn load_lock(&self, key: &[u8]) -> (r: Option<&Lock>)
        ensures
            r is Some <==> self@.locks.contains_key(key@),
            r matches Some(lock) ==> lock@ == self@.locks[key@],
    {
        self.locks.get(key, 0)
    }

    /// The number of locks on `key`: one or none.
    pub fn lock_count(&self, key: &[u8]) -> (n: usize)
        ensures
            n <= 1,
            n == 1 <==> self@.locks.contains_key(key@),
    {
        let total = self.locks.len();
        let mut n: usize = 0;
        let mut i: usize = 0;
        let ghost mut at: int = -1;
        while i < total
            invariant
                i <= total,
                total == self.locks.entries().len(),
                sorted(self.locks.entries()),
                self.locks@ == table_map(self.locks.entries()),
                n <= 1,
                n == 1 ==> 0 <= at < i && entry_key(self.locks.entries()[at]) == (key@, 0u64),
                n == 0 ==> forall|j: int|
                    0 <= j < i ==> #[trigger] entry_key(self.locks.entries()[j]) != (key@, 0u64),
            decreases total - i,
        {
            let e = self.locks.entry(i);
            if e.ts == 0 && bytes_equal(e.key.as_slice(), key) {
                proof {
                    if n == 1 {
                        lemma_map_at(self.locks.entries(), at);
                        lemma_map_at(self.locks.entries(), i as int);
                    }
                    at = i as int;
                }
                n = 1;
            }
            i += 1;
        }
        proof {
            if n == 1 {
                lemma_map_at(self.locks.entries(), at);
            }
        }
        n
    }

    /// The newest write record of `key` whose commit timestamp is not after
    /// `ts`, with that timestamp.
    pub fn seek_write(&self, key: &[u8], ts: TimeStamp) -> (r: Option<(TimeStamp, &Write)>)
        ensures
            r is Some <==> seek_write(self@, key@, ts@) is Some,
            r is Some <==> has_version_at(self@, key@, ts@),
            r matches Some((commit_ts, write)) ==> seek_write(self@, key@, ts@) == Some(commit_ts@)
                && write@ == self@.writes[(key@, commit_ts@)],
    {
        let p = self.writes.seek(key, ts.0);
        let n = self.writes.len();
        let ghost s = self.writes.entries();
        let ghost k = (key@, ts@);
        if p < n {
            let e = self.writes.entry(p);
            if bytes_equal(e.key.as_slice(), key) {
                proof {
                    lemma_map_at(s, p as int);
                    lemma_lex_irreflexive(key@);
                    assert(!pair_less(entry_key(s[p as int]), k));
                    assert forall|c2: u64| #[trigger]
                        self@.writes.contains_key((key@, c2)) && c2 <= ts@ implies c2 <= e.ts by {
                        let j = crate::storage::kv::table::index_of(s, (key@, c2));
                        assert(entry_key(s[j]) == (key@, c2));
                        if j < p {
                            assert(pair_less(entry_key(s[j]), k));
                        } else if j > p {
                            assert(pair_less(entry_key(s[p as int]), entry_key(s[j])));
                        }
                    }
                    lemma_seek_write_is(self@, key@, ts@, e.ts);
                }
                return Some((TimeStamp(e.ts), &e.value));
            }
        }
        proof {
            lemma_lex_irreflexive(key@);
            if has_version_at(self@, key@, ts@) {
                let c2 = choose|c: u64| #[trigger] self@.writes.contains_key((key@, c)) && c <= ts@;
                let j = crate::storage::kv::table::index_of(s, (key@, c2));
                assert(entry_key(s[j]) == (key@, c2));
                if j < p {
                    assert(pair_less(entry_key(s[j]), k));
                } else {
                    assert(!pair_less(entry_key(s[p as int]), k));
                    assert(j > p);
                    assert(pair_less(entry_key(s[p as int]), entry_key(s[j])));
                    crate::txn_types::order::lemma_lex_total(s[p as int].key@, key@);
                    if crate::txn_types::order::lex_less(key@, s[p as int].key@) {
                        lemma_lex_asymmetric(key@, s[p as int].key@);
                    }
                }
            }
            lemma_seek_write_none(self@, key@, ts@);
        }
        None
    }

    /// The write record of `key` at exactly `commit_ts`.
    pub fn get_write(&self, key: &[u8], commit_ts: TimeStamp) -> (r: Option<&Write>)
        ensures
            r is Some <==> self@.writes.contains_key((key@, commit_ts@)),
            r matches Some(write) ==> write@ == self@.writes[(key@, commit_ts@)],
    {
        self.writes.get(key, commit_ts.0)
    }

    /// The value stored for `key` by the transaction that started at
    /// `start_ts`.
    pub fn get_value(&self, key: &[u8], start_ts: TimeStamp) -> (r: Option<&Vec<u8>>)
        ensures
            r is Some <==> self@.values.contains_key((key@, start_ts@)),
            r matches Some(value) ==> value@ == self@.values[(key@, start_ts@)],
    {
        self.values.get(key, start_ts.0)
    }

    /// Number of write records.
    pub fn write_count(&self) -> (n: usize)
        ensures
            n == self.write_entries().len(),
            sorted(self.write_entries()),
            self@.writes == table_map(self.write_entries()),
    {
        self.writes.len()
    }

    /// The write record at place `i` of the write column family.
    pub fn write_entry(&self, i: usize) -> (e: &Entry<Write>)
        requires
            i < self.write_entries().len(),
        ensures
            *e == self.write_entries()[i as int],
    {
        self.writes.entry(i)
    }

    /// The place in the write column family of the first record that does not
    /// sort before version `ts` of `key`.
    pub fn seek_write_entry(&self, key: &[u8], ts: TimeStamp) -> (p: usize)
        ensures
            is_position(self.write_entries(), (key@, ts@), p as int),
    {
        self.writes.seek(key, ts.0)
    }

    /// Makes one change.
    pub fn apply(&mut self, m: Modify)
        ensures
            final(self)@ == old(self)@.apply(m@),
    {
        match m {
            Modify::PutLock(key, lock) => {
                self.locks.put(key, 0, lock);
                assert(self@.locks =~= old(self)@.locks.insert(key@, lock@));
            },
            Modify::DeleteLock(key) => {
                self.locks.delete(key.as_slice(), 0);
                assert(self@.locks =~= old(self)@.locks.remove(key@));
            },
            Modify::PutWrite(key, ts, write) => {
                self.writes.put(key, ts.0, write);
            },
            Modify::DeleteWrite(key, ts) => {
                self.writes.delete(key.as_slice(), ts.0);
            },
            Modify::PutValue(key, ts, value) => {
                self.values.put(key, ts.0, value);
            },
            Modify::DeleteValue(key, ts) => {
                self.values.delete(key.as_slice(), ts.0);
            },
        }
    }

    /// Makes the changes of a batch, in their order.
    pub fn write(&mut self, modifies: Vec<Modify>)
        ensures
            final(self)@ == old(self)@.apply_all(batch_view(modifies@)),
    {
        let mut rest = modifies;
        let ghost all = batch_view(modifies@);
        let ghost mut done: Seq<ModifyView> = Seq::empty();
        assert(done + batch_view(rest@) =~= all);
        while rest.len() > 0
            invariant
                done + batch_view(rest@) == all,
                self@ == old(self)@.apply_all(done),
            decreases rest.len(),
        {
            let ghost before = batch_view(rest@);
            let m = rest.remove(0);
            proof {
                assert(before =~= seq![m@] + batch_view(rest@));
                assert(done.push(m@) + batch_view(rest@) =~= all);
                crate::storage::kv::state::lemma_apply_push(old(self)@, done, m@);
                done = done.push(m@);
            }
            self.apply(m);
        }
        assert(done =~= all);
    }
}

} // verus!
