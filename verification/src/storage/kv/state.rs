//! The store as a mathematical value, and the changes that a write batch
//! makes to it.

use vstd::prelude::*;
use crate::txn_types::lock::LockView;
use crate::txn_types::write::WriteView;

verus! {

/// What the three column families hold: at most one lock for a key, write
/// records by key and commit timestamp, values by key and start timestamp.
pub struct State {
    pub locks: Map<Seq<u8>, LockView>,
    pub writes: Map<(Seq<u8>, u64), WriteView>,
    pub values: Map<(Seq<u8>, u64), Seq<u8>>,
}

/// One change to the store.
pub enum ModifyView {
    PutLock(Seq<u8>, LockView),
    DeleteLock(Seq<u8>),
    PutWrite(Seq<u8>, u64, WriteView),
    DeleteWrite(Seq<u8>, u64),
    PutValue(Seq<u8>, u64, Seq<u8>),
    DeleteValue(Seq<u8>, u64),
}

impl State {
    /// The store that holds nothing.
    pub open spec fn empty() -> State {
        State { locks: Map::empty(), writes: Map::empty(), values: Map::empty() }
    }

    /// The store after one change.
    pub open spec fn apply(self, m: ModifyView) -> State {
        match m {
            ModifyView::PutLock(key, lock) => State { locks: self.locks.insert(key, lock), ..self },
            ModifyView::DeleteLock(key) => State { locks: self.locks.remove(key), ..self },
            ModifyView::PutWrite(key, ts, write) => State {
                writes: self.writes.insert((key, ts), write),
                ..self
            },
            ModifyView::DeleteWrite(key, ts) => State {
                writes: self.writes.remove((key, ts)),
                ..self
            },
            ModifyView::PutValue(key, ts, value) => State {
                values: self.values.insert((key, ts), value),
                ..self
            },
            ModifyView::DeleteValue(key, ts) => State {
                values: self.values.remove((key, ts)),
                ..self
            },
        }
    }

    /// The store after the changes of a batch, in their order.
    pub open spec fn apply_all(self, ms: Seq<ModifyView>) -> State
        decreases ms.len(),
    {
        if ms.len() == 0 {
            self
        } else {
            self.apply_all(ms.drop_last()).apply(ms.last())
        }
    }
}

/// Whether the change leaves rollback records where they belong: a rollback
/// record that it writes stands at the start timestamp of its transaction.
pub open spec fn keeps_rollbacks_in_place(m: ModifyView) -> bool {
    m matches ModifyView::PutWrite(_, ts, write) ==> (write.write_type
        == crate::txn_types::write::WriteType::Rollback ==> write.start_ts == ts)
}

/// Whether every rollback record of the store stands at the start timestamp
/// of its transaction.
pub open spec fn rollbacks_in_place(s: State) -> bool {
    forall|key: Seq<u8>, c: u64|
        #[trigger] s.writes.contains_key((key, c)) && s.writes[(key, c)].write_type
            == crate::txn_types::write::WriteType::Rollback ==> s.writes[(key, c)].start_ts == c
}

/// A batch of changes that leave rollback records where they belong keeps
/// them there.
pub proof fn lemma_apply_keeps_rollbacks(s: State, ms: Seq<ModifyView>)
    requires
        rollbacks_in_place(s),
        forall|x: int| 0 <= x < ms.len() ==> keeps_rollbacks_in_place(#[trigger] ms[x]),
    ensures
        rollbacks_in_place(s.apply_all(ms)),
    decreases ms.len(),
{
    if ms.len() > 0 {
        let init = ms.drop_last();
        assert forall|x: int| 0 <= x < init.len() implies keeps_rollbacks_in_place(#[trigger] init[x]) by {
            assert(init[x] == ms[x]);
        }
        lemma_apply_keeps_rollbacks(s, init);
        assert(keeps_rollbacks_in_place(ms[ms.len() - 1]));
    }
}

/// A batch with one more change applies the batch, then the change.
pub proof fn lemma_apply_push(s: State, ms: Seq<ModifyView>, m: ModifyView)
    ensures
        s.apply_all(ms.push(m)) == s.apply_all(ms).apply(m),
{
    assert(ms.push(m).drop_last() =~= ms);
}

/// A batch of one change applies that change.
pub proof fn lemma_apply_one(s: State, m: ModifyView)
    ensures
        s.apply_all(seq![m]) == s.apply(m),
{
    assert(seq![m].drop_last() =~= Seq::<ModifyView>::empty());
    assert(seq![m].last() == m);
    assert(s.apply_all(Seq::<ModifyView>::empty()) == s);
}

/// A batch of two changes applies the first, then the second.
pub proof fn lemma_apply_two(s: State, a: ModifyView, b: ModifyView)
    ensures
        s.apply_all(seq![a, b]) == s.apply(a).apply(b),
{
    assert(seq![a, b].drop_last() =~= seq![a]);
    assert(seq![a, b].last() == b);
    lemma_apply_one(s, a);
}

/// Two batches one after the other apply as their concatenation.
pub proof fn lemma_apply_concat(s: State, a: Seq<ModifyView>, b: Seq<ModifyView>)
    ensures
        s.apply_all(a + b) == s.apply_all(a).apply_all(b),
    decreases b.len(),
{
    if b.len() == 0 {
        assert(a + b =~= a);
    } else {
        lemma_apply_concat(s, a, b.drop_last());
        assert((a + b).drop_last() =~= a + b.drop_last());
        assert((a + b).last() == b.last());
    }
}

/// A batch that starts with at most one change applies that change, if any,
/// then the rest.
pub proof fn lemma_apply_front(s: State, front: Seq<ModifyView>, rest: Seq<ModifyView>)
    requires
        front.len() <= 1,
    ensures
        s.apply_all(front + rest) == (if front.len() == 1 {
            s.apply(front[0])
        } else {
            s
        }).apply_all(rest),
{
    lemma_apply_concat(s, front, rest);
    if front.len() == 1 {
        assert(front =~= seq![front[0]]);
        lemma_apply_one(s, front[0]);
    } else {
        assert(front =~= Seq::<ModifyView>::empty());
    }
}

} // verus!
