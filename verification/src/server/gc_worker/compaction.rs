//! Compactions of the write column family with garbage collection: of all
//! its records, or of those that the files of the compaction hold.

use vstd::prelude::*;
use crate::server::gc_worker::collection::{collected, gc_keeps, newer_data, value_dropped};
use crate::server::gc_worker::compaction_filter::{
    entry_removal,
    is_walk_end,
    value_removal,
    walk_count,
    walk_removals,
    walks_behind,
    WriteCompactionFilter,
};
use crate::storage::kv::engine::{batch_view, Engine, Modify};
use crate::storage::kv::state::{ModifyView, State};
use crate::storage::kv::table::{
    entry_key,
    has_key,
    index_of,
    is_position,
    lemma_map_at,
    pair_less,
    sorted,
    table_map,
    Entry,
};
use crate::txn_types::bytes::clone_bytes;
use crate::txn_types::order::{
    lemma_lex_asymmetric,
    lemma_lex_irreflexive,
    lemma_lex_transitive,
    lemma_version_order,
    lex_less,
};
use crate::txn_types::timestamp::TimeStamp;
use crate::txn_types::write::{Write, WriteType};

verus! {

/// Whether the record at place `j` is part of the compaction.
pub open spec fn picked(sel: Seq<bool>, j: int) -> bool {
    0 <= j < sel.len() && sel[j]
}

/// Whether a record of the compaction before place `i`, of the same key and
/// not above the safe point, is a `Put` or a `Delete`.
pub open spec fn newer_data_before(e: Seq<Entry<Write>>, sel: Seq<bool>, i: int, safe_point: u64) -> bool {
    exists|j: int|
        0 <= j < i && picked(sel, j) && (#[trigger] e[j]).key@ == e[i].key@ && e[j].ts <= safe_point
            && e[j].value@.is_data()
}

/// Whether the compaction drops the record at place `j`, one of the first
/// `upto`: it is part of the compaction and not above the safe point, no
/// protected rollback, and not the newest `Put` or `Delete` of its key that
/// is a `Put`.
pub open spec fn dropped_at(e: Seq<Entry<Write>>, sel: Seq<bool>, upto: int, j: int, safe_point: u64) -> bool {
    &&& 0 <= j < upto
    &&& picked(sel, j)
    &&& e[j].ts <= safe_point
    &&& !e[j].value@.is_protected()
    &&& (e[j].value@.write_type != WriteType::Put || newer_data_before(e, sel, j, safe_point))
}

/// Whether the record at place `i` is a delete mark that the filter walks
/// behind: a `Delete` of the compaction, not above the safe point, and the
/// newest `Put` or `Delete` of its key there.
pub open spec fn is_mark(e: Seq<Entry<Write>>, sel: Seq<bool>, i: int, safe_point: u64) -> bool {
    &&& picked(sel, i)
    &&& e[i].ts <= safe_point
    &&& e[i].value@.write_type == WriteType::Delete
    &&& !newer_data_before(e, sel, i, safe_point)
}

/// Whether the walk behind a delete mark among the first `upto` records
/// removes the record at place `j`: an older version of the key of the mark,
/// whether part of the compaction or not, and no protected rollback.
pub open spec fn walked_at(e: Seq<Entry<Write>>, sel: Seq<bool>, upto: int, j: int, safe_point: u64) -> bool {
    &&& 0 <= j < e.len()
    &&& !e[j].value@.is_protected()
    &&& exists|i: int|
        0 <= i < upto && i < j && #[trigger] is_mark(e, sel, i, safe_point) && e[i].key@ == e[j].key@
}

/// Whether the compaction, once it has come past the first `upto` records,
/// has removed the record at place `j`.
pub open spec fn removed_at(e: Seq<Entry<Write>>, sel: Seq<bool>, upto: int, j: int, safe_point: u64) -> bool {
    dropped_at(e, sel, upto, j, safe_point) || walked_at(e, sel, upto, j, safe_point)
}

/// Whether `m` removes the record `e` or the value behind it.
pub open spec fn removes(e: Entry<Write>, m: ModifyView) -> bool {
    m == ModifyView::DeleteWrite(e.key@, e.ts) || value_removal(e.key@, e.value@) == seq![m]
}

/// Whether `m` removes a record that the compaction has removed, or the
/// value behind such a record.
pub open spec fn is_due(e: Seq<Entry<Write>>, sel: Seq<bool>, upto: int, safe_point: u64, m: ModifyView) -> bool {
    exists|j: int|
        0 <= j < e.len() && removed_at(e, sel, upto, j, safe_point) && removes(#[trigger] e[j], m)
}

/// Whether every removal of the batch is due.
pub open spec fn all_due(
    e: Seq<Entry<Write>>,
    sel: Seq<bool>,
    upto: int,
    safe_point: u64,
    ms: Seq<ModifyView>,
) -> bool {
    forall|x: int| 0 <= x < ms.len() ==> is_due(e, sel, upto, safe_point, #[trigger] ms[x])
}

/// The store after a compaction of the records that `sel` picks from the
/// write column family `e`: without the records that the compaction has
/// removed and the values behind them.
pub open spec fn selection_collected(s: State, e: Seq<Entry<Write>>, sel: Seq<bool>, safe_point: u64) -> State {
    State {
        locks: s.locks,
        writes: Map::new(
            |k: (Seq<u8>, u64)|
                s.writes.contains_key(k) && !removed_at(e, sel, e.len() as int, index_of(e, k), safe_point),
            |k: (Seq<u8>, u64)| s.writes[k],
        ),
        values: Map::new(
            |k: (Seq<u8>, u64)|
                s.values.contains_key(k) && !is_due(
                    e,
                    sel,
                    e.len() as int,
                    safe_point,
                    ModifyView::DeleteValue(k.0, k.1),
                ),
            |k: (Seq<u8>, u64)| s.values[k],
        ),
    }
}

/// In a sorted column family, a record stands at the position of its key.
proof fn lemma_own_position(e: Seq<Entry<Write>>, i: int)
    requires
        sorted(e),
        0 <= i < e.len(),
    ensures
        is_position(e, entry_key(e[i]), i),
{
    let k = entry_key(e[i]);
    assert forall|j: int| 0 <= j < i implies pair_less(#[trigger] entry_key(e[j]), k) by {
        assert(pair_less(entry_key(e[j]), entry_key(e[i])));
    }
    assert forall|j: int| i <= j < e.len() implies !pair_less(#[trigger] entry_key(e[j]), k) by {
        lemma_version_order(e[i].key@, e[i].ts, e[j].key@, e[j].ts, e[i].key@, e[i].ts);
        if j > i {
            assert(pair_less(entry_key(e[i]), entry_key(e[j])));
        }
    }
}

/// In a sorted column family, the records of a key stand together.
proof fn lemma_key_together(e: Seq<Entry<Write>>, i: int, m: int, j: int)
    requires
        sorted(e),
        0 <= i <= m <= j < e.len(),
        e[i].key@ == e[j].key@,
    ensures
        e[m].key@ == e[i].key@,
{
    if i < m && m < j {
        assert(pair_less(entry_key(e[i]), entry_key(e[m])));
        assert(pair_less(entry_key(e[m]), entry_key(e[j])));
        if lex_less(e[i].key@, e[m].key@) {
            lemma_lex_asymmetric(e[i].key@, e[m].key@);
        }
    }
}

/// What is due removes a write record or a value.
proof fn lemma_due_is_removal(e: Seq<Entry<Write>>, sel: Seq<bool>, upto: int, safe_point: u64, m: ModifyView)
    requires
        is_due(e, sel, upto, safe_point, m),
    ensures
        m is DeleteWrite || m is DeleteValue,
{
    let j = choose|j: int|
        0 <= j < e.len() && removed_at(e, sel, upto, j, safe_point) && removes(#[trigger] e[j], m);
    let vr = value_removal(e[j].key@, e[j].value@);
    if vr == seq![m] {
        assert(vr[0] == m);
        assert(seq![m].len() == 1);
        let d = ModifyView::DeleteValue(e[j].key@, e[j].value@.start_ts);
        assert(vr == seq![d]);
        assert(seq![d][0] == d);
    }
}

/// What is due stays due as the compaction goes on.
proof fn lemma_due_grows(e: Seq<Entry<Write>>, sel: Seq<bool>, upto: int, safe_point: u64, ms: Seq<ModifyView>)
    requires
        all_due(e, sel, upto, safe_point, ms),
    ensures
        all_due(e, sel, upto + 1, safe_point, ms),
{
    assert forall|x: int| 0 <= x < ms.len() implies is_due(e, sel, upto + 1, safe_point, #[trigger] ms[x]) by {
        assert(is_due(e, sel, upto, safe_point, ms[x]));
        let j = choose|j: int|
            0 <= j < e.len() && removed_at(e, sel, upto, j, safe_point) && removes(#[trigger] e[j], ms[x]);
        if walked_at(e, sel, upto, j, safe_point) {
            let i = choose|i: int|
                0 <= i < upto && i < j && #[trigger] is_mark(e, sel, i, safe_point) && e[i].key@
                    == e[j].key@;
            assert(is_mark(e, sel, i, safe_point));
        }
        assert(removed_at(e, sel, upto + 1, j, safe_point));
    }
}

/// Removals that are due stay due when more are added.
proof fn lemma_due_concat(
    e: Seq<Entry<Write>>,
    sel: Seq<bool>,
    upto: int,
    safe_point: u64,
    a: Seq<ModifyView>,
    b: Seq<ModifyView>,
)
    requires
        all_due(e, sel, upto, safe_point, a),
        all_due(e, sel, upto, safe_point, b),
    ensures
        all_due(e, sel, upto, safe_point, a + b),
{
    assert forall|x: int| 0 <= x < (a + b).len() implies is_due(
        e,
        sel,
        upto,
        safe_point,
        #[trigger] (a + b)[x],
    ) by {
        if x < a.len() {
            assert((a + b)[x] == a[x]);
        } else {
            assert((a + b)[x] == b[x - a.len()]);
        }
    }
}

/// What the walk behind the delete mark at place `mark` removes is due.
proof fn lemma_walk_due(e: Seq<Entry<Write>>, sel: Seq<bool>, safe_point: u64, mark: int, end: int)
    requires
        sorted(e),
        0 <= mark < e.len(),
        is_mark(e, sel, mark, safe_point),
        mark + 1 <= end <= e.len(),
        forall|j: int| mark + 1 <= j < end ==> (#[trigger] e[j]).key@ == e[mark].key@,
    ensures
        all_due(e, sel, mark + 1, safe_point, walk_removals(e, mark + 1, end)),
    decreases end - mark,
{
    if end > mark + 1 {
        let j = end - 1;
        lemma_walk_due(e, sel, safe_point, mark, j);
        let before = walk_removals(e, mark + 1, j);
        let here = entry_removal(e[j]);
        let all = walk_removals(e, mark + 1, end);
        assert(all == before + here);
        assert(e[j].key@ == e[mark].key@);
        assert forall|x: int| 0 <= x < all.len() implies is_due(
            e,
            sel,
            mark + 1,
            safe_point,
            #[trigger] all[x],
        ) by {
            if x < before.len() {
                assert(all[x] == before[x]);
            } else {
                assert(all[x] == here[x - before.len()]);
                assert(!e[j].value@.is_protected());
                assert(walked_at(e, sel, mark + 1, j, safe_point));
                let vr = value_removal(e[j].key@, e[j].value@);
                if vr.len() > 0 && x - before.len() == 0 {
                    assert(vr =~= seq![all[x]]);
                }
                assert(removes(e[j], all[x]));
            }
        }
    }
}

/// The walk asks for the removal of every record that it passes, but the
/// protected rollbacks, and of the value behind it.
proof fn lemma_walk_contains(e: Seq<Entry<Write>>, from: int, end: int, j: int)
    requires
        0 <= from <= j < end <= e.len(),
        !e[j].value@.is_protected(),
    ensures
        walk_removals(e, from, end).contains(ModifyView::DeleteWrite(e[j].key@, e[j].ts)),
        value_removal(e[j].key@, e[j].value@).len() > 0 ==> walk_removals(e, from, end).contains(
            ModifyView::DeleteValue(e[j].key@, e[j].value@.start_ts),
        ),
    decreases end - from,
{
    let all = walk_removals(e, from, end);
    let before = walk_removals(e, from, end - 1);
    let here = entry_removal(e[end - 1]);
    assert(all == before + here);
    if j < end - 1 {
        lemma_walk_contains(e, from, end - 1, j);
        let m = ModifyView::DeleteWrite(e[j].key@, e[j].ts);
        let x = choose|x: int| 0 <= x < before.len() && before[x] == m;
        assert(all[x] == m);
        if value_removal(e[j].key@, e[j].value@).len() > 0 {
            let v = ModifyView::DeleteValue(e[j].key@, e[j].value@.start_ts);
            let y = choose|y: int| 0 <= y < before.len() && before[y] == v;
            assert(all[y] == v);
        }
    } else {
        let vr = value_removal(e[j].key@, e[j].value@);
        assert(here == vr + seq![ModifyView::DeleteWrite(e[j].key@, e[j].ts)]);
        assert(all[(before.len() + vr.len()) as int] == ModifyView::DeleteWrite(e[j].key@, e[j].ts));
        if vr.len() > 0 {
            assert(all[before.len() as int] == vr[0]);
        }
    }
}

/// Whether every change of the batch removes a write record or a value.
pub open spec fn only_removals(ms: Seq<ModifyView>) -> bool {
    forall|x: int|
        0 <= x < ms.len() ==> (#[trigger] ms[x]) is DeleteWrite || ms[x] is DeleteValue
}

/// The store without the write records and values that a batch of removals
/// names.
pub open spec fn without(s: State, ms: Seq<ModifyView>) -> State {
    State {
        locks: s.locks,
        writes: Map::new(
            |k: (Seq<u8>, u64)| s.writes.contains_key(k) && !ms.contains(ModifyView::DeleteWrite(k.0, k.1)),
            |k: (Seq<u8>, u64)| s.writes[k],
        ),
        values: Map::new(
            |k: (Seq<u8>, u64)| s.values.contains_key(k) && !ms.contains(ModifyView::DeleteValue(k.0, k.1)),
            |k: (Seq<u8>, u64)| s.values[k],
        ),
    }
}

/// A batch of removals leaves the store without what it names.
proof fn lemma_apply_removals(s: State, ms: Seq<ModifyView>)
    requires
        only_removals(ms),
    ensures
        s.apply_all(ms) == without(s, ms),
    decreases ms.len(),
{
    let t = without(s, ms);
    if ms.len() == 0 {
        assert(t.writes =~= s.writes);
        assert(t.values =~= s.values);
    } else {
        let init = ms.drop_last();
        let m = ms.last();
        assert(only_removals(init)) by {
            assert forall|x: int| 0 <= x < init.len() implies (#[trigger] init[x]) is DeleteWrite
                || init[x] is DeleteValue by {
                assert(init[x] == ms[x]);
            }
        }
        lemma_apply_removals(s, init);
        let u = without(s, init);
        assert(ms[ms.len() - 1] == m);
        assert forall|w: ModifyView| ms.contains(w) <==> (init.contains(w) || w == m) by {
            if ms.contains(w) {
                let x = choose|x: int| 0 <= x < ms.len() && ms[x] == w;
                if x < init.len() {
                    assert(init[x] == w);
                }
            }
            if init.contains(w) {
                let x = choose|x: int| 0 <= x < init.len() && init[x] == w;
                assert(ms[x] == w);
            }
        }
        assert(u.apply(m).writes =~= t.writes);
        assert(u.apply(m).values =~= t.values);
    }
}

/// A store without exactly the removals that are due is the store after the
/// compaction.
proof fn lemma_without_is_selection(
    s: State,
    e: Seq<Entry<Write>>,
    sel: Seq<bool>,
    safe_point: u64,
    ms: Seq<ModifyView>,
)
    requires
        sorted(e),
        s.writes == table_map(e),
        all_due(e, sel, e.len() as int, safe_point, ms),
        forall|j: int|
            0 <= j < e.len() && removed_at(e, sel, e.len() as int, j, safe_point) ==> ms.contains(
                ModifyView::DeleteWrite((#[trigger] e[j]).key@, e[j].ts),
            ),
        forall|j: int|
            0 <= j < e.len() && removed_at(e, sel, e.len() as int, j, safe_point) && value_removal(
                (#[trigger] e[j]).key@,
                e[j].value@,
            ).len() > 0 ==> ms.contains(ModifyView::DeleteValue(e[j].key@, e[j].value@.start_ts)),
    ensures
        without(s, ms) == selection_collected(s, e, sel, safe_point),
{
    let n = e.len() as int;
    let a = without(s, ms);
    let b = selection_collected(s, e, sel, safe_point);
    assert forall|k: (Seq<u8>, u64)| a.writes.contains_key(k) <==> b.writes.contains_key(k) by {
        if s.writes.contains_key(k) {
            assert(has_key(e, k));
            let j = index_of(e, k);
            lemma_map_at(e, j);
            let m = ModifyView::DeleteWrite(k.0, k.1);
            if ms.contains(m) {
                let x = choose|x: int| 0 <= x < ms.len() && ms[x] == m;
                assert(is_due(e, sel, n, safe_point, ms[x]));
                let j2 = choose|j2: int|
                    0 <= j2 < e.len() && removed_at(e, sel, n, j2, safe_point) && removes(
                        #[trigger] e[j2],
                        m,
                    );
                assert(value_removal(e[j2].key@, e[j2].value@) != seq![m]) by {
                    let vr = value_removal(e[j2].key@, e[j2].value@);
                    if vr == seq![m] {
                        assert(vr[0] == m);
                    }
                }
                assert(entry_key(e[j2]) == k);
                lemma_map_at(e, j2);
            }
        }
    }
    assert(a.writes =~= b.writes);
    assert forall|k: (Seq<u8>, u64)| a.values.contains_key(k) <==> b.values.contains_key(k) by {
        let m = ModifyView::DeleteValue(k.0, k.1);
        if ms.contains(m) {
            let x = choose|x: int| 0 <= x < ms.len() && ms[x] == m;
            assert(is_due(e, sel, n, safe_point, ms[x]));
        }
        if is_due(e, sel, n, safe_point, m) {
            let j = choose|j: int|
                0 <= j < e.len() && removed_at(e, sel, n, j, safe_point) && removes(#[trigger] e[j], m);
            let vr = value_removal(e[j].key@, e[j].value@);
            assert(vr == seq![m]);
            assert(vr[0] == m);
            assert(ms.contains(m));
        }
    }
    assert(a.values =~= b.values);
}

/// The number of records of the compaction before place `n` that are not
/// above the safe point.
pub open spec fn seen_count(e: Seq<Entry<Write>>, sel: Seq<bool>, safe_point: u64, n: int) -> nat
    decreases n,
{
    if n <= 0 {
        0
    } else {
        seen_count(e, sel, safe_point, n - 1) + if picked(sel, n - 1) && e[n - 1].ts <= safe_point {
            1nat
        } else {
            0nat
        }
    }
}

/// The number of records before place `n` that the compaction drops.
pub open spec fn dropped_count(e: Seq<Entry<Write>>, sel: Seq<bool>, safe_point: u64, n: int) -> nat
    decreases n,
{
    if n <= 0 {
        0
    } else {
        dropped_count(e, sel, safe_point, n - 1) + if dropped_at(e, sel, n, n - 1, safe_point) {
            1nat
        } else {
            0nat
        }
    }
}

proof fn lemma_counts_bounded(e: Seq<Entry<Write>>, sel: Seq<bool>, safe_point: u64, n: int)
    requires
        0 <= n,
    ensures
        seen_count(e, sel, safe_point, n) <= n,
        dropped_count(e, sel, safe_point, n) <= n,
    decreases n,
{
    if n > 0 {
        lemma_counts_bounded(e, sel, safe_point, n - 1);
    }
}

/// Whether the filter has seen the records of the compaction before place
/// `i` and stands ready for the one at `i`.
spec fn filter_at(
    f: &WriteCompactionFilter,
    e: Seq<Entry<Write>>,
    sel: Seq<bool>,
    i: int,
    safe_point: u64,
) -> bool {
    &&& f.wf()
    &&& f.entries() == e
    &&& f.safe_point() == safe_point
    &&& i < e.len() ==> f.key_prefix() == e[i].key@ || lex_less(f.key_prefix(), e[i].key@)
    &&& forall|j: int|
        0 <= j < i && picked(sel, j) && (#[trigger] e[j]).ts <= safe_point ==> e[j].key@
            == f.key_prefix() || lex_less(e[j].key@, f.key_prefix())
    &&& f.remove_older() == (exists|j: int|
        0 <= j < i && picked(sel, j) && (#[trigger] e[j]).key@ == f.key_prefix() && e[j].ts
            <= safe_point && e[j].value@.is_data())
}

/// The filter's view of the versions of a key agrees with the records before
/// place `i`.
proof fn lemma_remove_older(
    f: &WriteCompactionFilter,
    e: Seq<Entry<Write>>,
    sel: Seq<bool>,
    i: int,
    safe_point: u64,
)
    requires
        sorted(e),
        0 <= i < e.len(),
        filter_at(f, e, sel, i, safe_point),
        e[i].ts <= safe_point,
    ensures
        f.remove_older_for(e[i].key@) == newer_data_before(e, sel, i, safe_point),
{
    let key = e[i].key@;
    if f.key_prefix() != key {
        if newer_data_before(e, sel, i, safe_point) {
            let j = choose|j: int|
                0 <= j < i && picked(sel, j) && (#[trigger] e[j]).key@ == e[i].key@ && e[j].ts
                    <= safe_point && e[j].value@.is_data();
            lemma_lex_irreflexive(key);
            if lex_less(e[j].key@, f.key_prefix()) {
                lemma_lex_transitive(key, f.key_prefix(), key);
            }
        }
    }
}

/// A filter that was not shown the record at place `i` stands ready for the
/// next one.
proof fn lemma_filter_skip(f: &WriteCompactionFilter, e: Seq<Entry<Write>>, sel: Seq<bool>, i: int, safe_point: u64)
    requires
        sorted(e),
        0 <= i < e.len(),
        filter_at(f, e, sel, i, safe_point),
        !picked(sel, i),
    ensures
        filter_at(f, e, sel, i + 1, safe_point),
{
    let kp = f.key_prefix();
    if i + 1 < e.len() {
        assert(pair_less(entry_key(e[i]), entry_key(e[i + 1])));
        if lex_less(kp, e[i].key@) && lex_less(e[i].key@, e[i + 1].key@) {
            lemma_lex_transitive(kp, e[i].key@, e[i + 1].key@);
        }
    }
    let now = exists|j: int|
        0 <= j < i + 1 && picked(sel, j) && (#[trigger] e[j]).key@ == kp && e[j].ts <= safe_point
            && e[j].value@.is_data();
    let was = exists|j: int|
        0 <= j < i && picked(sel, j) && (#[trigger] e[j]).key@ == kp && e[j].ts <= safe_point
            && e[j].value@.is_data();
    if now {
        let j = choose|j: int|
            0 <= j < i + 1 && picked(sel, j) && (#[trigger] e[j]).key@ == kp && e[j].ts <= safe_point
                && e[j].value@.is_data();
        assert(j < i);
        assert(was);
    }
    if was {
        let j = choose|j: int|
            0 <= j < i && picked(sel, j) && (#[trigger] e[j]).key@ == kp && e[j].ts <= safe_point
                && e[j].value@.is_data();
        assert(e[j].key@ == kp);
        assert(now);
    }
}

/// After the record at place `i`, the filter stands ready for the next one.
proof fn lemma_filter_step(
    before: &WriteCompactionFilter,
    after: &WriteCompactionFilter,
    e: Seq<Entry<Write>>,
    sel: Seq<bool>,
    i: int,
    safe_point: u64,
)
    requires
        sorted(e),
        0 <= i < e.len(),
        picked(sel, i),
        filter_at(before, e, sel, i, safe_point),
        after.wf(),
        after.entries() == e,
        after.safe_point() == safe_point,
        e[i].ts > safe_point ==> after.key_prefix() == before.key_prefix() && after.remove_older()
            == before.remove_older(),
        e[i].ts <= safe_point ==> after.key_prefix() == e[i].key@ && after.remove_older() == (
        before.remove_older_for(e[i].key@) || e[i].value@.is_data()),
    ensures
        filter_at(after, e, sel, i + 1, safe_point),
{
    let key = e[i].key@;
    let kp = after.key_prefix();
    lemma_lex_irreflexive(key);
    if i + 1 < e.len() {
        assert(pair_less(entry_key(e[i]), entry_key(e[i + 1])));
        if e[i].ts > safe_point && lex_less(kp, key) && lex_less(key, e[i + 1].key@) {
            lemma_lex_transitive(kp, key, e[i + 1].key@);
        }
    }
    assert forall|j: int|
        0 <= j < i + 1 && picked(sel, j) && (#[trigger] e[j]).ts <= safe_point implies e[j].key@ == kp
        || lex_less(e[j].key@, kp) by {
        if e[i].ts <= safe_point {
            if j < i {
                assert(pair_less(entry_key(e[j]), entry_key(e[i])));
            }
        }
    }
    let now = exists|j: int|
        0 <= j < i + 1 && picked(sel, j) && (#[trigger] e[j]).key@ == kp && e[j].ts <= safe_point
            && e[j].value@.is_data();
    let was = exists|j: int|
        0 <= j < i && picked(sel, j) && (#[trigger] e[j]).key@ == before.key_prefix() && e[j].ts
            <= safe_point && e[j].value@.is_data();
    if e[i].ts > safe_point {
        if now {
            let j = choose|j: int|
                0 <= j < i + 1 && picked(sel, j) && (#[trigger] e[j]).key@ == kp && e[j].ts
                    <= safe_point && e[j].value@.is_data();
            assert(j < i);
            assert(was);
        }
        if was {
            let j = choose|j: int|
                0 <= j < i && picked(sel, j) && (#[trigger] e[j]).key@ == before.key_prefix() && e[j].ts
                    <= safe_point && e[j].value@.is_data();
            assert(e[j].key@ == kp);
            assert(now);
        }
    } else {
        lemma_remove_older(before, e, sel, i, safe_point);
        if now {
            let j = choose|j: int|
                0 <= j < i + 1 && picked(sel, j) && (#[trigger] e[j]).key@ == kp && e[j].ts
                    <= safe_point && e[j].value@.is_data();
            if j < i {
                assert(newer_data_before(e, sel, i, safe_point));
            }
        }
        if newer_data_before(e, sel, i, safe_point) {
            let j = choose|j: int|
                0 <= j < i && picked(sel, j) && (#[trigger] e[j]).key@ == e[i].key@ && e[j].ts
                    <= safe_point && e[j].value@.is_data();
            assert(e[j].key@ == kp);
            assert(now);
        }
        if e[i].value@.is_data() {
            assert(e[i].key@ == kp);
            assert(now);
        }
    }
}

/// Whether the filter has seen the records of the compaction before place
/// `i`, has counted them, and has asked for the removal of what its walks
/// remove and of the values behind the records that it drops, and of nothing
/// that is not due.
#[verifier::opaque]
spec fn filter_done(
    f: &WriteCompactionFilter,
    e: Seq<Entry<Write>>,
    sel: Seq<bool>,
    i: int,
    safe_point: u64,
) -> bool {
    &&& filter_at(f, e, sel, i, safe_point)
    &&& f.counts().versions + f.counts().total_versions == seen_count(e, sel, safe_point, i)
    &&& f.counts().filtered + f.counts().total_filtered == dropped_count(e, sel, safe_point, i)
    &&& all_due(e, sel, i, safe_point, f.issued())
    &&& only_removals(f.issued())
    &&& forall|j: int|
        0 <= j < e.len() && removed_at(e, sel, i, j, safe_point) && value_removal(
            (#[trigger] e[j]).key@,
            e[j].value@,
        ).len() > 0 ==> f.issued().contains(ModifyView::DeleteValue(e[j].key@, e[j].value@.start_ts))
    &&& forall|j: int|
        0 <= j < e.len() && walked_at(e, sel, i, j, safe_point) ==> f.issued().contains(
            ModifyView::DeleteWrite((#[trigger] e[j]).key@, e[j].ts),
        )
}

/// Whether `drops` removes exactly the records before place `i` that the
/// compaction drops.
#[verifier::opaque]
spec fn drops_done(drops: Seq<ModifyView>, e: Seq<Entry<Write>>, sel: Seq<bool>, i: int, safe_point: u64) -> bool {
    &&& all_due(e, sel, i, safe_point, drops)
    &&& only_removals(drops)
    &&& forall|j: int|
        0 <= j < e.len() && dropped_at(e, sel, i, j, safe_point) ==> drops.contains(
            ModifyView::DeleteWrite((#[trigger] e[j]).key@, e[j].ts),
        )
}

/// A record that is not part of the compaction leaves what the filter has
/// done as it is.
proof fn lemma_filter_done_skip(
    f: &WriteCompactionFilter,
    e: Seq<Entry<Write>>,
    sel: Seq<bool>,
    i: int,
    safe_point: u64,
)
    requires
        sorted(e),
        0 <= i < e.len(),
        filter_done(f, e, sel, i, safe_point),
        !picked(sel, i),
    ensures
        filter_done(f, e, sel, i + 1, safe_point),
        !dropped_at(e, sel, i + 1, i, safe_point),
{
    reveal(filter_done);
    lemma_filter_skip(f, e, sel, i, safe_point);
    lemma_due_grows(e, sel, i, safe_point, f.issued());
    assert forall|j: int| 0 <= j < e.len() && walked_at(e, sel, i + 1, j, safe_point) implies walked_at(
        e,
        sel,
        i,
        j,
        safe_point,
    ) by {
        let m = choose|m: int|
            0 <= m < i + 1 && m < j && #[trigger] is_mark(e, sel, m, safe_point) && e[m].key@
                == e[j].key@;
        assert(m < i);
    }
}

/// The answer of the filter for the record at place `i` is that of the
/// compaction, and the filter has then done its part for the records before
/// place `i + 1`.
proof fn lemma_filter_done_step(
    before: &WriteCompactionFilter,
    after: &WriteCompactionFilter,
    e: Seq<Entry<Write>>,
    sel: Seq<bool>,
    i: int,
    safe_point: u64,
    filtered: bool,
)
    requires
        sorted(e),
        0 <= i < e.len(),
        e.len() <= usize::MAX,
        picked(sel, i),
        filter_done(before, e, sel, i, safe_point),
        after.wf(),
        after.filtered_from(before, e[i].key@, e[i].ts, e[i].value@, filtered),
    ensures
        filtered == dropped_at(e, sel, i + 1, i, safe_point),
        filter_done(after, e, sel, i + 1, safe_point),
{
    reveal(filter_done);
    let w = e[i].value@;
    let key = e[i].key@;
    let ts = e[i].ts;
    let ro = before.remove_older_for(key);
    let issued = before.issued();
    lemma_own_position(e, i);
    lemma_counts_bounded(e, sel, safe_point, i);
    if ts <= safe_point {
        lemma_remove_older(before, e, sel, i, safe_point);
    }
    lemma_filter_step(before, after, e, sel, i, safe_point);
    lemma_due_grows(e, sel, i, safe_point, issued);
    assert(filtered == dropped_at(e, sel, i + 1, i, safe_point));
    let own = if ts <= safe_point && filtered {
        value_removal(key, w)
    } else {
        Seq::empty()
    };
    let marks = ts <= safe_point && walks_behind(ro, w);
    assert(marks == is_mark(e, sel, i, safe_point));
    let end = after.iter_pos();
    let walked = if marks {
        walk_removals(e, i + 1, end)
    } else {
        Seq::empty()
    };
    if marks {
        assert(is_position(e, (key, ts), i));
        assert(is_walk_end(e, key, i + 1, end));
        lemma_walk_due(e, sel, safe_point, i, end);
    }
    assert(after.issued() =~= issued + walked + own);
    assert(all_due(e, sel, i + 1, safe_point, own)) by {
        assert forall|x: int| 0 <= x < own.len() implies is_due(e, sel, i + 1, safe_point, #[trigger] own[x]) by {
            assert(own =~= seq![own[x]]);
            assert(removes(e[i], own[x]));
        }
    }
    lemma_due_concat(e, sel, i + 1, safe_point, issued, walked);
    lemma_due_concat(e, sel, i + 1, safe_point, issued + walked, own);
    assert(only_removals(after.issued())) by {
        assert forall|x: int| 0 <= x < after.issued().len() implies (#[trigger] after.issued()[x]) is DeleteWrite
            || after.issued()[x] is DeleteValue by {
            assert(is_due(e, sel, i + 1, safe_point, after.issued()[x]));
            lemma_due_is_removal(e, sel, i + 1, safe_point, after.issued()[x]);
        }
    }
    assert forall|m: ModifyView| issued.contains(m) || walked.contains(m) || own.contains(m) implies after.issued().contains(
        m,
    ) by {
        if issued.contains(m) {
            let x = choose|x: int| 0 <= x < issued.len() && issued[x] == m;
            assert(after.issued()[x] == m);
        } else if walked.contains(m) {
            let x = choose|x: int| 0 <= x < walked.len() && walked[x] == m;
            assert(after.issued()[(issued.len() + x) as int] == m);
        } else {
            let x = choose|x: int| 0 <= x < own.len() && own[x] == m;
            assert(after.issued()[(issued.len() + walked.len() + x) as int] == m);
        }
    }
    // What a walk has removed by now, an earlier walk or this one has removed.
    assert forall|j: int| 0 <= j < e.len() && walked_at(e, sel, i + 1, j, safe_point) implies walked_at(
        e,
        sel,
        i,
        j,
        safe_point,
    ) || (marks && i < j < end) by {
        let m = choose|m: int|
            0 <= m < i + 1 && m < j && #[trigger] is_mark(e, sel, m, safe_point) && e[m].key@
                == e[j].key@;
        if m == i {
            if j >= end {
                lemma_key_together(e, i, end, j);
            }
        }
    }
    assert forall|j: int|
        0 <= j < e.len() && walked_at(e, sel, i + 1, j, safe_point) implies after.issued().contains(
        ModifyView::DeleteWrite((#[trigger] e[j]).key@, e[j].ts),
    ) by {
        if !walked_at(e, sel, i, j, safe_point) {
            lemma_walk_contains(e, i + 1, end, j);
        }
    }
    assert forall|j: int|
        0 <= j < e.len() && removed_at(e, sel, i + 1, j, safe_point) && value_removal(
            (#[trigger] e[j]).key@,
            e[j].value@,
        ).len() > 0 implies after.issued().contains(
        ModifyView::DeleteValue(e[j].key@, e[j].value@.start_ts),
    ) by {
        let v = ModifyView::DeleteValue(e[j].key@, e[j].value@.start_ts);
        if removed_at(e, sel, i, j, safe_point) {
            assert(issued.contains(v));
        } else if walked_at(e, sel, i + 1, j, safe_point) {
            lemma_walk_contains(e, i + 1, end, j);
        } else {
            assert(j == i);
            assert(own[0] == v);
        }
    }
}

/// With the removal of the record at place `i`, if the compaction drops it,
/// `drops` removes exactly the records before place `i + 1` that it drops.
proof fn lemma_drops_done_step(
    drops: Seq<ModifyView>,
    after: Seq<ModifyView>,
    e: Seq<Entry<Write>>,
    sel: Seq<bool>,
    i: int,
    safe_point: u64,
)
    requires
        0 <= i < e.len(),
        drops_done(drops, e, sel, i, safe_point),
        after == if dropped_at(e, sel, i + 1, i, safe_point) {
            drops.push(ModifyView::DeleteWrite(e[i].key@, e[i].ts))
        } else {
            drops
        },
    ensures
        drops_done(after, e, sel, i + 1, safe_point),
{
    reveal(drops_done);
    lemma_due_grows(e, sel, i, safe_point, drops);
    if dropped_at(e, sel, i + 1, i, safe_point) {
        let m = ModifyView::DeleteWrite(e[i].key@, e[i].ts);
        assert(removes(e[i], m));
        assert(is_due(e, sel, i + 1, safe_point, m));
        assert forall|m2: ModifyView| drops.contains(m2) implies after.contains(m2) by {
            let x = choose|x: int| 0 <= x < drops.len() && drops[x] == m2;
            assert(after[x] == m2);
        }
        assert(after[drops.len() as int] == m);
        assert forall|x: int| 0 <= x < after.len() implies is_due(
            e,
            sel,
            i + 1,
            safe_point,
            #[trigger] after[x],
        ) by {
            if x < drops.len() {
                assert(after[x] == drops[x]);
            }
        }
        assert forall|x: int| 0 <= x < after.len() implies (#[trigger] after[x]) is DeleteWrite
            || after[x] is DeleteValue by {
            if x < drops.len() {
                assert(after[x] == drops[x]);
            }
        }
    }
}

/// The number of records before place `n` that the walks behind the delete
/// marks among the first `upto` records remove.
pub open spec fn walked_count(e: Seq<Entry<Write>>, sel: Seq<bool>, upto: int, safe_point: u64, n: int) -> nat
    decreases n,
{
    if n <= 0 {
        0
    } else {
        walked_count(e, sel, upto, safe_point, n - 1) + if walked_at(e, sel, upto, n - 1, safe_point) {
            1nat
        } else {
            0nat
        }
    }
}

proof fn lemma_walked_count_bounded(e: Seq<Entry<Write>>, sel: Seq<bool>, upto: int, safe_point: u64, n: int)
    requires
        0 <= n,
    ensures
        walked_count(e, sel, upto, safe_point, n) <= n,
    decreases n,
{
    if n > 0 {
        lemma_walked_count_bounded(e, sel, upto, safe_point, n - 1);
    }
}

/// Where one record more brings no walk that removes anything new, the
/// number of records that walks remove stays.
proof fn lemma_walked_count_same(e: Seq<Entry<Write>>, sel: Seq<bool>, upto: int, safe_point: u64, n: int)
    requires
        0 <= n <= e.len(),
        forall|j: int|
            0 <= j < n ==> walked_at(e, sel, upto + 1, j, safe_point) == walked_at(
                e,
                sel,
                upto,
                j,
                safe_point,
            ),
    ensures
        walked_count(e, sel, upto + 1, safe_point, n) == walked_count(e, sel, upto, safe_point, n),
    decreases n,
{
    if n > 0 {
        lemma_walked_count_same(e, sel, upto, safe_point, n - 1);
    }
}

/// Where the record at place `mark` is a delete mark whose walk goes up to
/// `end`, the walks remove what they removed before and what this one
/// passes but the protected rollbacks.
proof fn lemma_walked_count_mark(
    e: Seq<Entry<Write>>,
    sel: Seq<bool>,
    mark: int,
    end: int,
    safe_point: u64,
    n: int,
)
    requires
        0 <= mark < end <= e.len(),
        0 <= n <= e.len(),
        forall|j: int|
            0 <= j < e.len() && !(mark < j < end) ==> walked_at(e, sel, mark + 1, j, safe_point)
                == walked_at(e, sel, mark, j, safe_point),
        forall|j: int|
            mark < j < end ==> !walked_at(e, sel, mark, j, safe_point) && walked_at(
                e,
                sel,
                mark + 1,
                j,
                safe_point,
            ) == !(#[trigger] e[j]).value@.is_protected(),
    ensures
        walked_count(e, sel, mark + 1, safe_point, n) == walked_count(e, sel, mark, safe_point, n) + (
        if n <= mark + 1 {
            0nat
        } else if n <= end {
            walk_count(e, mark + 1, n)
        } else {
            walk_count(e, mark + 1, end)
        }),
    decreases n,
{
    if n > 0 {
        lemma_walked_count_mark(e, sel, mark, end, safe_point, n - 1);
        let j = n - 1;
        if mark < j < end {
            assert(!walked_at(e, sel, mark, j, safe_point) && walked_at(e, sel, mark + 1, j, safe_point)
                == !e[j].value@.is_protected());
        } else {
            assert(walked_at(e, sel, mark + 1, j, safe_point) == walked_at(e, sel, mark, j, safe_point));
        }
    }
}

/// Whether the filter has counted, as removed behind delete marks, the
/// records that the walks behind the marks before place `i` remove.
#[verifier::opaque]
spec fn deleted_done(f: &WriteCompactionFilter, e: Seq<Entry<Write>>, sel: Seq<bool>, i: int, safe_point: u64) -> bool {
    f.counts().deleted + f.counts().total_deleted == walked_count(e, sel, i, safe_point, e.len() as int)
}

/// A record that is not part of the compaction brings no walk.
proof fn lemma_deleted_done_skip(f: &WriteCompactionFilter, e: Seq<Entry<Write>>, sel: Seq<bool>, i: int, safe_point: u64)
    requires
        0 <= i < e.len(),
        deleted_done(f, e, sel, i, safe_point),
        !picked(sel, i),
    ensures
        deleted_done(f, e, sel, i + 1, safe_point),
{
    reveal(deleted_done);
    assert forall|j: int| 0 <= j < e.len() implies walked_at(e, sel, i + 1, j, safe_point) == walked_at(
        e,
        sel,
        i,
        j,
        safe_point,
    ) by {
        lemma_walked_grows(e, sel, i, j, safe_point);
    }
    lemma_walked_count_same(e, sel, i, safe_point, e.len() as int);
}

/// What the walks behind the marks among the first `upto` records remove,
/// those among one record more remove too; and a record that they do not
/// is one that a walk behind the record at `upto` removes.
proof fn lemma_walked_grows(e: Seq<Entry<Write>>, sel: Seq<bool>, upto: int, j: int, safe_point: u64)
    requires
        0 <= upto,
    ensures
        walked_at(e, sel, upto, j, safe_point) ==> walked_at(e, sel, upto + 1, j, safe_point),
        walked_at(e, sel, upto + 1, j, safe_point) && !walked_at(e, sel, upto, j, safe_point) ==> is_mark(
            e,
            sel,
            upto,
            safe_point,
        ) && upto < j && e[upto].key@ == e[j].key@,
{
    if walked_at(e, sel, upto, j, safe_point) {
        let m = choose|m: int|
            0 <= m < upto && m < j && #[trigger] is_mark(e, sel, m, safe_point) && e[m].key@ == e[j].key@;
        assert(is_mark(e, sel, m, safe_point));
    }
    if walked_at(e, sel, upto + 1, j, safe_point) && !walked_at(e, sel, upto, j, safe_point) {
        let m = choose|m: int|
            0 <= m < upto + 1 && m < j && #[trigger] is_mark(e, sel, m, safe_point) && e[m].key@
                == e[j].key@;
        assert(is_mark(e, sel, m, safe_point));
        assert(m == upto);
    }
}

/// After the record at place `i`, the filter has counted what the walks
/// behind the marks before place `i + 1` remove.
proof fn lemma_deleted_done_step(
    before: &WriteCompactionFilter,
    after: &WriteCompactionFilter,
    e: Seq<Entry<Write>>,
    sel: Seq<bool>,
    i: int,
    safe_point: u64,
    filtered: bool,
)
    requires
        sorted(e),
        0 <= i < e.len(),
        e.len() <= usize::MAX,
        picked(sel, i),
        filter_done(before, e, sel, i, safe_point),
        deleted_done(before, e, sel, i, safe_point),
        after.filtered_from(before, e[i].key@, e[i].ts, e[i].value@, filtered),
    ensures
        deleted_done(after, e, sel, i + 1, safe_point),
{
    reveal(filter_done);
    reveal(deleted_done);
    let n = e.len() as int;
    let key = e[i].key@;
    let ts = e[i].ts;
    let w = e[i].value@;
    let ro = before.remove_older_for(key);
    lemma_own_position(e, i);
    lemma_walked_count_bounded(e, sel, i, safe_point, n);
    lemma_walked_count_bounded(e, sel, i + 1, safe_point, n);
    if ts <= safe_point {
        lemma_remove_older(before, e, sel, i, safe_point);
    }
    let marks = ts <= safe_point && walks_behind(ro, w);
    assert(marks == is_mark(e, sel, i, safe_point));
    if marks {
        let end = after.iter_pos();
        assert(is_position(e, (key, ts), i));
        assert(is_walk_end(e, key, i + 1, end));
        assert forall|j: int| 0 <= j < e.len() && !(i < j < end) implies walked_at(
            e,
            sel,
            i + 1,
            j,
            safe_point,
        ) == walked_at(e, sel, i, j, safe_point) by {
            lemma_walked_grows(e, sel, i, j, safe_point);
            if j >= end && e[i].key@ == e[j].key@ {
                lemma_key_together(e, i, end, j);
            }
        }
        assert forall|j: int| i < j < end implies !walked_at(e, sel, i, j, safe_point) && walked_at(
            e,
            sel,
            i + 1,
            j,
            safe_point,
        ) == !(#[trigger] e[j]).value@.is_protected() by {
            assert(e[j].key@ == key);
            if walked_at(e, sel, i, j, safe_point) {
                let m = choose|m: int|
                    0 <= m < i && m < j && #[trigger] is_mark(e, sel, m, safe_point) && e[m].key@
                        == e[j].key@;
                assert(e[m].key@ == e[i].key@);
                assert(newer_data_before(e, sel, i, safe_point));
            }
            if !e[j].value@.is_protected() {
                assert(is_mark(e, sel, i, safe_point));
                assert(walked_at(e, sel, i + 1, j, safe_point));
            }
        }
        lemma_walked_count_mark(e, sel, i, end, safe_point, n);
    } else {
        assert forall|j: int| 0 <= j < e.len() implies walked_at(e, sel, i + 1, j, safe_point)
            == walked_at(e, sel, i, j, safe_point) by {
            lemma_walked_grows(e, sel, i, j, safe_point);
        }
        lemma_walked_count_same(e, sel, i, safe_point, n);
    }
}

proof fn lemma_no_walk_yet(e: Seq<Entry<Write>>, sel: Seq<bool>, safe_point: u64, n: int)
    ensures
        walked_count(e, sel, 0, safe_point, n) == 0,
    decreases n,
{
    if n > 0 {
        lemma_no_walk_yet(e, sel, safe_point, n - 1);
    }
}

/// A filter that has seen nothing has done its part for no record, and no
/// removals are those of no record.
proof fn lemma_nothing_done(f: &WriteCompactionFilter, engine: &Engine, sel: Seq<bool>, safe_point: u64)
    requires
        f.is_fresh(engine, safe_point),
        sorted(engine.write_entries()),
    ensures
        filter_done(f, engine.write_entries(), sel, 0, safe_point),
        deleted_done(f, engine.write_entries(), sel, 0, safe_point),
        drops_done(Seq::empty(), engine.write_entries(), sel, 0, safe_point),
{
    reveal(filter_done);
    reveal(deleted_done);
    reveal(drops_done);
    lemma_no_walk_yet(engine.write_entries(), sel, safe_point, engine.write_entries().len() as int);
    let e = engine.write_entries();
    if 0 < e.len() {
        crate::txn_types::order::lemma_lex_total(Seq::<u8>::empty(), e[0].key@);
        assert(!lex_less(e[0].key@, Seq::<u8>::empty()));
    }
    assert forall|j: int| 0 <= j < e.len() implies !removed_at(e, sel, 0, j, safe_point) by {}
}

/// A filter that has done its part for the records before place `i` can be
/// shown the record at `i`.
proof fn lemma_filter_ready(f: &WriteCompactionFilter, e: Seq<Entry<Write>>, sel: Seq<bool>, i: int, safe_point: u64)
    requires
        filter_done(f, e, sel, i, safe_point),
        0 <= i < e.len(),
    ensures
        f.wf(),
        f.entries() == e,
{
    reveal(filter_done);
}

/// Once the filter has done its part for every record, its counts are those
/// of the compaction.
proof fn lemma_counts_done(f: &WriteCompactionFilter, e: Seq<Entry<Write>>, sel: Seq<bool>, safe_point: u64)
    requires
        e.len() <= usize::MAX,
        filter_done(f, e, sel, e.len() as int, safe_point),
        deleted_done(f, e, sel, e.len() as int, safe_point),
    ensures
        f.counts().switched().total_versions == seen_count(e, sel, safe_point, e.len() as int),
        f.counts().switched().total_filtered == dropped_count(e, sel, safe_point, e.len() as int),
        f.counts().switched().total_deleted == walked_count(
            e,
            sel,
            e.len() as int,
            safe_point,
            e.len() as int,
        ),
{
    reveal(filter_done);
    reveal(deleted_done);
    lemma_counts_bounded(e, sel, safe_point, e.len() as int);
    lemma_walked_count_bounded(e, sel, e.len() as int, safe_point, e.len() as int);
}

/// Whether the removals that the filter has asked for and those of the
/// dropped records are, together, those of exactly the records that the
/// compaction has removed.
spec fn removals_done(
    issued: Seq<ModifyView>,
    drops: Seq<ModifyView>,
    e: Seq<Entry<Write>>,
    sel: Seq<bool>,
    safe_point: u64,
) -> bool {
    let n = e.len() as int;
    &&& all_due(e, sel, n, safe_point, issued)
    &&& only_removals(issued)
    &&& all_due(e, sel, n, safe_point, drops)
    &&& only_removals(drops)
    &&& forall|j: int|
        0 <= j < e.len() && removed_at(e, sel, n, j, safe_point) && value_removal(
            (#[trigger] e[j]).key@,
            e[j].value@,
        ).len() > 0 ==> issued.contains(ModifyView::DeleteValue(e[j].key@, e[j].value@.start_ts))
    &&& forall|j: int|
        0 <= j < e.len() && walked_at(e, sel, n, j, safe_point) ==> issued.contains(
            ModifyView::DeleteWrite((#[trigger] e[j]).key@, e[j].ts),
        )
    &&& forall|j: int|
        0 <= j < e.len() && dropped_at(e, sel, n, j, safe_point) ==> drops.contains(
            ModifyView::DeleteWrite((#[trigger] e[j]).key@, e[j].ts),
        )
}

/// Removals that are those of exactly the removed records hold, one batch
/// after the other, every removal that is due and nothing else.
proof fn lemma_removals_done(
    issued: Seq<ModifyView>,
    drops: Seq<ModifyView>,
    e: Seq<Entry<Write>>,
    sel: Seq<bool>,
    safe_point: u64,
    ms: Seq<ModifyView>,
)
    requires
        removals_done(issued, drops, e, sel, safe_point),
        ms == issued + drops,
    ensures
        only_removals(ms),
        all_due(e, sel, e.len() as int, safe_point, ms),
        forall|j: int|
            0 <= j < e.len() && removed_at(e, sel, e.len() as int, j, safe_point) ==> ms.contains(
                ModifyView::DeleteWrite((#[trigger] e[j]).key@, e[j].ts),
            ),
        forall|j: int|
            0 <= j < e.len() && removed_at(e, sel, e.len() as int, j, safe_point) && value_removal(
                (#[trigger] e[j]).key@,
                e[j].value@,
            ).len() > 0 ==> ms.contains(ModifyView::DeleteValue(e[j].key@, e[j].value@.start_ts)),
{
    let n = e.len() as int;
    lemma_due_concat(e, sel, n, safe_point, issued, drops);
    assert(only_removals(ms)) by {
        assert forall|x: int| 0 <= x < ms.len() implies (#[trigger] ms[x]) is DeleteWrite
            || ms[x] is DeleteValue by {
            if x < issued.len() {
                assert(ms[x] == issued[x]);
            } else {
                assert(ms[x] == drops[x - issued.len()]);
            }
        }
    }
    assert forall|m: ModifyView| issued.contains(m) || drops.contains(m) implies ms.contains(m) by {
        if issued.contains(m) {
            let x = choose|x: int| 0 <= x < issued.len() && issued[x] == m;
            assert(ms[x] == m);
        } else {
            let x = choose|x: int| 0 <= x < drops.len() && drops[x] == m;
            assert(ms[(issued.len() + x) as int] == m);
        }
    }
}

/// Once the filter and the drops have done their parts for every record,
/// their removals leave the store as the compaction leaves it.
proof fn lemma_all_done(
    f: &WriteCompactionFilter,
    drops: Seq<ModifyView>,
    s: State,
    e: Seq<Entry<Write>>,
    sel: Seq<bool>,
    safe_point: u64,
    ms: Seq<ModifyView>,
)
    requires
        sorted(e),
        s.writes == table_map(e),
        e.len() <= usize::MAX,
        filter_done(f, e, sel, e.len() as int, safe_point),
        drops_done(drops, e, sel, e.len() as int, safe_point),
        ms == f.issued() + drops,
    ensures
        s.apply_all(ms) == selection_collected(s, e, sel, safe_point),
{
    assert(removals_done(f.issued(), drops, e, sel, safe_point)) by {
        reveal(filter_done);
        reveal(drops_done);
    }
    lemma_removals_done(f.issued(), drops, e, sel, safe_point, ms);
    lemma_apply_removals(s, ms);
    lemma_without_is_selection(s, e, sel, safe_point, ms);
}

/// The removals that a compaction makes at `safe_point` when its files hold
/// the records of the write column family that `selected` picks, by their
/// place: of every record of the compaction that the filter drops, of every
/// older version behind a delete mark of the compaction, and of the values
/// behind them. With them come the numbers of versions seen at or below the
/// safe point, of records dropped and of records removed behind delete
/// marks.
pub fn plan_compaction_of(engine: &Engine, selected: &Vec<bool>, safe_point: u64) -> (r: (
    Vec<Modify>,
    usize,
    usize,
    usize,
))
    requires
        safe_point > 0,
    ensures
        engine@.apply_all(batch_view(r.0@)) == selection_collected(
            engine@,
            engine.write_entries(),
            selected@,
            safe_point,
        ),
        r.1 == seen_count(
            engine.write_entries(),
            selected@,
            safe_point,
            engine.write_entries().len() as int,
        ),
        r.2 == dropped_count(
            engine.write_entries(),
            selected@,
            safe_point,
            engine.write_entries().len() as int,
        ),
        r.3 == walked_count(
            engine.write_entries(),
            selected@,
            engine.write_entries().len() as int,
            safe_point,
            engine.write_entries().len() as int,
        ),
{
    let n = engine.write_count();
    let ghost e = engine.write_entries();
    let ghost s = engine@;
    let ghost sel = selected@;
    let mut filter = WriteCompactionFilter::new(engine, safe_point);
    let mut drops: Vec<Modify> = Vec::new();
    let mut i: usize = 0;
    proof {
        assert(batch_view(drops@) =~= Seq::<ModifyView>::empty());
        lemma_nothing_done(&filter, engine, sel, safe_point);
    }
    while i < n
        invariant
            i <= n,
            n == e.len(),
            e == engine.write_entries(),
            sel == selected@,
            sorted(e),
            filter_done(&filter, e, sel, i as int, safe_point),
            deleted_done(&filter, e, sel, i as int, safe_point),
            drops_done(batch_view(drops@), e, sel, i as int, safe_point),
        decreases n - i,
    {
        let ghost dropped = batch_view(drops@);
        if i < selected.len() && selected[i] {
            let entry = engine.write_entry(i);
            let ghost before = filter;
            proof {
                lemma_filter_ready(&filter, e, sel, i as int, safe_point);
            }
            let filtered = filter.filter_record(entry.key.as_slice(), entry.ts, &entry.value);
            proof {
                lemma_deleted_done_step(&before, &filter, e, sel, i as int, safe_point, filtered);
                lemma_filter_done_step(&before, &filter, e, sel, i as int, safe_point, filtered);
            }
            if filtered {
                drops.push(Modify::DeleteWrite(clone_bytes(entry.key.as_slice()), TimeStamp(entry.ts)));
                assert(batch_view(drops@) =~= dropped.push(ModifyView::DeleteWrite(entry.key@, entry.ts)));
            }
        } else {
            proof {
                lemma_deleted_done_skip(&filter, e, sel, i as int, safe_point);
                lemma_filter_done_skip(&filter, e, sel, i as int, safe_point);
            }
        }
        proof {
            lemma_drops_done_step(dropped, batch_view(drops@), e, sel, i as int, safe_point);
        }
        i += 1;
    }
    let ghost done = filter;
    let ghost dropped = batch_view(drops@);
    let (mut removals, versions, filtered, deleted) = filter.finish();
    removals.append(&mut drops);
    proof {
        assert(batch_view(removals@) =~= done.issued() + dropped);
        lemma_all_done(&done, dropped, s, e, sel, safe_point, batch_view(removals@));
        lemma_counts_done(&done, e, sel, safe_point);
    }
    (removals, versions, filtered, deleted)
}

/// Compacts the records of the write column family that `selected` picks,
/// by their place, with garbage collection at `safe_point`; without a safe
/// point nothing is collected. Returns the numbers of versions seen at or
/// below the safe point, of records dropped and of records removed behind
/// delete marks.
pub fn gc_by_compact_of(engine: &mut Engine, selected: &Vec<bool>, safe_point: u64) -> (r: (
    usize,
    usize,
    usize,
))
    ensures
        safe_point == 0 ==> final(engine)@ == old(engine)@ && r == (0usize, 0usize, 0usize),
        safe_point != 0 ==> final(engine)@ == selection_collected(
            old(engine)@,
            old(engine).write_entries(),
            selected@,
            safe_point,
        ) && r.0 == seen_count(
            old(engine).write_entries(),
            selected@,
            safe_point,
            old(engine).write_entries().len() as int,
        ) && r.1 == dropped_count(
            old(engine).write_entries(),
            selected@,
            safe_point,
            old(engine).write_entries().len() as int,
        ) && r.2 == walked_count(
            old(engine).write_entries(),
            selected@,
            old(engine).write_entries().len() as int,
            safe_point,
            old(engine).write_entries().len() as int,
        ),
{
    if safe_point == 0 {
        return (0, 0, 0);
    }
    let (removals, versions, filtered, deleted) = plan_compaction_of(&*engine, selected, safe_point);
    engine.write(removals);
    (versions, filtered, deleted)
}

/// The selection that picks each of `n` records.
pub open spec fn all_picked(n: nat) -> Seq<bool> {
    Seq::new(n, |j: int| true)
}

/// Whether `sel` picks every record of the column family.
pub open spec fn picks_all(e: Seq<Entry<Write>>, sel: Seq<bool>) -> bool {
    sel.len() == e.len() && forall|j: int| 0 <= j < sel.len() ==> #[trigger] sel[j]
}

/// A compaction of every record removes the records that garbage collection
/// does not keep: what its walks remove, it drops as well.
proof fn lemma_removed_of_all(s: State, e: Seq<Entry<Write>>, sel: Seq<bool>, j: int, safe_point: u64)
    requires
        sorted(e),
        s.writes == table_map(e),
        picks_all(e, sel),
        0 <= j < e.len(),
    ensures
        removed_at(e, sel, e.len() as int, j, safe_point) == !gc_keeps(
            s,
            safe_point,
            e[j].key@,
            e[j].ts,
        ),
        s.writes.contains_key((e[j].key@, e[j].ts)),
        s.writes[(e[j].key@, e[j].ts)] == e[j].value@,
{
    lemma_map_at(e, j);
    let key = e[j].key@;
    let c = e[j].ts;
    lemma_lex_irreflexive(key);
    if newer_data_before(e, sel, j, safe_point) {
        let i = choose|i: int|
            0 <= i < j && picked(sel, i) && (#[trigger] e[i]).key@ == e[j].key@ && e[i].ts
                <= safe_point && e[i].value@.is_data();
        lemma_map_at(e, i);
        assert(pair_less(entry_key(e[i]), entry_key(e[j])));
        assert(s.writes.contains_key((key, e[i].ts)));
        assert(newer_data(s, key, c, safe_point));
    }
    if newer_data(s, key, c, safe_point) {
        let c2 = choose|c2: u64|
            c < c2 <= safe_point && #[trigger] s.writes.contains_key((key, c2)) && s.writes[(
                key,
                c2,
            )].is_data();
        assert(has_key(e, (key, c2)));
        let i = index_of(e, (key, c2));
        lemma_map_at(e, i);
        assert(entry_key(e[i]) == (key, c2));
        if i > j {
            assert(pair_less(entry_key(e[j]), entry_key(e[i])));
        }
        assert(e[i].key@ == e[j].key@);
        assert(picked(sel, i));
        assert(newer_data_before(e, sel, j, safe_point));
    }
    if walked_at(e, sel, e.len() as int, j, safe_point) {
        let i = choose|i: int|
            0 <= i < e.len() && i < j && #[trigger] is_mark(e, sel, i, safe_point) && e[i].key@
                == e[j].key@;
        assert(pair_less(entry_key(e[i]), entry_key(e[j])));
        assert(e[i].key@ == e[j].key@);
        assert(newer_data_before(e, sel, j, safe_point));
    }
}

/// A compaction of every record leaves the store as garbage collection at
/// the safe point leaves it.
proof fn lemma_selection_of_all(s: State, e: Seq<Entry<Write>>, sel: Seq<bool>, safe_point: u64)
    requires
        sorted(e),
        s.writes == table_map(e),
        picks_all(e, sel),
    ensures
        selection_collected(s, e, sel, safe_point) == collected(s, safe_point),
{
    let n = e.len() as int;
    let a = selection_collected(s, e, sel, safe_point);
    let b = collected(s, safe_point);
    assert forall|k: (Seq<u8>, u64)| a.writes.contains_key(k) <==> b.writes.contains_key(k) by {
        if s.writes.contains_key(k) {
            assert(has_key(e, k));
            let j = index_of(e, k);
            lemma_removed_of_all(s, e, sel, j, safe_point);
        }
    }
    assert(a.writes =~= b.writes);
    assert forall|k: (Seq<u8>, u64)| a.values.contains_key(k) <==> b.values.contains_key(k) by {
        let m = ModifyView::DeleteValue(k.0, k.1);
        if is_due(e, sel, n, safe_point, m) {
            let j = choose|j: int|
                0 <= j < e.len() && removed_at(e, sel, n, j, safe_point) && removes(#[trigger] e[j], m);
            let vr = value_removal(e[j].key@, e[j].value@);
            assert(vr == seq![m]);
            assert(vr[0] == m);
            lemma_removed_of_all(s, e, sel, j, safe_point);
            assert(value_dropped(s, safe_point, k.0, k.1));
        }
        if value_dropped(s, safe_point, k.0, k.1) {
            let c = choose|c: u64|
                #[trigger] s.writes.contains_key((k.0, c)) && !gc_keeps(s, safe_point, k.0, c)
                    && s.writes[(k.0, c)].write_type == WriteType::Put && s.writes[(
                    k.0,
                    c,
                )].short_value is None && s.writes[(k.0, c)].start_ts == k.1;
            assert(has_key(e, (k.0, c)));
            let j = index_of(e, (k.0, c));
            lemma_removed_of_all(s, e, sel, j, safe_point);
            assert(value_removal(e[j].key@, e[j].value@) =~= seq![m]);
            assert(removes(e[j], m));
            assert(is_due(e, sel, n, safe_point, m));
        }
    }
    assert(a.values =~= b.values);
}

fn pick_all(n: usize) -> (sel: Vec<bool>)
    ensures
        sel@ == all_picked(n as nat),
{
    let mut sel: Vec<bool> = Vec::new();
    while sel.len() < n
        invariant
            sel@.len() <= n,
            forall|j: int| 0 <= j < sel@.len() ==> #[trigger] sel@[j],
        decreases n - sel@.len(),
    {
        sel.push(true);
    }
    assert(sel@ =~= all_picked(n as nat));
    sel
}

/// The removals that a compaction of the whole write column family makes at
/// `safe_point`: of every record that garbage collection does not keep, and
/// of the value behind it. With them come the numbers of versions at or
/// below the safe point, of records dropped and of records removed behind
/// delete marks.
pub fn plan_compaction(engine: &Engine, safe_point: u64) -> (r: (Vec<Modify>, usize, usize, usize))
    requires
        safe_point > 0,
    ensures
        engine@.apply_all(batch_view(r.0@)) == collected(engine@, safe_point),
        r.1 == seen_count(
            engine.write_entries(),
            all_picked(engine.write_entries().len()),
            safe_point,
            engine.write_entries().len() as int,
        ),
        r.2 == dropped_count(
            engine.write_entries(),
            all_picked(engine.write_entries().len()),
            safe_point,
            engine.write_entries().len() as int,
        ),
        r.3 == walked_count(
            engine.write_entries(),
            all_picked(engine.write_entries().len()),
            engine.write_entries().len() as int,
            safe_point,
            engine.write_entries().len() as int,
        ),
{
    let selected = pick_all(engine.write_count());
    proof {
        lemma_selection_of_all(engine@, engine.write_entries(), selected@, safe_point);
    }
    plan_compaction_of(engine, &selected, safe_point)
}

/// Compacts the whole write column family with garbage collection at
/// `safe_point`. Without a safe point nothing is collected. Returns the
/// numbers of versions at or below the safe point, of records dropped and of
/// records removed behind delete marks.
pub fn gc_by_compact(engine: &mut Engine, safe_point: u64) -> (r: (usize, usize, usize))
    ensures
        safe_point == 0 ==> final(engine)@ == old(engine)@ && r == (0usize, 0usize, 0usize),
        safe_point != 0 ==> final(engine)@ == collected(old(engine)@, safe_point) && r.0
            == seen_count(
            old(engine).write_entries(),
            all_picked(old(engine).write_entries().len()),
            safe_point,
            old(engine).write_entries().len() as int,
        ) && r.1 == dropped_count(
            old(engine).write_entries(),
            all_picked(old(engine).write_entries().len()),
            safe_point,
            old(engine).write_entries().len() as int,
        ) && r.2 == walked_count(
            old(engine).write_entries(),
            all_picked(old(engine).write_entries().len()),
            old(engine).write_entries().len() as int,
            safe_point,
            old(engine).write_entries().len() as int,
        ),
{
    if safe_point == 0 {
        return (0, 0, 0);
    }
    let (removals, versions, filtered, deleted) = plan_compaction(&*engine, safe_point);
    engine.write(removals);
    (versions, filtered, deleted)
}

} // verus!
