//! What a compaction of some of the records may remove: never more than
//! garbage collection of the whole column family, and nothing that a reader
//! at or above the safe point sees.

use vstd::prelude::*;
use crate::server::gc_worker::collection::{
    collected,
    gc_keeps,
    lemma_rollbacks_show_nothing,
    lemma_skip_gap,
    lemma_visible_is_put,
    newer_data,
    put_start_ts_unique,
    puts_have_values,
    value_dropped,
};
use crate::server::gc_worker::compaction::{
    dropped_at,
    is_due,
    is_mark,
    newer_data_before,
    picked,
    removed_at,
    removes,
    selection_collected,
    walked_at,
};
use crate::server::gc_worker::compaction_filter::value_removal;
use crate::storage::kv::engine::{
    has_version_at,
    is_newest_at,
    lemma_seek_write_exists,
    lemma_seek_write_is,
    lemma_seek_write_none,
    lemma_seek_write_some,
    seek_write,
};
use crate::storage::kv::state::{ModifyView, State};
use crate::storage::kv::table::{entry_key, has_key, index_of, lemma_map_at, pair_less, sorted, table_map, Entry};
use crate::storage::mvcc::reader::{read_value, visible_put};
use crate::txn_types::order::lemma_lex_irreflexive;
use crate::txn_types::write::{Write, WriteType};

verus! {

/// What a compaction removes, garbage collection of the whole column family
/// removes as well: a record that the compaction has removed is not above
/// the safe point, is no protected rollback, and is not the newest `Put` or
/// `Delete` of its key at or below the safe point unless that is a `Delete`.
pub proof fn lemma_removed_is_garbage(s: State, e: Seq<Entry<Write>>, sel: Seq<bool>, safe_point: u64, j: int)
    requires
        sorted(e),
        s.writes == table_map(e),
        0 <= j < e.len(),
        removed_at(e, sel, e.len() as int, j, safe_point),
    ensures
        e[j].ts <= safe_point,
        !e[j].value@.is_protected(),
        s.writes.contains_key((e[j].key@, e[j].ts)),
        !gc_keeps(s, safe_point, e[j].key@, e[j].ts),
{
    lemma_map_at(e, j);
    let key = e[j].key@;
    lemma_lex_irreflexive(key);
    if walked_at(e, sel, e.len() as int, j, safe_point) {
        let i = choose|i: int|
            0 <= i < e.len() && i < j && #[trigger] is_mark(e, sel, i, safe_point) && e[i].key@
                == e[j].key@;
        lemma_map_at(e, i);
        assert(pair_less(entry_key(e[i]), entry_key(e[j])));
        assert(s.writes.contains_key((key, e[i].ts)));
        assert(newer_data(s, key, e[j].ts, safe_point));
    } else if newer_data_before(e, sel, j, safe_point) {
        let i = choose|i: int|
            0 <= i < j && picked(sel, i) && (#[trigger] e[i]).key@ == e[j].key@ && e[i].ts
                <= safe_point && e[i].value@.is_data();
        lemma_map_at(e, i);
        assert(pair_less(entry_key(e[i]), entry_key(e[j])));
        assert(s.writes.contains_key((key, e[i].ts)));
        assert(newer_data(s, key, e[j].ts, safe_point));
    }
}

/// After a compaction of any of the records, the store still holds every
/// write record and every value that it holds after garbage collection of
/// the whole column family, each as it was.
pub proof fn lemma_selection_removes_less(s: State, e: Seq<Entry<Write>>, sel: Seq<bool>, safe_point: u64)
    requires
        sorted(e),
        s.writes == table_map(e),
    ensures
        collected(s, safe_point).writes.submap_of(selection_collected(s, e, sel, safe_point).writes),
        collected(s, safe_point).values.submap_of(selection_collected(s, e, sel, safe_point).values),
        selection_collected(s, e, sel, safe_point).writes.submap_of(s.writes),
        selection_collected(s, e, sel, safe_point).values.submap_of(s.values),
        selection_collected(s, e, sel, safe_point).locks == s.locks,
{
    let a = collected(s, safe_point);
    let b = selection_collected(s, e, sel, safe_point);
    let n = e.len() as int;
    assert forall|k: (Seq<u8>, u64)| a.writes.contains_key(k) implies b.writes.contains_key(k) by {
        assert(has_key(e, k));
        let j = index_of(e, k);
        if removed_at(e, sel, n, j, safe_point) {
            lemma_removed_is_garbage(s, e, sel, safe_point, j);
        }
    }
    assert forall|k: (Seq<u8>, u64)| a.values.contains_key(k) implies b.values.contains_key(k) by {
        let m = ModifyView::DeleteValue(k.0, k.1);
        if is_due(e, sel, n, safe_point, m) {
            let j = choose|j: int|
                0 <= j < e.len() && removed_at(e, sel, n, j, safe_point) && removes(#[trigger] e[j], m);
            lemma_removed_is_garbage(s, e, sel, safe_point, j);
            lemma_map_at(e, j);
            let vr = value_removal(e[j].key@, e[j].value@);
            assert(vr == seq![m]);
            assert(vr[0] == m);
            assert(s.writes.contains_key((k.0, e[j].ts)));
            assert(value_dropped(s, safe_point, k.0, k.1));
        }
    }
}

/// After a compaction of any of the records, every `Put` record that is left
/// and does not hold its value still has it stored.
pub proof fn lemma_selection_keeps_values(s: State, e: Seq<Entry<Write>>, sel: Seq<bool>, safe_point: u64)
    requires
        sorted(e),
        s.writes == table_map(e),
        puts_have_values(s),
        put_start_ts_unique(s),
    ensures
        puts_have_values(selection_collected(s, e, sel, safe_point)),
{
    let t = selection_collected(s, e, sel, safe_point);
    let n = e.len() as int;
    assert forall|key: Seq<u8>, c: u64|
        #[trigger] t.writes.contains_key((key, c)) && t.writes[(key, c)].write_type == WriteType::Put
            && t.writes[(key, c)].short_value is None implies t.values.contains_key(
        (key, t.writes[(key, c)].start_ts),
    ) by {
        let st = s.writes[(key, c)].start_ts;
        let m = ModifyView::DeleteValue(key, st);
        assert(s.writes.contains_key((key, c)));
        if is_due(e, sel, n, safe_point, m) {
            let j = choose|j: int|
                0 <= j < e.len() && removed_at(e, sel, n, j, safe_point) && removes(#[trigger] e[j], m);
            lemma_map_at(e, j);
            let vr = value_removal(e[j].key@, e[j].value@);
            assert(vr == seq![m]);
            assert(vr[0] == m);
            assert(s.writes.contains_key((key, e[j].ts)));
            assert(e[j].ts == c);
            assert(index_of(e, (key, c)) == j);
        }
    }
}

/// The record at `c`, above which no `Put` or `Delete` of the key lies at or
/// below the safe point: if the compaction has removed it, it is no `Put`,
/// and if it is a `Delete`, every older version of the key that is left is a
/// protected rollback.
proof fn lemma_removed_first(
    s: State,
    e: Seq<Entry<Write>>,
    sel: Seq<bool>,
    safe_point: u64,
    key: Seq<u8>,
    c: u64,
)
    requires
        sorted(e),
        s.writes == table_map(e),
        s.writes.contains_key((key, c)),
        removed_at(e, sel, e.len() as int, index_of(e, (key, c)), safe_point),
        !newer_data(s, key, c, safe_point),
    ensures
        s.writes[(key, c)].write_type != WriteType::Put,
        s.writes[(key, c)].write_type == WriteType::Delete ==> forall|c2: u64|
            c2 < c && #[trigger] selection_collected(s, e, sel, safe_point).writes.contains_key(
                (key, c2),
            ) ==> s.writes[(key, c2)].write_type == WriteType::Rollback,
{
    let n = e.len() as int;
    assert(has_key(e, (key, c)));
    let j = index_of(e, (key, c));
    lemma_map_at(e, j);
    lemma_lex_irreflexive(key);
    if walked_at(e, sel, n, j, safe_point) {
        let i = choose|i: int|
            0 <= i < n && i < j && #[trigger] is_mark(e, sel, i, safe_point) && e[i].key@ == e[j].key@;
        lemma_map_at(e, i);
        assert(pair_less(entry_key(e[i]), entry_key(e[j])));
        assert(s.writes.contains_key((key, e[i].ts)));
        assert(newer_data(s, key, c, safe_point));
    }
    assert(dropped_at(e, sel, n, j, safe_point));
    if newer_data_before(e, sel, j, safe_point) {
        let i = choose|i: int|
            0 <= i < j && picked(sel, i) && (#[trigger] e[i]).key@ == e[j].key@ && e[i].ts
                <= safe_point && e[i].value@.is_data();
        lemma_map_at(e, i);
        assert(pair_less(entry_key(e[i]), entry_key(e[j])));
        assert(s.writes.contains_key((key, e[i].ts)));
        assert(newer_data(s, key, c, safe_point));
    }
    if s.writes[(key, c)].write_type == WriteType::Delete {
        assert(is_mark(e, sel, j, safe_point));
        assert forall|c2: u64|
            c2 < c && #[trigger] selection_collected(s, e, sel, safe_point).writes.contains_key(
                (key, c2),
            ) implies s.writes[(key, c2)].write_type == WriteType::Rollback by {
            assert(has_key(e, (key, c2)));
            let j2 = index_of(e, (key, c2));
            lemma_map_at(e, j2);
            if j2 < j {
                assert(pair_less(entry_key(e[j2]), entry_key(e[j])));
            }
            assert(j < j2);
            if !e[j2].value@.is_protected() {
                assert(walked_at(e, sel, n, j2, safe_point));
            }
        }
    }
}

/// A compaction of any of the records at `safe_point` keeps the `Put` record
/// that a reader sees, for every reader at `ts` such that no `Put` or
/// `Delete` record of the key lies above `ts` and at or below the safe
/// point: so for every reader at or above the safe point.
pub proof fn lemma_selection_keeps_visible(
    s: State,
    e: Seq<Entry<Write>>,
    sel: Seq<bool>,
    safe_point: u64,
    key: Seq<u8>,
    ts: u64,
)
    requires
        sorted(e),
        s.writes == table_map(e),
        forall|c: u64|
            ts < c <= safe_point && #[trigger] s.writes.contains_key((key, c)) ==> !s.writes[(
                key,
                c,
            )].is_data(),
    ensures
        visible_put(selection_collected(s, e, sel, safe_point), key, ts) == visible_put(s, key, ts),
    decreases ts,
{
    let t = selection_collected(s, e, sel, safe_point);
    match seek_write(s, key, ts) {
        None => {
            if has_version_at(t, key, ts) {
                let c = choose|c: u64| #[trigger] t.writes.contains_key((key, c)) && c <= ts;
                assert(s.writes.contains_key((key, c)));
                lemma_seek_write_exists(s, key, ts);
            }
            lemma_seek_write_none(t, key, ts);
        },
        Some(c) => {
            lemma_seek_write_some(s, key, ts);
            let w = s.writes[(key, c)];
            assert forall|c2: u64|
                c < c2 <= safe_point && #[trigger] s.writes.contains_key((key, c2)) implies !s.writes[(
                key,
                c2,
            )].is_data() by {
                if c2 <= ts {
                    assert(c2 <= c);
                }
            }
            assert(!newer_data(s, key, c, safe_point));
            if t.writes.contains_key((key, c)) {
                assert(is_newest_at(t, key, ts, c)) by {
                    assert forall|c2: u64| #[trigger] t.writes.contains_key((key, c2)) && c2 <= ts implies c2
                        <= c by {
                        assert(s.writes.contains_key((key, c2)));
                    }
                }
                lemma_seek_write_is(t, key, ts, c);
                if !w.is_data() && c != 0 {
                    lemma_selection_keeps_visible(s, e, sel, safe_point, key, (c - 1) as u64);
                }
            } else {
                lemma_removed_first(s, e, sel, safe_point, key, c);
                assert forall|c2: u64| c <= c2 <= ts implies !#[trigger] t.writes.contains_key((key, c2)) by {
                    if t.writes.contains_key((key, c2)) {
                        assert(s.writes.contains_key((key, c2)));
                    }
                }
                if w.write_type == WriteType::Delete {
                    assert forall|c2: u64| c2 <= ts && #[trigger] t.writes.contains_key((key, c2)) implies t.writes[(
                        key,
                        c2,
                    )].write_type == WriteType::Rollback by {
                        assert(s.writes.contains_key((key, c2)));
                        assert(c2 < c);
                    }
                    lemma_rollbacks_show_nothing(t, key, ts);
                } else if c == 0 {
                    if has_version_at(t, key, ts) {
                        let c2 = choose|c2: u64| #[trigger] t.writes.contains_key((key, c2)) && c2 <= ts;
                        assert(s.writes.contains_key((key, c2)));
                    }
                    lemma_seek_write_none(t, key, ts);
                } else {
                    lemma_skip_gap(t, key, c, ts);
                    lemma_selection_keeps_visible(s, e, sel, safe_point, key, (c - 1) as u64);
                }
            }
        },
    }
}

/// A compaction of any of the records at `safe_point` does not change what a
/// reader at or above the safe point sees of any key.
pub proof fn lemma_selection_keeps_reads(
    s: State,
    e: Seq<Entry<Write>>,
    sel: Seq<bool>,
    safe_point: u64,
    key: Seq<u8>,
    ts: u64,
)
    requires
        sorted(e),
        s.writes == table_map(e),
        ts >= safe_point,
        put_start_ts_unique(s),
    ensures
        read_value(selection_collected(s, e, sel, safe_point), key, ts) == read_value(s, key, ts),
{
    let t = selection_collected(s, e, sel, safe_point);
    let n = e.len() as int;
    lemma_selection_keeps_visible(s, e, sel, safe_point, key, ts);
    match visible_put(s, key, ts) {
        Some(c) => {
            lemma_visible_is_put(s, key, ts);
            lemma_visible_is_put(t, key, ts);
            let w = s.writes[(key, c)];
            let m = ModifyView::DeleteValue(key, w.start_ts);
            if w.short_value is None && is_due(e, sel, n, safe_point, m) {
                let j = choose|j: int|
                    0 <= j < e.len() && removed_at(e, sel, n, j, safe_point) && removes(#[trigger] e[j], m);
                lemma_map_at(e, j);
                let vr = value_removal(e[j].key@, e[j].value@);
                assert(vr == seq![m]);
                assert(vr[0] == m);
                assert(s.writes.contains_key((key, e[j].ts)));
                assert(e[j].ts == c);
                assert(index_of(e, (key, c)) == j);
            }
        },
        None => {},
    }
}

} // verus!
