//! What garbage collection at a safe point leaves of the store.

use vstd::prelude::*;
use crate::storage::kv::engine::{
    has_version_at,
    is_newest_at,
    lemma_seek_write_is,
    lemma_seek_write_none,
    lemma_seek_write_some,
    seek_write,
};
use crate::storage::kv::state::State;
use crate::storage::mvcc::reader::{read_value, visible_put};
use crate::txn_types::write::WriteType;

verus! {

/// Whether `key` has a `Put` or `Delete` record that is newer than the
/// version at `c` and not above the safe point.
pub open spec fn newer_data(s: State, key: Seq<u8>, c: u64, safe_point: u64) -> bool {
    exists|c2: u64|
        c < c2 <= safe_point && #[trigger] s.writes.contains_key((key, c2)) && s.writes[(
            key,
            c2,
        )].is_data()
}

/// Whether garbage collection keeps the record of `key` at `c`: it is above
/// the safe point, or a protected rollback, or the `Put` that a reader at the
/// safe point sees.
pub open spec fn gc_keeps(s: State, safe_point: u64, key: Seq<u8>, c: u64) -> bool {
    let w = s.writes[(key, c)];
    c > safe_point || w.is_protected() || (w.write_type == WriteType::Put && !newer_data(
        s,
        key,
        c,
        safe_point,
    ))
}

/// Whether garbage collection removes the value stored for `key` under
/// `start_ts`: a `Put` record that points to it is removed.
pub open spec fn value_dropped(s: State, safe_point: u64, key: Seq<u8>, start_ts: u64) -> bool {
    exists|c: u64|
        #[trigger] s.writes.contains_key((key, c)) && !gc_keeps(s, safe_point, key, c) && s.writes[(
            key,
            c,
        )].write_type == WriteType::Put && s.writes[(key, c)].short_value is None && s.writes[(
            key,
            c,
        )].start_ts == start_ts
}

/// The store after garbage collection at `safe_point`: the locks as they
/// were, the write records that are kept, the values but those of removed
/// `Put` records.
pub open spec fn collected(s: State, safe_point: u64) -> State {
    State {
        locks: s.locks,
        writes: Map::new(
            |k: (Seq<u8>, u64)| s.writes.contains_key(k) && gc_keeps(s, safe_point, k.0, k.1),
            |k: (Seq<u8>, u64)| s.writes[k],
        ),
        values: Map::new(
            |k: (Seq<u8>, u64)| s.values.contains_key(k) && !value_dropped(s, safe_point, k.0, k.1),
            |k: (Seq<u8>, u64)| s.values[k],
        ),
    }
}

/// Every `Put` record that does not hold its value has it stored under the
/// start timestamp of its transaction.
pub open spec fn puts_have_values(s: State) -> bool {
    forall|key: Seq<u8>, c: u64|
        #[trigger] s.writes.contains_key((key, c)) && s.writes[(key, c)].write_type
            == WriteType::Put && s.writes[(key, c)].short_value is None ==> s.values.contains_key(
            (key, s.writes[(key, c)].start_ts),
        )
}

/// No two `Put` records of a key come from transactions with the same start
/// timestamp.
pub open spec fn put_start_ts_unique(s: State) -> bool {
    forall|key: Seq<u8>, c1: u64, c2: u64|
        #[trigger] s.writes.contains_key((key, c1)) && #[trigger] s.writes.contains_key((key, c2))
            && s.writes[(key, c1)].write_type == WriteType::Put && s.writes[(key, c2)].write_type
            == WriteType::Put && s.writes[(key, c1)].start_ts == s.writes[(key, c2)].start_ts ==> c1
            == c2
}

/// After garbage collection at `safe_point`, the write records of every key
/// still hold each record above the safe point, each protected rollback, and
/// the newest of the `Put`, `Delete` and `Lock` records at or below the safe
/// point where that one is a `Put`. Nothing is added or changed.
pub proof fn lemma_collection_keeps(s: State, safe_point: u64, key: Seq<u8>, c: u64)
    requires
        s.writes.contains_key((key, c)),
    ensures
        c > safe_point ==> collected(s, safe_point).writes.contains_key((key, c)),
        s.writes[(key, c)].is_protected() ==> collected(s, safe_point).writes.contains_key((key, c)),
        c <= safe_point && s.writes[(key, c)].write_type == WriteType::Put && (forall|c2: u64|
            c < c2 <= safe_point && #[trigger] s.writes.contains_key((key, c2)) ==> s.writes[(
                key,
                c2,
            )].write_type == WriteType::Rollback) ==> collected(s, safe_point).writes.contains_key(
            (key, c),
        ),
        collected(s, safe_point).writes.contains_key((key, c)) ==> collected(s, safe_point).writes[(
            key,
            c,
        )] == s.writes[(key, c)],
        forall|k: (Seq<u8>, u64)| #[trigger]
            collected(s, safe_point).writes.contains_key(k) ==> s.writes.contains_key(k),
{
}

/// After garbage collection, every `Put` record that is left and does not
/// hold its value still has it stored.
pub proof fn lemma_collection_keeps_values(s: State, safe_point: u64)
    requires
        puts_have_values(s),
        put_start_ts_unique(s),
    ensures
        puts_have_values(collected(s, safe_point)),
{
    let t = collected(s, safe_point);
    assert forall|key: Seq<u8>, c: u64|
        #[trigger] t.writes.contains_key((key, c)) && t.writes[(key, c)].write_type == WriteType::Put
            && t.writes[(key, c)].short_value is None implies t.values.contains_key(
        (key, t.writes[(key, c)].start_ts),
    ) by {
        let st = s.writes[(key, c)].start_ts;
        assert(s.writes.contains_key((key, c)));
        if value_dropped(s, safe_point, key, st) {
            let c2 = choose|c2: u64|
                #[trigger] s.writes.contains_key((key, c2)) && !gc_keeps(s, safe_point, key, c2)
                    && s.writes[(key, c2)].write_type == WriteType::Put && s.writes[(
                    key,
                    c2,
                )].short_value is None && s.writes[(key, c2)].start_ts == st;
            assert(c2 == c);
        }
    }
}

/// Where every record of `key` at or below `ts` is a rollback, a reader at
/// `ts` sees nothing.
pub proof fn lemma_rollbacks_show_nothing(s: State, key: Seq<u8>, ts: u64)
    requires
        forall|c: u64|
            c <= ts && #[trigger] s.writes.contains_key((key, c)) ==> s.writes[(key, c)].write_type
                == WriteType::Rollback,
    ensures
        visible_put(s, key, ts) is None,
    decreases ts,
{
    match seek_write(s, key, ts) {
        Some(c) => {
            lemma_seek_write_some(s, key, ts);
            if c != 0 {
                lemma_rollbacks_show_nothing(s, key, (c - 1) as u64);
            }
        },
        None => {},
    }
}

/// Where no record of `key` lies from `low` up to `ts`, a reader at `ts`
/// sees what a reader just below `low` sees.
pub proof fn lemma_skip_gap(s: State, key: Seq<u8>, low: u64, ts: u64)
    requires
        0 < low <= ts,
        forall|c: u64| low <= c <= ts ==> !#[trigger] s.writes.contains_key((key, c)),
    ensures
        visible_put(s, key, ts) == visible_put(s, key, (low - 1) as u64),
{
    let below = (low - 1) as u64;
    assert forall|c: u64| is_newest_at(s, key, ts, c) == is_newest_at(s, key, below, c) by {
        if is_newest_at(s, key, ts, c) {
            assert(s.writes.contains_key((key, c)));
        }
        if is_newest_at(s, key, below, c) {
            assert forall|c2: u64| #[trigger] s.writes.contains_key((key, c2)) && c2 <= ts implies c2
                <= c by {
                assert(c2 <= below);
            }
        }
    }
    assert(seek_write(s, key, ts) == seek_write(s, key, below));
    if seek_write(s, key, ts) is Some {
        lemma_seek_write_some(s, key, below);
    }
}

/// Garbage collection at `safe_point` keeps the `Put` record that a reader
/// sees, for every reader at `ts` such that no `Put` or `Delete` record of the
/// key lies above `ts` and at or below the safe point: so for every reader at
/// or above the safe point.
pub proof fn lemma_collection_keeps_visible(s: State, safe_point: u64, key: Seq<u8>, ts: u64)
    requires
        forall|c: u64|
            ts < c <= safe_point && #[trigger] s.writes.contains_key((key, c)) ==> !s.writes[(
                key,
                c,
            )].is_data(),
    ensures
        visible_put(collected(s, safe_point), key, ts) == visible_put(s, key, ts),
    decreases ts,
{
    let t = collected(s, safe_point);
    match seek_write(s, key, ts) {
        None => {
            if has_version_at(t, key, ts) {
                let c = choose|c: u64| #[trigger] t.writes.contains_key((key, c)) && c <= ts;
                assert(s.writes.contains_key((key, c)));
                crate::storage::kv::engine::lemma_seek_write_exists(s, key, ts);
            }
            lemma_seek_write_none(t, key, ts);
        },
        Some(c) => {
            lemma_seek_write_some(s, key, ts);
            let w = s.writes[(key, c)];
            // No `Put` or `Delete` lies above `c` and at or below the safe point.
            assert forall|c2: u64|
                c < c2 <= safe_point && #[trigger] s.writes.contains_key((key, c2)) implies !s.writes[(
                key,
                c2,
            )].is_data() by {
                if c2 <= ts {
                    assert(c2 <= c);
                }
            }
            assert(!newer_data(s, key, c, safe_point));
            if gc_keeps(s, safe_point, key, c) {
                assert(t.writes.contains_key((key, c)));
                assert(is_newest_at(t, key, ts, c)) by {
                    assert forall|c2: u64| #[trigger] t.writes.contains_key((key, c2)) && c2 <= ts implies c2
                        <= c by {
                        assert(s.writes.contains_key((key, c2)));
                    }
                }
                lemma_seek_write_is(t, key, ts, c);
                if !w.is_data() && c != 0 {
                    assert forall|c2: u64|
                        c - 1 < c2 <= safe_point && #[trigger] s.writes.contains_key((key, c2)) implies !s.writes[(
                        key,
                        c2,
                    )].is_data() by {}
                    lemma_collection_keeps_visible(s, safe_point, key, (c - 1) as u64);
                }
            } else {
                // The record goes: it is a `Delete`, a `Lock` or a rollback.
                assert(w.write_type != WriteType::Put);
                assert forall|c2: u64| c <= c2 <= ts implies !#[trigger] t.writes.contains_key((key, c2)) by {
                    if t.writes.contains_key((key, c2)) {
                        assert(s.writes.contains_key((key, c2)));
                    }
                }
                if w.write_type == WriteType::Delete {
                    assert forall|c2: u64| c2 <= ts && #[trigger] t.writes.contains_key((key, c2)) implies t.writes[(
                        key,
                        c2,
                    )].write_type == WriteType::Rollback by {
                        assert(s.writes.contains_key((key, c2)));
                        assert(c2 < c);
                        assert(s.writes.contains_key((key, c)));
                        assert(newer_data(s, key, c2, safe_point));
                    }
                    lemma_rollbacks_show_nothing(t, key, ts);
                } else if c == 0 {
                    if has_version_at(t, key, ts) {
                        let c2 = choose|c2: u64| #[trigger] t.writes.contains_key((key, c2)) && c2 <= ts;
                        assert(s.writes.contains_key((key, c2)));
                    }
                    lemma_seek_write_none(t, key, ts);
                } else {
                    lemma_skip_gap(t, key, c, ts);
                    lemma_collection_keeps_visible(s, safe_point, key, (c - 1) as u64);
                }
            }
        },
    }
}

/// Garbage collection at `safe_point` does not change what a reader at or
/// above the safe point sees of any key.
pub proof fn lemma_collection_keeps_reads(s: State, safe_point: u64, key: Seq<u8>, ts: u64)
    requires
        ts >= safe_point,
        put_start_ts_unique(s),
    ensures
        read_value(collected(s, safe_point), key, ts) == read_value(s, key, ts),
{
    let t = collected(s, safe_point);
    lemma_collection_keeps_visible(s, safe_point, key, ts);
    match visible_put(s, key, ts) {
        Some(c) => {
            lemma_visible_is_put(s, key, ts);
            lemma_visible_is_put(t, key, ts);
            let w = s.writes[(key, c)];
            assert(s.writes.contains_key((key, c)));
            if w.short_value is None && value_dropped(s, safe_point, key, w.start_ts) {
                let c2 = choose|c2: u64|
                    #[trigger] s.writes.contains_key((key, c2)) && !gc_keeps(s, safe_point, key, c2)
                        && s.writes[(key, c2)].write_type == WriteType::Put && s.writes[(
                        key,
                        c2,
                    )].short_value is None && s.writes[(key, c2)].start_ts == w.start_ts;
                assert(c2 == c);
            }
        },
        None => {},
    }
}

/// The record that a reader sees is a `Put` record of the key.
pub proof fn lemma_visible_is_put(s: State, key: Seq<u8>, ts: u64)
    requires
        visible_put(s, key, ts) is Some,
    ensures
        s.writes.contains_key((key, visible_put(s, key, ts).unwrap())),
        s.writes[(key, visible_put(s, key, ts).unwrap())].write_type == WriteType::Put,
        visible_put(s, key, ts).unwrap() <= ts,
    decreases ts,
{
    lemma_seek_write_some(s, key, ts);
    let c = seek_write(s, key, ts).unwrap();
    if s.writes[(key, c)].write_type != WriteType::Put {
        lemma_visible_is_put(s, key, (c - 1) as u64);
    }
}

} // verus!
