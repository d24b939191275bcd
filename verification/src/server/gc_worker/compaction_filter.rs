//! Garbage collection while the write column family is compacted: a filter
//! that sees each record on its way to the output and says whether it stays,
//! and that asks for the removal of what the compaction itself does not see.

use vstd::prelude::*;
use crate::server::gc_worker::cluster_version::ClusterVersion;
use crate::server::gc_worker::config::GcConfig;
use crate::storage::kv::engine::{batch_view, Engine, Modify};
use crate::storage::kv::state::ModifyView;
use crate::storage::kv::table::{entry_key, is_position, pair_less, sorted, Entry};
use crate::txn_types::bytes::clone_bytes;
use crate::txn_types::key::{ts_of, user_key_of, Key};
use crate::txn_types::order::{
    bytes_equal,
    bytes_less,
    lemma_lex_irreflexive,
    lemma_version_order,
    lex_less,
    version_before,
};
use crate::txn_types::timestamp::TimeStamp;
use crate::txn_types::write::{Write, WriteType, WriteView};
use crate::txn_types::write_codec::parse_write_bytes;

verus! {

/// A pending batch larger than this many bytes is flushed.
pub const DEFAULT_DELETE_BATCH_SIZE: usize = 262144;

/// A pending batch of more than this many removals is flushed.
pub const DEFAULT_DELETE_BATCH_COUNT: usize = 128;

/// How far the iterator walks by single steps before it seeks.
pub const NEAR_SEEK_LIMIT: usize = 16;

/// After this many versions the counts are reported.
pub const REPORT_VERSIONS: usize = 1048576;

/// After this many seconds the counts are reported.
pub const REPORT_SECONDS: u64 = 60;

/// Whether garbage collection inside compaction is allowed: it must be
/// enabled, and the version of the cluster must be known and sufficient
/// unless the check of the version is skipped.
pub open spec fn check_allowed(enable: bool, skip_vcheck: bool, cluster_version: &ClusterVersion) -> bool {
    enable && (skip_vcheck || cluster_version.is_sufficient())
}

/// Whether garbage collection inside compaction is allowed.
pub fn do_check_allowed(enable: bool, skip_vcheck: bool, cluster_version: &ClusterVersion) -> (r: bool)
    ensures
        r == check_allowed(enable, skip_vcheck, cluster_version),
{
    enable && (skip_vcheck || cluster_version.sufficient())
}

/// Whether the settings and the version of the cluster allow garbage
/// collection inside compaction.
pub fn is_compaction_filter_allowd(cfg_value: &GcConfig, cluster_version: &ClusterVersion) -> (r: bool)
    ensures
        r == check_allowed(
            cfg_value.enable_compaction_filter,
            cfg_value.compaction_filter_skip_version_check,
            cluster_version,
        ),
{
    do_check_allowed(
        cfg_value.enable_compaction_filter,
        cfg_value.compaction_filter_skip_version_check,
        cluster_version,
    )
}

/// What the factory needs to make a filter: the store, the safe point, the
/// settings and the version of the cluster.
pub struct GcContext<'a> {
    pub engine: &'a Engine,
    pub safe_point: u64,
    pub cfg: GcConfig,
    pub cluster_version: ClusterVersion,
}

/// Whether one of the files asks for garbage collection.
pub open spec fn any_true(checks: Seq<bool>) -> bool {
    exists|i: int| 0 <= i < checks.len() && checks[i]
}

/// Whether a compaction should collect garbage: one of its files alone asks
/// for it, or all of them together do.
pub fn needs_gc(sst_needs_gc: &Vec<bool>, all_need_gc: bool) -> (r: bool)
    ensures
        r == (any_true(sst_needs_gc@) || all_need_gc),
{
    let mut i: usize = 0;
    while i < sst_needs_gc.len()
        invariant
            i <= sst_needs_gc.len(),
            forall|j: int| 0 <= j < i ==> !sst_needs_gc@[j],
        decreases sst_needs_gc.len() - i,
    {
        if sst_needs_gc[i] {
            return true;
        }
        i += 1;
    }
    all_need_gc
}

/// Makes the filters of compactions.
pub struct WriteCompactionFilterFactory;

impl WriteCompactionFilterFactory {
    /// Makes the filter for a compaction, or none where garbage collection
    /// is not to run: no context was installed, no safe point is known, the
    /// settings or the version of the cluster do not allow it, or the files
    /// do not ask for it. `sst_needs_gc` says of each file with readable
    /// properties whether it alone holds enough stale versions, `all_need_gc`
    /// whether the files together do.
    pub fn create_compaction_filter<'a>(
        &self,
        gc_context: Option<&GcContext<'a>>,
        sst_needs_gc: &Vec<bool>,
        all_need_gc: bool,
    ) -> (r: Option<WriteCompactionFilter<'a>>)
        ensures
            r is Some <==> gc_context is Some && gc_context.unwrap().safe_point != 0 && check_allowed(
                gc_context.unwrap().cfg.enable_compaction_filter,
                gc_context.unwrap().cfg.compaction_filter_skip_version_check,
                &gc_context.unwrap().cluster_version,
            ) && (any_true(sst_needs_gc@) || all_need_gc),
            r matches Some(f) ==> f.is_fresh(gc_context.unwrap().engine, gc_context.unwrap().safe_point),
    {
        let gc_context = match gc_context {
            Some(ctx) => ctx,
            None => {
                return None;
            },
        };
        let safe_point = gc_context.safe_point;
        if safe_point == 0 {
            // No safe point has been told yet.
            return None;
        }
        if !do_check_allowed(
            gc_context.cfg.enable_compaction_filter,
            gc_context.cfg.compaction_filter_skip_version_check,
            &gc_context.cluster_version,
        ) {
            return None;
        }
        if !needs_gc(sst_needs_gc, all_need_gc) {
            return None;
        }
        Some(WriteCompactionFilter::new(gc_context.engine, safe_point))
    }
}

/// The counts of the filters of one thread since the last report.
#[derive(Clone, Copy, Debug, PartialEq, Eq, Structural)]
pub struct CompactionFilterStats {
    /// Versions that the filters have met.
    pub versions: usize,
    /// Versions that the filters have dropped.
    pub filtered: usize,
    /// Versions that the filters have removed behind delete marks.
    pub deleted: usize,
}

impl CompactionFilterStats {
    /// Counts that start at zero.
    pub fn new() -> (stats: CompactionFilterStats)
        ensures
            stats == (CompactionFilterStats { versions: 0, filtered: 0, deleted: 0 }),
    {
        CompactionFilterStats { versions: 0, filtered: 0, deleted: 0 }
    }

    /// Adds the totals of a filter that has ended.
    pub fn add(&mut self, versions: usize, filtered: usize, deleted: usize)
        ensures
            *final(self) == (CompactionFilterStats {
                versions: sat_add(old(self).versions, versions),
                filtered: sat_add(old(self).filtered, filtered),
                deleted: sat_add(old(self).deleted, deleted),
            }),
    {
        self.versions = saturating_sum(self.versions, versions);
        self.filtered = saturating_sum(self.filtered, filtered);
        self.deleted = saturating_sum(self.deleted, deleted);
    }

    /// Whether it is time to report: enough versions have passed, or
    /// `elapsed_secs` seconds since the last report are enough.
    pub fn should_report(&self, elapsed_secs: u64) -> (r: bool)
        ensures
            r == (self.versions >= REPORT_VERSIONS || elapsed_secs >= REPORT_SECONDS),
    {
        self.versions >= REPORT_VERSIONS || elapsed_secs >= REPORT_SECONDS
    }

    /// Hands out the counts for the report and starts again at zero.
    pub fn report(&mut self) -> (r: (usize, usize, usize))
        ensures
            r == (old(self).versions, old(self).filtered, old(self).deleted),
            *final(self) == (CompactionFilterStats { versions: 0, filtered: 0, deleted: 0 }),
    {
        let r = (self.versions, self.filtered, self.deleted);
        self.versions = 0;
        self.filtered = 0;
        self.deleted = 0;
        r
    }
}

/// The sum of two counts, held at the largest number where it does not fit.
pub open spec fn sat_add(a: usize, b: usize) -> usize {
    if a + b > usize::MAX {
        usize::MAX
    } else {
        (a + b) as usize
    }
}

fn saturating_sum(a: usize, b: usize) -> (r: usize)
    ensures
        r == sat_add(a, b),
{
    if a > usize::MAX - b {
        usize::MAX
    } else {
        a + b
    }
}

/// The removals that dropping the record `w` of `key` asks for in the value
/// column family: the value of a `Put` that does not hold it.
pub open spec fn value_removal(key: Seq<u8>, w: WriteView) -> Seq<ModifyView> {
    if w.short_value is None && w.write_type == WriteType::Put {
        seq![ModifyView::DeleteValue(key, w.start_ts)]
    } else {
        Seq::empty()
    }
}

/// The removals that the walk behind a delete mark asks for on one record: the
/// record and its value, unless the record is a protected rollback.
pub open spec fn entry_removal(e: Entry<Write>) -> Seq<ModifyView> {
    if e.value@.is_protected() {
        Seq::empty()
    } else {
        value_removal(e.key@, e.value@) + seq![ModifyView::DeleteWrite(e.key@, e.ts)]
    }
}

/// The removals that the walk asks for on the records from place `from` up to
/// place `to`.
pub open spec fn walk_removals(s: Seq<Entry<Write>>, from: int, to: int) -> Seq<ModifyView>
    decreases to - from,
{
    if from >= to {
        Seq::empty()
    } else {
        walk_removals(s, from, to - 1) + entry_removal(s[to - 1])
    }
}

/// The place where the walk behind the delete mark at place `p` ends: the
/// first place after `p` whose record is of another key.
pub open spec fn is_walk_end(s: Seq<Entry<Write>>, key: Seq<u8>, from: int, end: int) -> bool {
    &&& from <= end <= s.len()
    &&& forall|j: int| from <= j < end ==> (#[trigger] s[j]).key@ == key
    &&& end < s.len() ==> s[end].key@ != key
}

/// The number of records that the walk removes from place `from` up to place
/// `to`: all but the protected rollbacks.
pub open spec fn walk_count(s: Seq<Entry<Write>>, from: int, to: int) -> nat
    decreases to - from,
{
    if from >= to {
        0
    } else {
        walk_count(s, from, to - 1) + if s[to - 1].value@.is_protected() {
            0nat
        } else {
            1nat
        }
    }
}

/// A count raised by `n`, held at the largest number where it does not fit.
pub open spec fn sat_add_nat(a: usize, n: nat) -> usize {
    if a + n > usize::MAX {
        usize::MAX
    } else {
        (a + n) as usize
    }
}

/// The place after the delete mark `mark`, where the walk behind it starts.
pub open spec fn walk_start(s: Seq<Entry<Write>>, mark: (Seq<u8>, u64), p: int) -> int {
    if p < s.len() && entry_key(s[p]) == mark {
        p + 1
    } else {
        p
    }
}

/// Splits a key of the write column family into user key and commit
/// timestamp.
pub fn split_ts(key: &[u8]) -> (r: (&[u8], u64))
    requires
        key@.len() >= 8,
    ensures
        r.0@ == user_key_of(key@),
        r.1 == ts_of(key@),
{
    match Key::split_on_ts_for(key) {
        Ok((key, ts)) => (key, ts.into_inner()),
        Err(_) => vstd::pervasive::unreached(),
    }
}

/// The user key of a key of the write column family.
pub fn truncate_ts(key: &[u8]) -> (r: &[u8])
    requires
        key@.len() >= 8,
    ensures
        r@ == user_key_of(key@),
{
    match Key::truncate_ts_for(key) {
        Ok(prefix) => prefix,
        Err(_) => vstd::pervasive::unreached(),
    }
}

/// The record that a value of the write column family stands for.
pub fn parse_write(value: &[u8]) -> (w: Write)
    requires
        parse_write_bytes(value@) is Some,
    ensures
        Some(w@) == parse_write_bytes(value@),
{
    match Write::parse(value) {
        Ok(write) => write,
        Err(_) => vstd::pervasive::unreached(),
    }
}

/// Whether the filter drops the record `w`, given whether the older versions
/// of its key are being dropped: a protected rollback stays; of the others,
/// all but the newest `Put` go.
pub open spec fn drops(remove_older: bool, w: WriteView) -> bool {
    !w.is_protected() && (remove_older || w.write_type != WriteType::Put)
}

/// Whether the versions after `w` are dropped: from the first `Put` or
/// `Delete` on.
pub open spec fn drops_after(remove_older: bool, w: WriteView) -> bool {
    remove_older || (!w.is_protected() && w.is_data())
}

/// Whether the filter walks behind `w`: it is the delete mark that hides the
/// older versions.
pub open spec fn walks_behind(remove_older: bool, w: WriteView) -> bool {
    !remove_older && !w.is_protected() && w.write_type == WriteType::Delete
}

/// The state that the filter keeps from one record to the next.
pub struct WriteCompactionFilter<'a> {
    safe_point: u64,
    engine: &'a Engine,
    write_batch: Vec<Modify>,
    write_batch_size: usize,
    flushed: Vec<Modify>,
    key_prefix: Vec<u8>,
    remove_older: bool,
    // The iterator behind the delete marks: a place in the write column family.
    write_iter: usize,
    near_seek_distance: usize,
    versions: usize,
    filtered: usize,
    deleted: usize,
    total_versions: usize,
    total_filtered: usize,
    total_deleted: usize,
}

/// The counts of a filter.
pub struct FilterCounts {
    pub versions: usize,
    pub filtered: usize,
    pub deleted: usize,
    pub total_versions: usize,
    pub total_filtered: usize,
    pub total_deleted: usize,
}

impl FilterCounts {
    /// The counts after the filter has gone on to another key: the counts of
    /// the key are added to the totals and start again at zero.
    pub open spec fn switched(self) -> FilterCounts {
        FilterCounts {
            versions: 0,
            filtered: 0,
            deleted: 0,
            total_versions: sat_add(self.total_versions, self.versions),
            total_filtered: sat_add(self.total_filtered, self.filtered),
            total_deleted: sat_add(self.total_deleted, self.deleted),
        }
    }
}

impl<'a> WriteCompactionFilter<'a> {
    /// Records at or below this timestamp may be collected.
    pub closed spec fn safe_point(&self) -> u64 {
        self.safe_point
    }

    /// The write column family that the filter walks behind delete marks.
    pub closed spec fn entries(&self) -> Seq<Entry<Write>> {
        self.engine.write_entries()
    }

    /// The user key of the last record at or below the safe point.
    pub closed spec fn key_prefix(&self) -> Seq<u8> {
        self.key_prefix@
    }

    /// Whether the versions of the current key that follow are dropped.
    pub closed spec fn remove_older(&self) -> bool {
        self.remove_older
    }

    /// The place of the iterator in the write column family.
    pub closed spec fn iter_pos(&self) -> int {
        self.write_iter as int
    }

    /// Records seen since the iterator was last placed.
    pub closed spec fn near_seek_distance(&self) -> usize {
        self.near_seek_distance
    }

    /// The removals that have been flushed, in their order.
    pub closed spec fn flushed(&self) -> Seq<ModifyView> {
        batch_view(self.flushed@)
    }

    /// The removals of the pending batch, in their order.
    pub closed spec fn pending(&self) -> Seq<ModifyView> {
        batch_view(self.write_batch@)
    }

    /// The bytes that the keys of the pending batch take.
    pub closed spec fn pending_size(&self) -> usize {
        self.write_batch_size
    }

    /// Whether the pending batch holds more than a batch should: more than
    /// `DEFAULT_DELETE_BATCH_COUNT` removals or more than
    /// `DEFAULT_DELETE_BATCH_SIZE` bytes.
    pub open spec fn needs_flush(&self) -> bool {
        self.pending().len() > DEFAULT_DELETE_BATCH_COUNT || self.pending_size()
            > DEFAULT_DELETE_BATCH_SIZE
    }

    /// The removals asked for and not yet handed out, flushed or not, in
    /// their order.
    pub closed spec fn issued(&self) -> Seq<ModifyView> {
        batch_view(self.flushed@) + batch_view(self.write_batch@)
    }

    /// The counts.
    pub closed spec fn counts(&self) -> FilterCounts {
        FilterCounts {
            versions: self.versions,
            filtered: self.filtered,
            deleted: self.deleted,
            total_versions: self.total_versions,
            total_filtered: self.total_filtered,
            total_deleted: self.total_deleted,
        }
    }

    /// The iterator stands within the column family, and the records before
    /// it are of keys before the current one, or of the current one once its
    /// older versions are being dropped; and the pending batch holds no more
    /// than a batch should.
    pub closed spec fn wf(&self) -> bool {
        self.iter_wf() && !self.needs_flush()
    }

    /// The part of `wf` that speaks of the iterator.
    closed spec fn iter_wf(&self) -> bool {
        &&& sorted(self.entries())
        &&& self.write_iter <= self.entries().len()
        &&& forall|j: int|
            0 <= j < self.write_iter ==> lex_less((#[trigger] self.entries()[j]).key@, self.key_prefix@)
                || (self.entries()[j].key@ == self.key_prefix@ && self.remove_older)
    }

    /// Whether two filters agree in all but their counts, their pending
    /// removals and the distance from the last seek.
    pub open spec fn same_walk(&self, other: &Self) -> bool {
        &&& self.safe_point() == other.safe_point()
        &&& self.entries() == other.entries()
        &&& self.key_prefix() == other.key_prefix()
        &&& self.remove_older() == other.remove_older()
        &&& self.iter_pos() == other.iter_pos()
    }

    /// Whether this is a filter as it is made for a compaction over
    /// `engine`: nothing seen, nothing asked for, the iterator due for a seek.
    pub open spec fn is_fresh(&self, engine: &Engine, safe_point: u64) -> bool {
        &&& self.wf()
        &&& self.safe_point() == safe_point
        &&& self.entries() == engine.write_entries()
        &&& self.key_prefix() == Seq::<u8>::empty()
        &&& !self.remove_older()
        &&& self.iter_pos() == 0
        &&& self.near_seek_distance() == NEAR_SEEK_LIMIT
        &&& self.issued() == Seq::<ModifyView>::empty()
        &&& self.flushed() == Seq::<ModifyView>::empty()
        &&& self.pending() == Seq::<ModifyView>::empty()
        &&& self.pending_size() == 0
        &&& self.counts() == (FilterCounts {
            versions: 0,
            filtered: 0,
            deleted: 0,
            total_versions: 0,
            total_filtered: 0,
            total_deleted: 0,
        })
    }

    /// A filter for one compaction, over a snapshot of the store.
    pub fn new(engine: &'a Engine, safe_point: u64) -> (f: WriteCompactionFilter<'a>)
        requires
            safe_point > 0,
        ensures
            f.is_fresh(engine, safe_point),
    {
        // The write column family stands in order.
        let _ = engine.write_count();
        let f = WriteCompactionFilter {
            safe_point,
            engine,
            write_batch: Vec::new(),
            write_batch_size: 0,
            flushed: Vec::new(),
            key_prefix: Vec::new(),
            remove_older: false,
            write_iter: 0,
            near_seek_distance: NEAR_SEEK_LIMIT,
            versions: 0,
            filtered: 0,
            deleted: 0,
            total_versions: 0,
            total_filtered: 0,
            total_deleted: 0,
        };
        assert(f.issued() =~= Seq::<ModifyView>::empty());
        assert(f.flushed() =~= Seq::<ModifyView>::empty());
        assert(f.pending() =~= Seq::<ModifyView>::empty());
        f
    }

    /// Places the iterator on the first record that does not sort before
    /// version `ts` of `key`, by a few single steps where the last placing was
    /// not long ago, else by a seek. Returns whether there is such a record.
    fn write_iter_seek_to(&mut self, key: &[u8], ts: u64) -> (valid: bool)
        requires
            sorted(old(self).entries()),
            old(self).iter_pos() <= old(self).entries().len(),
            forall|j: int|
                0 <= j < old(self).iter_pos() ==> pair_less(
                    #[trigger] entry_key(old(self).entries()[j]),
                    (key@, ts),
                ),
        ensures
            is_position(final(self).entries(), (key@, ts), final(self).iter_pos()),
            valid == (final(self).iter_pos() < final(self).entries().len()),
            final(self).near_seek_distance() == 0,
            final(self).safe_point() == old(self).safe_point(),
            final(self).entries() == old(self).entries(),
            final(self).key_prefix() == old(self).key_prefix(),
            final(self).remove_older() == old(self).remove_older(),
            final(self).issued() == old(self).issued(),
            final(self).counts() == old(self).counts(),
            final(self).flushed() == old(self).flushed(),
            final(self).pending() == old(self).pending(),
            final(self).pending_size() == old(self).pending_size(),
    {
        let n = self.engine.write_count();
        if self.near_seek_distance >= NEAR_SEEK_LIMIT {
            self.near_seek_distance = 0;
            self.write_iter = self.engine.seek_write_entry(key, TimeStamp(ts));
            return self.write_iter < n;
        }
        let mut valid = self.write_iter < n;
        let mut next_count: usize = 0;
        let mut found = false;
        while valid && !found && next_count <= NEAR_SEEK_LIMIT
            invariant
                n == self.entries().len(),
                sorted(self.entries()),
                self.write_iter <= n,
                valid == (self.write_iter < n),
                next_count <= NEAR_SEEK_LIMIT + 1,
                forall|j: int|
                    0 <= j < self.write_iter ==> pair_less(
                        #[trigger] entry_key(self.entries()[j]),
                        (key@, ts),
                    ),
                found ==> valid && !pair_less(entry_key(self.entries()[self.write_iter as int]), (key@, ts)),
                self.near_seek_distance() == old(self).near_seek_distance(),
                self.safe_point() == old(self).safe_point(),
                self.entries() == old(self).entries(),
                self.key_prefix() == old(self).key_prefix(),
                self.remove_older() == old(self).remove_older(),
                self.issued() == old(self).issued(),
                self.flushed() == old(self).flushed(),
                self.pending() == old(self).pending(),
                self.pending_size() == old(self).pending_size(),
                self.counts() == old(self).counts(),
            decreases n - self.write_iter, if found { 0int } else { 1int },
        {
            let e = self.engine.write_entry(self.write_iter);
            if !version_before(e.key.as_slice(), e.ts, key, ts) {
                found = true;
            } else {
                self.write_iter += 1;
                valid = self.write_iter < n;
                next_count += 1;
            }
        }
        if valid && !found {
            // Single steps did not get there.
            self.write_iter = self.engine.seek_write_entry(key, TimeStamp(ts));
            valid = self.write_iter < n;
        } else {
            proof {
                let s = self.entries();
                let k = (key@, ts);
                let p = self.write_iter as int;
                assert forall|j: int| p <= j < s.len() implies !pair_less(#[trigger] entry_key(s[j]), k) by {
                    if j > p {
                        assert(pair_less(entry_key(s[p]), entry_key(s[j])));
                        lemma_version_order(s[p].key@, s[p].ts, s[j].key@, s[j].ts, key@, ts);
                    }
                }
            }
        }
        self.near_seek_distance = 0;
        valid
    }

    /// Walks behind the delete mark at version `ts` of `key` and asks for the
    /// removal of the older versions of the key, which the mark hides; the
    /// compaction may never come to see them. Protected rollbacks stay.
    fn handle_delete_mark(&mut self, key: &[u8], ts: u64)
        requires
            sorted(old(self).entries()),
            old(self).iter_pos() <= old(self).entries().len(),
            old(self).key_prefix() == key@,
            old(self).remove_older(),
            forall|j: int|
                0 <= j < old(self).iter_pos() ==> lex_less(
                    (#[trigger] old(self).entries()[j]).key@,
                    key@,
                ),
        ensures
            final(self).iter_wf(),
            !old(self).needs_flush() ==> !final(self).needs_flush(),
            final(self).safe_point() == old(self).safe_point(),
            final(self).entries() == old(self).entries(),
            final(self).key_prefix() == old(self).key_prefix(),
            final(self).remove_older() == old(self).remove_older(),
            final(self).near_seek_distance() == 0,
            final(self).counts().versions == old(self).counts().versions,
            final(self).counts().filtered == old(self).counts().filtered,
            final(self).counts().total_versions == old(self).counts().total_versions,
            final(self).counts().total_filtered == old(self).counts().total_filtered,
            final(self).counts().total_deleted == old(self).counts().total_deleted,
            forall|p: int| #[trigger]
                is_position(old(self).entries(), (key@, ts), p) ==> {
                    let from = walk_start(old(self).entries(), (key@, ts), p);
                    &&& is_walk_end(old(self).entries(), key@, from, final(self).iter_pos())
                    &&& final(self).issued() == old(self).issued() + walk_removals(
                        old(self).entries(),
                        from,
                        final(self).iter_pos(),
                    )
                    &&& final(self).counts() == (FilterCounts {
                        deleted: sat_add_nat(
                            old(self).counts().deleted,
                            walk_count(old(self).entries(), from, final(self).iter_pos()),
                        ),
                        ..old(self).counts()
                    })
                },
    {
        let ghost s = self.entries();
        let ghost mark = (key@, ts);
        proof {
            lemma_lex_irreflexive(key@);
        }
        let mut valid = self.write_iter_seek_to(key, ts);
        let ghost p = self.write_iter as int;
        let n = self.engine.write_count();
        if valid {
            let e = self.engine.write_entry(self.write_iter);
            if e.ts == ts && bytes_equal(e.key.as_slice(), key) {
                // The mark itself is the business of the filter.
                self.write_iter += 1;
                valid = self.write_iter < n;
            }
        }
        let ghost from = self.write_iter as int;
        assert(from == walk_start(s, mark, p));
        assert(self.issued() + walk_removals(s, from, from) =~= self.issued());
        let mut at_end = false;
        while valid && !at_end
            invariant
                n == s.len(),
                s == self.entries(),
                sorted(s),
                0 <= from <= self.write_iter <= n,
                key@ == old(self).key_prefix(),
                valid == (self.write_iter < n),
                at_end ==> valid && s[self.write_iter as int].key@ != key@,
                forall|j: int| from <= j < self.write_iter ==> (#[trigger] s[j]).key@ == key@,
                self.issued() == old(self).issued() + walk_removals(s, from, self.write_iter as int),
                self.counts() == (FilterCounts {
                    deleted: sat_add_nat(
                        old(self).counts().deleted,
                        walk_count(s, from, self.write_iter as int),
                    ),
                    ..old(self).counts()
                }),
                self.safe_point() == old(self).safe_point(),
                self.key_prefix() == old(self).key_prefix(),
                self.remove_older() == old(self).remove_older(),
                self.near_seek_distance() == 0,
                !old(self).needs_flush() ==> !self.needs_flush(),
            decreases n - self.write_iter, if at_end { 0int } else { 1int },
        {
            let e = self.engine.write_entry(self.write_iter);
            if !bytes_equal(e.key.as_slice(), self.key_prefix.as_slice()) {
                at_end = true;
            } else {
                let ghost before = self.issued();
                let ghost i = self.write_iter as int;
                if !e.value.is_protected() {
                    self.handle_filtered_write(e.key.as_slice(), &e.value);
                    self.delete_write_key(e.key.as_slice(), e.ts);
                    assert(self.issued() =~= before + entry_removal(s[i]));
                } else {
                    assert(self.issued() =~= before + entry_removal(s[i]));
                }
                assert(old(self).issued() + walk_removals(s, from, i) + entry_removal(s[i]) =~= old(
                    self,
                ).issued() + walk_removals(s, from, i + 1));
                self.write_iter += 1;
                valid = self.write_iter < n;
            }
        }
        proof {
            let end = self.write_iter as int;
            assert(is_position(s, mark, p));
            assert forall|j: int| 0 <= j < end implies lex_less((#[trigger] s[j]).key@, key@) || (s[j].key@
                == key@ && self.remove_older) by {
                if j < p {
                    assert(pair_less(entry_key(s[j]), mark));
                } else if j < from {
                    assert(entry_key(s[j]) == mark);
                }
            }
            assert forall|q: int| #[trigger] is_position(s, mark, q) implies q == p by {
                crate::storage::kv::table::lemma_position_unique(s, mark, p, q);
            }
        }
    }

    /// Whether the older versions of `user_key` are being dropped when a
    /// record of that key arrives.
    pub open spec fn remove_older_for(&self, user_key: Seq<u8>) -> bool {
        self.key_prefix() == user_key && self.remove_older()
    }

    /// The counts after a record at or below the safe point has arrived, before
    /// anything is dropped.
    pub open spec fn counts_on_arrival(&self, user_key: Seq<u8>) -> FilterCounts {
        let seen = FilterCounts { versions: sat_add(self.counts().versions, 1), ..self.counts() };
        if self.key_prefix() == user_key {
            seen
        } else {
            seen.switched()
        }
    }

    /// Whether this filter is `before` after a record above the safe point
    /// has passed it by: the record stays, and nothing changes but the
    /// distance from the last seek.
    pub open spec fn passed_by(&self, before: &Self, filtered: bool) -> bool {
        &&& !filtered
        &&& self.same_walk(before)
        &&& self.issued() == before.issued()
        &&& self.flushed() == before.flushed()
        &&& self.pending() == before.pending()
        &&& self.pending_size() == before.pending_size()
        &&& self.counts() == before.counts()
        &&& self.near_seek_distance() == sat_add(before.near_seek_distance(), 1)
    }

    /// Where the iterator stands once a record of `user_key` has arrived:
    /// where it stood, unless the key comes out of order, before the key in
    /// work; then the iterator goes back to the start.
    pub open spec fn iter_on_arrival(&self, user_key: Seq<u8>) -> int {
        if self.key_prefix() == user_key || lex_less(self.key_prefix(), user_key) {
            self.iter_pos()
        } else {
            0
        }
    }

    /// Whether this filter is `before` after it has been shown the record `w`
    /// of `user_key` at `commit_ts` and has answered `filtered`.
    ///
    /// A record above the safe point stays and changes nothing but the
    /// distance from the last seek. Below it, the answer and the state follow
    /// `drops` and `drops_after`; the counts take the record in; the removal
    /// of the value of a dropped record is asked for; and behind a delete
    /// mark the iterator walks to the end of the key and the removal of what
    /// it passes is asked for first.
    pub open spec fn filtered_from(
        &self,
        before: &Self,
        user_key: Seq<u8>,
        commit_ts: u64,
        w: WriteView,
        filtered: bool,
    ) -> bool {
        &&& self.safe_point() == before.safe_point()
        &&& self.entries() == before.entries()
        &&& commit_ts > before.safe_point() ==> self.passed_by(before, filtered)
        &&& commit_ts <= before.safe_point() ==> {
            let ro = before.remove_older_for(user_key);
            let arrived = before.counts_on_arrival(user_key);
            let dropped = if filtered {
                value_removal(user_key, w)
            } else {
                Seq::empty()
            };
            &&& filtered == drops(ro, w)
            &&& self.key_prefix() == user_key
            &&& self.remove_older() == drops_after(ro, w)
            &&& self.counts().versions == arrived.versions
            &&& self.counts().total_versions == arrived.total_versions
            &&& self.counts().total_filtered == arrived.total_filtered
            &&& self.counts().total_deleted == arrived.total_deleted
            &&& self.counts().filtered == if filtered {
                sat_add(arrived.filtered, 1)
            } else {
                arrived.filtered
            }
            &&& !walks_behind(ro, w) ==> self.iter_pos() == before.iter_on_arrival(user_key)
                && self.issued() == before.issued() + dropped && self.counts().deleted == arrived.deleted
                && self.near_seek_distance() == sat_add(before.near_seek_distance(), 1)
            &&& walks_behind(ro, w) ==> self.near_seek_distance() == 0 && forall|p: int| #[trigger]
                is_position(before.entries(), (user_key, commit_ts), p) ==> {
                    let from = walk_start(before.entries(), (user_key, commit_ts), p);
                    &&& is_walk_end(before.entries(), user_key, from, self.iter_pos())
                    &&& self.issued() == before.issued() + walk_removals(
                        before.entries(),
                        from,
                        self.iter_pos(),
                    ) + dropped
                    &&& self.counts().deleted == sat_add_nat(
                        arrived.deleted,
                        walk_count(before.entries(), from, self.iter_pos()),
                    )
                }
        }
    }

    /// Says whether the record `write` of `user_key` at `commit_ts` is dropped
    /// from the output of the compaction.
    ///
    /// A record above the safe point stays and changes nothing. Below it, a
    /// protected rollback stays; `Rollback` and `Lock` records go; the newest
    /// `Put` stays and the versions after it go; a `Delete` goes with the
    /// versions after it, and the filter walks behind it at once. For each
    /// record that goes, the removal of its value is asked for. The pending
    /// batch is flushed whenever it holds more than a batch should. The
    /// records are meant to come in the order of their keys; where a key
    /// comes out of order, the iterator starts again from the first record.
    pub fn filter_record(&mut self, user_key: &[u8], commit_ts: u64, write: &Write) -> (filtered: bool)
        requires
            old(self).wf(),
        ensures
            final(self).wf(),
            !final(self).needs_flush(),
            final(self).filtered_from(old(self), user_key@, commit_ts, write@, filtered),
    {
        let key_prefix = user_key;
        self.near_seek_distance = saturating_sum(self.near_seek_distance, 1);

        if commit_ts > self.safe_point {
            return false;
        }
        let ghost s = self.entries();
        self.versions = saturating_sum(self.versions, 1);
        if !bytes_equal(self.key_prefix.as_slice(), key_prefix) {
            if !bytes_less(self.key_prefix.as_slice(), key_prefix) {
                // The key comes out of order: the iterator may stand behind it.
                self.write_iter = 0;
            }
            proof {
                assert forall|j: int| 0 <= j < self.write_iter implies lex_less(
                    (#[trigger] s[j]).key@,
                    key_prefix@,
                ) by {
                    if lex_less(s[j].key@, self.key_prefix@) {
                        crate::txn_types::order::lemma_lex_transitive(
                            s[j].key@,
                            self.key_prefix@,
                            key_prefix@,
                        );
                    }
                }
            }
            self.key_prefix = clone_bytes(key_prefix);
            self.remove_older = false;
            self.switch_key_metrics();
        }
        assert(self.iter_wf());
        if write.is_protected() {
            assert(self.issued() + Seq::<ModifyView>::empty() =~= self.issued());
            return false;
        }
        let mut filtered = self.remove_older;
        if !self.remove_older {
            match write.write_type {
                WriteType::Rollback => {
                    filtered = true;
                },
                WriteType::Lock => {
                    filtered = true;
                },
                WriteType::Put => {
                    self.remove_older = true;
                },
                WriteType::Delete => {
                    self.remove_older = true;
                    filtered = true;
                    self.handle_delete_mark(key_prefix, commit_ts);
                },
            }
        }
        let ghost mid = self.issued();
        if filtered {
            self.handle_filtered_write(key_prefix, write);
            self.filtered = saturating_sum(self.filtered, 1);
        } else {
            assert(mid + Seq::<ModifyView>::empty() =~= mid);
        }
        filtered
    }

    /// Says whether the record that the bytes `value` stand for, under the
    /// versioned key `key`, is dropped from the output of the compaction. A
    /// record above the safe point stays, whatever its value holds; for any
    /// other the answer is that of `filter_record` for the user key, the
    /// commit timestamp and the record that the bytes hold.
    pub fn filter(&mut self, _start_level: usize, key: &[u8], value: &[u8]) -> (filtered: bool)
        requires
            old(self).wf(),
            key@.len() >= 8,
            ts_of(key@) <= old(self).safe_point() ==> parse_write_bytes(value@) is Some,
        ensures
            final(self).wf(),
            !final(self).needs_flush(),
            final(self).safe_point() == old(self).safe_point(),
            final(self).entries() == old(self).entries(),
            ts_of(key@) > old(self).safe_point() ==> final(self).passed_by(old(self), filtered),
            ts_of(key@) <= old(self).safe_point() ==> final(self).filtered_from(
                old(self),
                user_key_of(key@),
                ts_of(key@),
                parse_write_bytes(value@).unwrap(),
                filtered,
            ),
    {
        let (key_prefix, commit_ts) = split_ts(key);
        if commit_ts > self.safe_point {
            self.near_seek_distance = saturating_sum(self.near_seek_distance, 1);
            return false;
        }
        let write = parse_write(value);
        self.filter_record(key_prefix, commit_ts, &write)
    }

    /// Hands out the removals that have been flushed, in their order, for
    /// the caller to write; the pending batch stays with the filter.
    pub fn take_flushed(&mut self) -> (batch: Vec<Modify>)
        ensures
            batch_view(batch@) == old(self).flushed(),
            final(self).flushed() == Seq::<ModifyView>::empty(),
            final(self).pending() == old(self).pending(),
            final(self).pending_size() == old(self).pending_size(),
            final(self).issued() == old(self).pending(),
            final(self).same_walk(old(self)),
            final(self).counts() == old(self).counts(),
            final(self).near_seek_distance() == old(self).near_seek_distance(),
            final(self).wf() == old(self).wf(),
    {
        let mut batch: Vec<Modify> = Vec::new();
        core::mem::swap(&mut self.flushed, &mut batch);
        assert(self.flushed() =~= Seq::<ModifyView>::empty());
        assert(self.issued() =~= old(self).pending());
        batch
    }

    /// Ends the work of the filter: adds the counts of the last key to the
    /// totals and hands out every removal that was asked for, in order, with
    /// the totals of versions seen, records dropped and records removed
    /// behind delete marks.
    pub fn finish(self) -> (r: (Vec<Modify>, usize, usize, usize))
        ensures
            batch_view(r.0@) == self.issued(),
            r.1 == self.counts().switched().total_versions,
            r.2 == self.counts().switched().total_filtered,
            r.3 == self.counts().switched().total_deleted,
    {
        let mut this = self;
        this.switch_key_metrics();
        let ghost a = batch_view(this.flushed@);
        let ghost b = batch_view(this.write_batch@);
        this.flushed.append(&mut this.write_batch);
        assert(batch_view(this.flushed@) =~= a + b);
        (this.flushed, this.total_versions, this.total_filtered, this.total_deleted)
    }

    /// Flushes the pending removals if they are more than a batch should
    /// hold: they go to the end of the flushed ones, in their order, and the
    /// pending batch starts again empty. A batch within its bounds stays
    /// pending.
    fn flush_pending_writes_if_need(&mut self)
        ensures
            old(self).needs_flush() ==> final(self).flushed() == old(self).flushed()
                + old(self).pending(),
            old(self).needs_flush() ==> final(self).pending() == Seq::<ModifyView>::empty(),
            old(self).needs_flush() ==> final(self).pending_size() == 0,
            !old(self).needs_flush() ==> final(self).flushed() == old(self).flushed(),
            !old(self).needs_flush() ==> final(self).pending() == old(self).pending(),
            !old(self).needs_flush() ==> final(self).pending_size() == old(self).pending_size(),
            !final(self).needs_flush(),
            final(self).issued() == old(self).issued(),
            final(self).same_walk(old(self)),
            final(self).counts() == old(self).counts(),
            final(self).near_seek_distance() == old(self).near_seek_distance(),
            final(self).iter_wf() == old(self).iter_wf(),
    {
        if self.write_batch.len() > DEFAULT_DELETE_BATCH_COUNT || self.write_batch_size
            > DEFAULT_DELETE_BATCH_SIZE {
            let ghost a = batch_view(self.flushed@);
            let ghost b = batch_view(self.write_batch@);
            self.flushed.append(&mut self.write_batch);
            self.write_batch_size = 0;
            assert(batch_view(self.flushed@) =~= a + b);
            assert(batch_view(self.write_batch@) =~= Seq::<ModifyView>::empty());
            assert(self.issued() =~= old(self).issued());
        }
    }

    fn push_removal(&mut self, m: Modify, size: usize)
        ensures
            !final(self).needs_flush(),
            final(self).issued() == old(self).issued().push(m@),
            final(self).same_walk(old(self)),
            final(self).counts() == old(self).counts(),
            final(self).near_seek_distance() == old(self).near_seek_distance(),
            final(self).iter_wf() == old(self).iter_wf(),
    {
        self.write_batch.push(m);
        self.write_batch_size = saturating_sum(self.write_batch_size, size);
        assert(batch_view(self.write_batch@) =~= batch_view(old(self).write_batch@).push(m@));
        assert(self.issued() =~= old(self).issued().push(m@));
        self.flush_pending_writes_if_need();
    }

    /// Asks for the removal of the value behind a dropped record.
    fn handle_filtered_write(&mut self, key: &[u8], write: &Write)
        ensures
            !old(self).needs_flush() ==> !final(self).needs_flush(),
            final(self).issued() == old(self).issued() + value_removal(key@, write@),
            final(self).same_walk(old(self)),
            final(self).counts() == old(self).counts(),
            final(self).near_seek_distance() == old(self).near_seek_distance(),
            final(self).iter_wf() == old(self).iter_wf(),
    {
        if write.short_value.is_none() && write.write_type == WriteType::Put {
            let size = saturating_sum(key.len(), 8);
            self.push_removal(Modify::DeleteValue(clone_bytes(key), write.start_ts), size);
            assert(self.issued() =~= old(self).issued() + value_removal(key@, write@));
        } else {
            assert(self.issued() =~= old(self).issued() + value_removal(key@, write@));
        }
    }

    /// Asks for the removal of a write record.
    fn delete_write_key(&mut self, key: &[u8], ts: u64)
        ensures
            !final(self).needs_flush(),
            final(self).issued() == old(self).issued().push(ModifyView::DeleteWrite(key@, ts)),
            final(self).same_walk(old(self)),
            final(self).near_seek_distance() == old(self).near_seek_distance(),
            final(self).iter_wf() == old(self).iter_wf(),
            final(self).counts() == (FilterCounts {
                deleted: sat_add(old(self).counts().deleted, 1),
                ..old(self).counts()
            }),
    {
        let size = saturating_sum(key.len(), 8);
        self.push_removal(Modify::DeleteWrite(clone_bytes(key), TimeStamp(ts)), size);
        self.deleted = saturating_sum(self.deleted, 1);
    }

    /// Adds the counts of the key that ends to the totals.
    fn switch_key_metrics(&mut self)
        ensures
            final(self).flushed() == old(self).flushed(),
            final(self).pending() == old(self).pending(),
            final(self).pending_size() == old(self).pending_size(),
            final(self).counts() == old(self).counts().switched(),
            final(self).issued() == old(self).issued(),
            final(self).same_walk(old(self)),
            final(self).near_seek_distance() == old(self).near_seek_distance(),
            final(self).iter_wf() == old(self).iter_wf(),
    {
        if self.versions != 0 {
            self.total_versions = saturating_sum(self.total_versions, self.versions);
            self.versions = 0;
        }
        if self.filtered != 0 {
            self.total_filtered = saturating_sum(self.total_filtered, self.filtered);
            self.filtered = 0;
        }
        self.total_deleted = saturating_sum(self.total_deleted, self.deleted);
        self.deleted = 0;
    }
}

/// The newest `Put` at or below the safe point stays: where no `Put` or
/// `Delete` of the key has been seen yet, the filter keeps a `Put`, asks for
/// no removal, and drops the versions of the key that follow.
pub proof fn lemma_filter_keeps_newest_put(
    before: &WriteCompactionFilter,
    after: &WriteCompactionFilter,
    user_key: Seq<u8>,
    commit_ts: u64,
    w: WriteView,
    filtered: bool,
)
    requires
        after.filtered_from(before, user_key, commit_ts, w, filtered),
        commit_ts <= before.safe_point(),
        w.write_type == WriteType::Put,
        !before.remove_older_for(user_key),
    ensures
        !filtered,
        after.key_prefix() == user_key,
        after.remove_older(),
        after.issued() == before.issued(),
{
    assert(before.issued() + Seq::<ModifyView>::empty() =~= before.issued());
}

/// A protected rollback stays, whatever came before it, and the filter asks
/// for no removal.
pub proof fn lemma_filter_keeps_protected_rollback(
    before: &WriteCompactionFilter,
    after: &WriteCompactionFilter,
    user_key: Seq<u8>,
    commit_ts: u64,
    w: WriteView,
    filtered: bool,
)
    requires
        after.filtered_from(before, user_key, commit_ts, w, filtered),
        w.is_protected(),
    ensures
        !filtered,
        after.issued() == before.issued(),
{
    assert(before.issued() + Seq::<ModifyView>::empty() =~= before.issued());
}

/// For a record that stays the filter asks for no removal: the value behind
/// a `Put` is removed only with the `Put`.
pub proof fn lemma_filter_kept_asks_nothing(
    before: &WriteCompactionFilter,
    after: &WriteCompactionFilter,
    user_key: Seq<u8>,
    commit_ts: u64,
    w: WriteView,
    filtered: bool,
)
    requires
        after.filtered_from(before, user_key, commit_ts, w, filtered),
        !filtered,
    ensures
        after.issued() == before.issued(),
{
    assert(before.issued() + Seq::<ModifyView>::empty() =~= before.issued());
}

} // verus!
