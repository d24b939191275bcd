//! The largest timestamp that the store has seen.

use vstd::prelude::*;
use crate::txn_types::timestamp::TimeStamp;

verus! {

/// The largest timestamp seen once `seen` has been noted: the larger of the
/// two.
pub open spec fn noted(max_ts: u64, seen: u64) -> u64 {
    if seen > max_ts {
        seen
    } else {
        max_ts
    }
}

/// Holds the largest timestamp seen so far, which never goes down, and
/// whether it has been brought up to the clock of the cluster.
#[derive(Clone, Copy, Debug)]
pub struct ConcurrencyManager {
    max_ts: u64,
    max_ts_synced: bool,
}

impl ConcurrencyManager {
    /// The largest timestamp seen.
    pub closed spec fn spec_max_ts(&self) -> u64 {
        self.max_ts
    }

    /// Whether the largest timestamp is that of the cluster's clock or later.
    pub closed spec fn spec_synced(&self) -> bool {
        self.max_ts_synced
    }

    /// A manager that has seen `latest_ts` and is in step with the cluster.
    pub fn new(latest_ts: TimeStamp) -> (cm: ConcurrencyManager)
        ensures
            cm.spec_max_ts() == latest_ts@,
            cm.spec_synced(),
    {
        ConcurrencyManager { max_ts: latest_ts.0, max_ts_synced: true }
    }

    /// The largest timestamp seen.
    pub fn max_ts(&self) -> (ts: TimeStamp)
        ensures
            ts@ == self.spec_max_ts(),
    {
        TimeStamp(self.max_ts)
    }

    /// Takes note of `new_ts`: the largest timestamp seen becomes the larger
    /// of the two, so it never decreases.
    pub fn update_max_ts(&mut self, new_ts: TimeStamp)
        ensures
            final(self).spec_max_ts() == noted(old(self).spec_max_ts(), new_ts@),
            final(self).spec_max_ts() >= old(self).spec_max_ts(),
            final(self).spec_synced() == old(self).spec_synced(),
    {
        if new_ts.0 > self.max_ts {
            self.max_ts = new_ts.0;
        }
    }

    /// Whether the largest timestamp is in step with the cluster.
    pub fn is_max_ts_synced(&self) -> (r: bool)
        ensures
            r == self.spec_synced(),
    {
        self.max_ts_synced
    }

    /// Records whether the largest timestamp is in step with the cluster.
    pub fn set_max_ts_synced(&mut self, synced: bool)
        ensures
            final(self).spec_synced() == synced,
            final(self).spec_max_ts() == old(self).spec_max_ts(),
    {
        self.max_ts_synced = synced;
    }
}

} // verus!
