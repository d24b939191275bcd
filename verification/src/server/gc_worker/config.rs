//! The settings of garbage collection.

use vstd::prelude::*;

verus! {

/// The settings that decide whether garbage collection may run inside
/// compaction.
#[derive(Clone, Copy, Debug, PartialEq, Eq, Structural)]
pub struct GcConfig {
    /// Whether compaction may collect garbage.
    pub enable_compaction_filter: bool,
    /// Whether the version of the cluster is not looked at.
    pub compaction_filter_skip_version_check: bool,
}

impl Default for GcConfig {
    fn default() -> (cfg: GcConfig)
        ensures
            cfg.enable_compaction_filter,
            !cfg.compaction_filter_skip_version_check,
    {
        GcConfig { enable_compaction_filter: true, compaction_filter_skip_version_check: false }
    }
}

} // verus!
