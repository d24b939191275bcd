//! Garbage collection of versions that no reader can ask for any more.

pub mod cluster_version;
pub mod collection;
pub mod compaction;
pub mod compaction_filter;
pub mod config;
pub mod selection;
