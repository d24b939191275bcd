//! The settings of the store.

use vstd::prelude::*;
use crate::storage::mvcc::error::{Error, ErrorView};

verus! {

pub const DEFAULT_DATA_DIR: &'static str = "./";

/// Keys longer than this are refused.
pub const DEFAULT_MAX_KEY_SIZE: usize = 4096;

pub const DEFAULT_SCHED_CONCURRENCY: usize = 524288;

/// More slots than this do not help the scheduler.
pub const MAX_SCHED_CONCURRENCY: usize = 2097152;

/// Disk space that is held back, in bytes: two gibibytes.
pub const DEFAULT_RESERVED_SPACE: u64 = 2147483648;

/// Bytes waiting to be written above which the scheduler refuses more: what
/// a second of writing brings where a hundred mebibytes are written in one.
pub const DEFAULT_SCHED_PENDING_WRITE: u64 = 104857600;

/// The settings of the cache of blocks.
#[derive(Debug)]
pub struct BlockCacheConfig {
    /// Whether all column families share one cache.
    pub shared: bool,
    /// The size of the cache in bytes; unset, a share of the memory is taken.
    pub capacity: Option<u64>,
    pub num_shard_bits: i32,
    pub strict_capacity_limit: bool,
    pub memory_allocator: Option<String>,
}

/// The settings of the store.
#[derive(Debug)]
pub struct Config {
    pub data_dir: String,
    pub max_key_size: usize,
    pub scheduler_concurrency: usize,
    pub scheduler_worker_pool_size: usize,
    pub scheduler_pending_write_threshold: u64,
    /// Disk space held back so that compaction can still run on a full disk.
    pub reserve_space: u64,
    pub enable_async_apply_prewrite: bool,
    pub block_cache: BlockCacheConfig,
}

/// What a shared cache of blocks is made with.
#[derive(Clone, Copy, Debug, PartialEq, Eq, Structural)]
pub struct SharedCacheOptions {
    /// The size of the cache in bytes.
    pub capacity: usize,
    pub num_shard_bits: i32,
    pub strict_capacity_limit: bool,
    /// Whether the memory of the cache is to stay out of core dumps.
    pub nodump_allocator: bool,
}

/// A size in bytes as a size of memory, held at the largest where it does
/// not fit.
pub open spec fn as_capacity(bytes: u64) -> usize {
    if bytes > usize::MAX {
        usize::MAX
    } else {
        bytes as usize
    }
}

impl BlockCacheConfig {
    /// Whether the settings ask for the allocator that keeps the cache out
    /// of core dumps.
    pub open spec fn wants_nodump(&self) -> bool {
        self.memory_allocator matches Some(name) && name@ == "nodump"@
    }

    /// Whether the settings ask for the allocator that keeps the cache out
    /// of core dumps.
    pub fn new_memory_allocator(&self) -> (r: bool)
        ensures
            r == self.wants_nodump(),
    {
        match &self.memory_allocator {
            Some(name) => *name == "nodump".to_string(),
            None => false,
        }
    }

    /// What the shared cache is made with; none where the cache is not
    /// shared. The size is the one that the settings name, else
    /// `default_capacity`.
    pub fn build_shared_cache(&self, default_capacity: usize) -> (r: Option<SharedCacheOptions>)
        ensures
            !self.shared ==> r is None,
            self.shared ==> r == Some(
                SharedCacheOptions {
                    capacity: match self.capacity {
                        Some(bytes) => as_capacity(bytes),
                        None => default_capacity,
                    },
                    num_shard_bits: self.num_shard_bits,
                    strict_capacity_limit: self.strict_capacity_limit,
                    nodump_allocator: self.wants_nodump(),
                },
            ),
    {
        if !self.shared {
            return None;
        }
        let capacity = match self.capacity {
            None => default_capacity,
            Some(bytes) => if bytes > usize::MAX as u64 {
                usize::MAX
            } else {
                bytes as usize
            },
        };
        Some(
            SharedCacheOptions {
                capacity,
                num_shard_bits: self.num_shard_bits,
                strict_capacity_limit: self.strict_capacity_limit,
                nodump_allocator: self.new_memory_allocator(),
            },
        )
    }

    /// The settings that hold where nothing else is said.
    pub fn new() -> (cfg: BlockCacheConfig)
        ensures
            cfg.shared,
            cfg.capacity is None,
            cfg.num_shard_bits == 6,
            !cfg.strict_capacity_limit,
            cfg.memory_allocator matches Some(name) && name@ == "nodump"@,
    {
        BlockCacheConfig {
            shared: true,
            capacity: None,
            num_shard_bits: 6,
            strict_capacity_limit: false,
            memory_allocator: Some("nodump".to_string()),
        }
    }
}

impl Config {
    /// The settings that hold where nothing else is said, for a machine with
    /// sixteen processors or more (`many_cores`) or with fewer.
    pub fn new(many_cores: bool) -> (cfg: Config)
        ensures
            cfg.data_dir@ == DEFAULT_DATA_DIR@,
            cfg.max_key_size == DEFAULT_MAX_KEY_SIZE,
            cfg.scheduler_concurrency == DEFAULT_SCHED_CONCURRENCY,
            cfg.scheduler_worker_pool_size == if many_cores {
                8usize
            } else {
                4usize
            },
            cfg.scheduler_pending_write_threshold == DEFAULT_SCHED_PENDING_WRITE,
            cfg.reserve_space == DEFAULT_RESERVED_SPACE,
            !cfg.enable_async_apply_prewrite,
            cfg.block_cache.shared,
            cfg.block_cache.capacity is None,
            cfg.block_cache.num_shard_bits == 6,
            !cfg.block_cache.strict_capacity_limit,
            cfg.block_cache.memory_allocator matches Some(name) && name@ == "nodump"@,
    {
        Config {
            data_dir: DEFAULT_DATA_DIR.to_string(),
            max_key_size: DEFAULT_MAX_KEY_SIZE,
            scheduler_concurrency: DEFAULT_SCHED_CONCURRENCY,
            scheduler_worker_pool_size: if many_cores {
                8
            } else {
                4
            },
            scheduler_pending_write_threshold: DEFAULT_SCHED_PENDING_WRITE,
            reserve_space: DEFAULT_RESERVED_SPACE,
            enable_async_apply_prewrite: false,
            block_cache: BlockCacheConfig::new(),
        }
    }

    /// Brings the settings into their bounds: the scheduler gets no more
    /// slots than help. Returns whether anything was changed.
    pub fn validate(&mut self) -> (changed: bool)
        ensures
            final(self).scheduler_concurrency == if old(self).scheduler_concurrency
                > MAX_SCHED_CONCURRENCY {
                MAX_SCHED_CONCURRENCY
            } else {
                old(self).scheduler_concurrency
            },
            changed == (old(self).scheduler_concurrency > MAX_SCHED_CONCURRENCY),
            final(self).data_dir == old(self).data_dir,
            final(self).max_key_size == old(self).max_key_size,
            final(self).scheduler_worker_pool_size == old(self).scheduler_worker_pool_size,
            final(self).scheduler_pending_write_threshold == old(
                self,
            ).scheduler_pending_write_threshold,
            final(self).reserve_space == old(self).reserve_space,
            final(self).enable_async_apply_prewrite == old(self).enable_async_apply_prewrite,
            final(self).block_cache == old(self).block_cache,
    {
        if self.scheduler_concurrency > MAX_SCHED_CONCURRENCY {
            self.scheduler_concurrency = MAX_SCHED_CONCURRENCY;
            true
        } else {
            false
        }
    }

    /// Refuses a key that is longer than the settings allow.
    pub fn check_key_size(&self, key: &[u8]) -> (r: Result<(), Error>)
        ensures
            key@.len() <= self.max_key_size ==> r is Ok,
            key@.len() > self.max_key_size ==> (r matches Err(e) && e@ == (ErrorView::KeyTooLarge {
                size: key@.len(),
                limit: self.max_key_size as nat,
            })),
    {
        if key.len() > self.max_key_size {
            Err(Error::KeyTooLarge { size: key.len(), limit: self.max_key_size })
        } else {
            Ok(())
        }
    }
}

/// A change of the settings that cannot be made.
#[derive(Clone, Copy, Debug, PartialEq, Eq, Structural)]
pub enum ConfigError {
    /// The size of the cache can change only where the cache is shared.
    SharedBlockCacheDisabled,
}

/// Takes changes of the settings while the store runs.
#[derive(Debug)]
pub struct StorageConfigManger {
    pub shared_block_cache: bool,
}

impl StorageConfigManger {
    pub fn new(shared_block_cache: bool) -> (m: StorageConfigManger)
        ensures
            m.shared_block_cache == shared_block_cache,
    {
        StorageConfigManger { shared_block_cache }
    }

    /// Decides on a change of the settings. `block_cache` is the change that
    /// was asked for the cache of blocks, if any, and in it the new size, if
    /// one was given. Returns the size that the cache is to get.
    pub fn dispatch(&self, block_cache: Option<Option<u64>>) -> (r: Result<Option<u64>, ConfigError>)
        ensures
            block_cache is Some && !self.shared_block_cache ==> r == Err::<Option<u64>, ConfigError>(
                ConfigError::SharedBlockCacheDisabled,
            ),
            block_cache is Some && self.shared_block_cache ==> r == Ok::<Option<u64>, ConfigError>(
                block_cache.unwrap(),
            ),
            block_cache is None ==> r == Ok::<Option<u64>, ConfigError>(None),
    {
        match block_cache {
            Some(capacity) => {
                if !self.shared_block_cache {
                    return Err(ConfigError::SharedBlockCacheDisabled);
                }
                Ok(capacity)
            },
            None => Ok(None),
        }
    }
}

} // verus!
