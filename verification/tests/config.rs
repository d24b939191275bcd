use mvcc_txn::storage::config::{
    BlockCacheConfig, Config, ConfigError, SharedCacheOptions, StorageConfigManger, DEFAULT_DATA_DIR,
    DEFAULT_MAX_KEY_SIZE, MAX_SCHED_CONCURRENCY,
};
use mvcc_txn::storage::mvcc::error::Error;

#[test]
fn test_config_defaults() {
    let cfg = Config::new(false);
    assert_eq!(cfg.data_dir, DEFAULT_DATA_DIR);
    assert_eq!(cfg.max_key_size, 4096);
    assert_eq!(cfg.scheduler_concurrency, 1024 * 512);
    assert_eq!(cfg.scheduler_worker_pool_size, 4);
    assert_eq!(cfg.scheduler_pending_write_threshold, 100 * 1024 * 1024);
    assert_eq!(cfg.reserve_space, 2 * 1024 * 1024 * 1024);
    assert!(!cfg.enable_async_apply_prewrite);
    assert_eq!(Config::new(true).scheduler_worker_pool_size, 8);
    let cache = BlockCacheConfig::new();
    assert!(cache.shared);
    assert_eq!(cache.capacity, None);
    assert_eq!(cache.num_shard_bits, 6);
    assert!(!cache.strict_capacity_limit);
    assert_eq!(cache.memory_allocator.as_deref(), Some("nodump"));
}

#[test]
fn test_validate_bounds_concurrency() {
    let mut cfg = Config::new(false);
    assert!(!cfg.validate());
    assert_eq!(cfg.scheduler_concurrency, 1024 * 512);
    cfg.scheduler_concurrency = MAX_SCHED_CONCURRENCY;
    assert!(!cfg.validate());
    assert_eq!(cfg.scheduler_concurrency, 2 * 1024 * 1024);
    cfg.scheduler_concurrency = MAX_SCHED_CONCURRENCY + 1;
    assert!(cfg.validate());
    assert_eq!(cfg.scheduler_concurrency, 2 * 1024 * 1024);
}

#[test]
fn test_key_size() {
    let cfg = Config::new(false);
    assert!(cfg.check_key_size(&vec![0u8; DEFAULT_MAX_KEY_SIZE]).is_ok());
    match cfg.check_key_size(&vec![0u8; DEFAULT_MAX_KEY_SIZE + 1]) {
        Err(Error::KeyTooLarge { size, limit }) => {
            assert_eq!(size, 4097);
            assert_eq!(limit, 4096);
        }
        r => panic!("unexpected result: {:?}", r),
    }
}

#[test]
fn test_dispatch() {
    let shared = StorageConfigManger::new(true);
    assert_eq!(shared.dispatch(None), Ok(None));
    assert_eq!(shared.dispatch(Some(None)), Ok(None));
    assert_eq!(shared.dispatch(Some(Some(1 << 30))), Ok(Some(1 << 30)));
    let apart = StorageConfigManger::new(false);
    assert_eq!(apart.dispatch(None), Ok(None));
    assert_eq!(apart.dispatch(Some(Some(1 << 30))), Err(ConfigError::SharedBlockCacheDisabled));
    assert_eq!(apart.dispatch(Some(None)), Err(ConfigError::SharedBlockCacheDisabled));
}

#[test]
fn test_build_shared_cache() {
    let mut cache = BlockCacheConfig::new();
    assert!(cache.new_memory_allocator());
    assert_eq!(
        cache.build_shared_cache(1000),
        Some(SharedCacheOptions { capacity: 1000, num_shard_bits: 6, strict_capacity_limit: false, nodump_allocator: true })
    );
    cache.capacity = Some(64);
    cache.num_shard_bits = 3;
    cache.strict_capacity_limit = true;
    cache.memory_allocator = Some(String::new());
    assert_eq!(
        cache.build_shared_cache(1000),
        Some(SharedCacheOptions { capacity: 64, num_shard_bits: 3, strict_capacity_limit: true, nodump_allocator: false })
    );
    cache.memory_allocator = Some("other".to_string());
    assert!(!cache.new_memory_allocator());
    cache.memory_allocator = None;
    assert!(!cache.new_memory_allocator());
    cache.capacity = Some(u64::MAX);
    assert_eq!(cache.build_shared_cache(1).unwrap().capacity, usize::MAX);
    cache.shared = false;
    assert_eq!(cache.build_shared_cache(1000), None);
}
