use analytic_engine::config::{Config, ConfigError, RecoverMode, SetOnce, WalStorageConfig};

#[test]
fn default_config_matches_documented_values() {
    let c = Config::default();
    assert_eq!(c.replay_batch_size, 500);
    assert_eq!(c.max_replay_tables_per_batch, 64);
    assert_eq!(c.sst_meta_cache_cap, Some(1000));
    assert_eq!(c.sst_data_cache_cap, Some(1000));
    assert_eq!(c.max_rows_in_write_queue, 0);
    assert_eq!(c.space_write_buffer_size, 0);
    assert_eq!(c.db_write_buffer_size, 0);
    assert_eq!(c.preflush_write_buffer_size_ratio_percent, 75);
    assert!(c.scan_batch_size.is_none());
    assert_eq!(c.scan_max_record_batches_in_flight, 1024);
    assert_eq!(c.sst_background_read_parallelism, 8);
    assert_eq!(c.write_sst_max_buffer_size, 10 * 1024 * 1024);
    assert_eq!(c.max_retry_flush_limit, 0);
    assert!(c.max_bytes_per_write_batch.is_none());
    match &c.wal {
        WalStorageConfig::RocksDB(r) => assert_eq!(r.data_dir, "/tmp/ceresdb"),
        _ => panic!("default WAL backend"),
    }
    assert_eq!(c.recover_mode, RecoverMode::TableBased);
    assert_eq!(c.compaction.max_ongoing_tasks, 8);
    assert_eq!(c.compaction.max_retry_limit, 3);
    assert_eq!(c.manifest.snapshot_every_n_updates, 100);
}

#[test]
fn validation_rejects_bad_ratio_and_accepts_the_range() {
    let mut c = Config::default();
    assert!(c.validate().is_ok());
    c.preflush_write_buffer_size_ratio_percent = 0;
    assert_eq!(c.validate(), Err(ConfigError::InvalidPreflushRatio));
    c.preflush_write_buffer_size_ratio_percent = 101;
    assert_eq!(c.validate(), Err(ConfigError::InvalidPreflushRatio));
    c.preflush_write_buffer_size_ratio_percent = 1;
    assert!(c.validate().is_ok());
    c.preflush_write_buffer_size_ratio_percent = 100;
    assert!(c.validate().is_ok());
}

#[test]
fn validation_rejects_zero_ceilings_the_engine_relies_on() {
    let mut c = Config::default();
    c.replay_batch_size = 0;
    assert_eq!(c.validate(), Err(ConfigError::InvalidReplayBatchSize));
    c.replay_batch_size = 500;
    c.max_replay_tables_per_batch = 0;
    assert_eq!(c.validate(), Err(ConfigError::InvalidMaxReplayTablesPerBatch));
    c.max_replay_tables_per_batch = 64;
    c.sst_meta_cache_cap = Some(0);
    assert_eq!(c.validate(), Err(ConfigError::InvalidSstMetaCacheCap));
    c.sst_meta_cache_cap = None;
    c.sst_data_cache_cap = Some(0);
    assert_eq!(c.validate(), Err(ConfigError::InvalidSstDataCacheCap));
    // `None` means unbounded and is accepted.
    c.sst_data_cache_cap = None;
    assert!(c.validate().is_ok());
}

#[test]
fn namespace_defaults_follow_the_shared_namespace_config() {
    let m = analytic_engine::config::ManifestNamespaceConfig::default();
    assert_eq!(m.shard_num, 512);
    assert_eq!(m.meta_shard_num, 128);
    assert_eq!(m.init_scan_batch_size, 100);
    let w = analytic_engine::config::WalNamespaceConfig::default();
    assert_eq!(w.shard_num, 512);
    assert_eq!(w.meta_shard_num, 128);
    assert_eq!(w.ttl_ms, 365 * 24 * 3600 * 1000);
}

#[test]
fn table_store_wal_defaults_mirror_both_namespaces() {
    let c = analytic_engine::config::ObkvWalConfig::default();
    assert_eq!(c.data_namespace.shard_num, 512);
    assert_eq!(c.data_namespace.meta_shard_num, 128);
    assert_eq!(c.data_namespace.ttl_ms, 365 * 24 * 3600 * 1000);
    assert_eq!(c.meta_namespace.shard_num, 512);
    assert_eq!(c.meta_namespace.meta_shard_num, 128);
    assert_eq!(c.meta_namespace.clean_scan_batch_size, 100);
}

#[test]
fn namespace_conversions_carry_the_fields_over() {
    let m = analytic_engine::config::ManifestNamespaceConfig {
        shard_num: 7,
        meta_shard_num: 3,
        init_scan_timeout_ms: 1000,
        init_scan_batch_size: 42,
        clean_scan_timeout_ms: 2000,
        clean_scan_batch_size: 9,
    };
    let n = analytic_engine::config::NamespaceConfig::from(m);
    assert_eq!(n.wal_shard_num, 7);
    assert_eq!(n.table_unit_meta_shard_num, 3);
    assert_eq!(n.ttl_ms, None);
    assert_eq!(n.init_scan_batch_size, 42);
    assert_eq!(n.clean_scan_batch_size, 9);

    let w = analytic_engine::config::WalNamespaceConfig {
        shard_num: 11,
        meta_shard_num: 5,
        ttl_ms: 1234,
        init_scan_timeout_ms: 99,
        init_scan_batch_size: 6,
    };
    let n2 = analytic_engine::config::NamespaceConfig::from(w);
    assert_eq!(n2.wal_shard_num, 11);
    assert_eq!(n2.table_unit_meta_shard_num, 5);
    assert_eq!(n2.ttl_ms, Some(1234));
    assert_eq!(n2.init_scan_timeout_ms, 99);
}

#[test]
fn shard_counts_are_set_once_and_later_settings_are_ignored() {
    let mut s = SetOnce::new();
    assert_eq!(s.get(), None);
    assert!(s.set(512));
    assert_eq!(s.get(), Some(512));
    // A later different setting is detected and ignored, never applied.
    assert!(!s.set(1024));
    assert_eq!(s.get(), Some(512));
    // Re-setting the frozen value is reported as agreeing.
    assert!(s.set(512));
    assert_eq!(s.get(), Some(512));
}
