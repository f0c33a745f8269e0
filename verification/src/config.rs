//! Engine configuration: validated at startup, every field defaulted.
//!
//! Zero-valued write-buffer ceilings mean "disabled". The preflush ratio is
//! carried as a percentage so that the configuration stays in exact integer
//! arithmetic; it must lie in (0, 100].

use vstd::prelude::*;

verus! {

/// How tables of one shard are brought back at startup.
///
/// Under `TableBased`, tables recover strictly one after another (manifest
/// load, then log replay), which bounds peak memory. Under `ShardBased`,
/// tables sharing a log shard recover together in bounded batches.
#[derive(Clone, Copy, Debug, PartialEq, Eq, Structural)]
pub enum RecoverMode {
    TableBased,
    ShardBased,
}

/// Parameters of the background compaction scheduler.
#[derive(Clone, Debug)]
pub struct SchedulerConfig {
    /// Upper bound on compaction tasks running at the same time.
    pub max_ongoing_tasks: usize,
    /// How often a failed compaction task is retried before it is fatal.
    pub max_retry_limit: usize,
}

impl Default for SchedulerConfig {
    fn default() -> (c: SchedulerConfig)
        ensures
            c.max_ongoing_tasks == 8,
            c.max_retry_limit == 3,
    {
        SchedulerConfig { max_ongoing_tasks: 8, max_retry_limit: 3 }
    }
}

/// Parameters of the manifest (the durable log of metadata edits).
#[derive(Clone, Debug)]
pub struct ManifestOptions {
    /// A snapshot is taken after this many edits, so that recovery never
    /// replays the manifest from genesis.
    pub snapshot_every_n_updates: usize,
}

impl Default for ManifestOptions {
    fn default() -> (c: ManifestOptions)
        ensures
            c.snapshot_every_n_updates == 100,
    {
        ManifestOptions { snapshot_every_n_updates: 100 }
    }
}

/// Settings of one namespace of the table-store-backed log.
///
/// Shard counts are set once at namespace creation; later changes are
/// detected and ignored (see [`SetOnce`]). Timeouts are in milliseconds.
#[derive(Clone, Debug)]
pub struct NamespaceConfig {
    pub wal_shard_num: usize,
    pub table_unit_meta_shard_num: usize,
    /// Time-to-live of log data in milliseconds; `None` keeps data forever.
    pub ttl_ms: Option<u64>,
    pub init_scan_timeout_ms: u64,
    pub init_scan_batch_size: i32,
    pub clean_scan_timeout_ms: u64,
    pub clean_scan_batch_size: usize,
}

impl Default for NamespaceConfig {
    fn default() -> (c: NamespaceConfig)
        ensures
            c.wal_shard_num == 512,
            c.table_unit_meta_shard_num == 128,
            c.ttl_ms == Some((365u64 * 24 * 3600 * 1000) as u64),
            c.init_scan_timeout_ms == 10_000,
            c.init_scan_batch_size == 100,
            c.clean_scan_timeout_ms == 10_000,
            c.clean_scan_batch_size == 100,
    {
        NamespaceConfig {
            wal_shard_num: 512,
            table_unit_meta_shard_num: 128,
            ttl_ms: Some(365u64 * 24 * 3600 * 1000),
            init_scan_timeout_ms: 10_000,
            init_scan_batch_size: 100,
            clean_scan_timeout_ms: 10_000,
            clean_scan_batch_size: 100,
        }
    }
}

/// Namespace settings for the metadata (manifest) side of the
/// table-store-backed log.
#[derive(Clone, Debug)]
pub struct ManifestNamespaceConfig {
    /// How many log data shards are created; set once, later settings make
    /// no effect.
    pub shard_num: usize,
    /// How many log meta shards are created; set once, later settings make
    /// no effect.
    pub meta_shard_num: usize,
    pub init_scan_timeout_ms: u64,
    pub init_scan_batch_size: i32,
    pub clean_scan_timeout_ms: u64,
    pub clean_scan_batch_size: usize,
}

impl Default for ManifestNamespaceConfig {
    fn default() -> (c: ManifestNamespaceConfig)
        ensures
            c.shard_num == 512,
            c.meta_shard_num == 128,
            c.init_scan_timeout_ms == 10_000,
            c.init_scan_batch_size == 100,
            c.clean_scan_timeout_ms == 10_000,
            c.clean_scan_batch_size == 100,
    {
        let namespace_config = NamespaceConfig::default();
        ManifestNamespaceConfig {
            shard_num: namespace_config.wal_shard_num,
            meta_shard_num: namespace_config.table_unit_meta_shard_num,
            init_scan_timeout_ms: namespace_config.init_scan_timeout_ms,
            init_scan_batch_size: namespace_config.init_scan_batch_size,
            clean_scan_timeout_ms: namespace_config.clean_scan_timeout_ms,
            clean_scan_batch_size: namespace_config.clean_scan_batch_size,
        }
    }
}

impl From<ManifestNamespaceConfig> for NamespaceConfig {
    fn from(manifest_config: ManifestNamespaceConfig) -> (c: NamespaceConfig) {
        NamespaceConfig {
            wal_shard_num: manifest_config.shard_num,
            table_unit_meta_shard_num: manifest_config.meta_shard_num,
            ttl_ms: None,
            init_scan_timeout_ms: manifest_config.init_scan_timeout_ms,
            init_scan_batch_size: manifest_config.init_scan_batch_size,
            clean_scan_timeout_ms: manifest_config.clean_scan_timeout_ms,
            clean_scan_batch_size: manifest_config.clean_scan_batch_size,
        }
    }
}

impl vstd::std_specs::convert::FromSpecImpl<ManifestNamespaceConfig> for NamespaceConfig {
    open spec fn obeys_from_spec() -> bool {
        true
    }

    open spec fn from_spec(m: ManifestNamespaceConfig) -> NamespaceConfig {
        NamespaceConfig {
            wal_shard_num: m.shard_num,
            table_unit_meta_shard_num: m.meta_shard_num,
            ttl_ms: None,
            init_scan_timeout_ms: m.init_scan_timeout_ms,
            init_scan_batch_size: m.init_scan_batch_size,
            clean_scan_timeout_ms: m.clean_scan_timeout_ms,
            clean_scan_batch_size: m.clean_scan_batch_size,
        }
    }
}

/// Namespace settings for the data side of the table-store-backed log.
#[derive(Clone, Debug)]
pub struct WalNamespaceConfig {
    /// How many log data shards are created; set once, later settings make
    /// no effect.
    pub shard_num: usize,
    /// How many log meta shards are created; set once, later settings make
    /// no effect.
    pub meta_shard_num: usize,
    /// Time-to-live of log data in milliseconds.
    pub ttl_ms: u64,
    pub init_scan_timeout_ms: u64,
    pub init_scan_batch_size: i32,
}

impl Default for WalNamespaceConfig {
    fn default() -> (c: WalNamespaceConfig)
        ensures
            c.shard_num == 512,
            c.meta_shard_num == 128,
            c.ttl_ms == 365u64 * 24 * 3600 * 1000,
            c.init_scan_timeout_ms == 10_000,
            c.init_scan_batch_size == 100,
    {
        let namespace_config = NamespaceConfig::default();
        let ttl_ms: u64 = match namespace_config.ttl_ms {
            Some(t) => t,
            None => 0,
        };
        WalNamespaceConfig {
            shard_num: namespace_config.wal_shard_num,
            meta_shard_num: namespace_config.table_unit_meta_shard_num,
            ttl_ms,
            init_scan_timeout_ms: namespace_config.init_scan_timeout_ms,
            init_scan_batch_size: namespace_config.init_scan_batch_size,
        }
    }
}

impl From<WalNamespaceConfig> for NamespaceConfig {
    fn from(wal_config: WalNamespaceConfig) -> (c: NamespaceConfig) {
        let base = NamespaceConfig::default();
        NamespaceConfig {
            wal_shard_num: wal_config.shard_num,
            table_unit_meta_shard_num: wal_config.meta_shard_num,
            ttl_ms: Some(wal_config.ttl_ms),
            init_scan_timeout_ms: wal_config.init_scan_timeout_ms,
            init_scan_batch_size: wal_config.init_scan_batch_size,
            clean_scan_timeout_ms: base.clean_scan_timeout_ms,
            clean_scan_batch_size: base.clean_scan_batch_size,
        }
    }
}

impl vstd::std_specs::convert::FromSpecImpl<WalNamespaceConfig> for NamespaceConfig {
    open spec fn obeys_from_spec() -> bool {
        true
    }

    open spec fn from_spec(w: WalNamespaceConfig) -> NamespaceConfig {
        NamespaceConfig {
            wal_shard_num: w.shard_num,
            table_unit_meta_shard_num: w.meta_shard_num,
            ttl_ms: Some(w.ttl_ms),
            init_scan_timeout_ms: w.init_scan_timeout_ms,
            init_scan_batch_size: w.init_scan_batch_size,
            clean_scan_timeout_ms: 10_000,
            clean_scan_batch_size: 100,
        }
    }
}

/// Settings of the log backed by an embedded key-value store.
#[derive(Clone, Debug)]
pub struct RocksDBConfig {
    /// Data directory used by the embedded store.
    pub data_dir: String,
}

impl Default for RocksDBConfig {
    fn default() -> (c: RocksDBConfig)
        ensures
            c.data_dir@ == "/tmp/ceresdb"@,
    {
        RocksDBConfig { data_dir: "/tmp/ceresdb".to_string() }
    }
}

/// Settings of the log backed by a distributed table store.
#[derive(Clone, Debug)]
pub struct ObkvWalConfig {
    /// Namespace settings for data.
    pub data_namespace: WalNamespaceConfig,
    /// Namespace settings for metadata.
    pub meta_namespace: ManifestNamespaceConfig,
}

impl Default for ObkvWalConfig {
    fn default() -> (c: ObkvWalConfig)
        ensures
            c.data_namespace.shard_num == 512,
            c.data_namespace.meta_shard_num == 128,
            c.data_namespace.ttl_ms == 365u64 * 24 * 3600 * 1000,
            c.data_namespace.init_scan_timeout_ms == 10_000,
            c.data_namespace.init_scan_batch_size == 100,
            c.meta_namespace.shard_num == 512,
            c.meta_namespace.meta_shard_num == 128,
            c.meta_namespace.init_scan_timeout_ms == 10_000,
            c.meta_namespace.init_scan_batch_size == 100,
            c.meta_namespace.clean_scan_timeout_ms == 10_000,
            c.meta_namespace.clean_scan_batch_size == 100,
    {
        ObkvWalConfig {
            data_namespace: WalNamespaceConfig::default(),
            meta_namespace: ManifestNamespaceConfig::default(),
        }
    }
}

/// Settings of the log backed by a log broker.
#[derive(Clone, Debug)]
pub struct KafkaWalConfig {
    /// Topic namespace used for data records.
    pub data_topic_namespace: String,
    /// Topic namespace used for metadata records.
    pub meta_topic_namespace: String,
}

impl Default for KafkaWalConfig {
    fn default() -> (c: KafkaWalConfig)
        ensures
            c.data_topic_namespace@ == "wal_data"@,
            c.meta_topic_namespace@ == "wal_meta"@,
    {
        KafkaWalConfig {
            data_topic_namespace: "wal_data".to_string(),
            meta_topic_namespace: "wal_meta".to_string(),
        }
    }
}

/// Which durable backend carries the write-ahead log. All three expose the
/// same append/replay contract and differ only in durability and latency,
/// never in recovery semantics.
#[derive(Clone, Debug)]
pub enum WalStorageConfig {
    RocksDB(RocksDBConfig),
    Obkv(ObkvWalConfig),
    Kafka(KafkaWalConfig),
}

/// Why a configuration was rejected at startup.
#[derive(Clone, Copy, Debug, PartialEq, Eq, Structural)]
pub enum ConfigError {
    /// The preflush ratio lies outside (0, 100] percent.
    InvalidPreflushRatio,
    /// The replay batch size is zero: replay could never page forward.
    InvalidReplayBatchSize,
    /// The per-batch replay table bound is zero: no table could recover.
    InvalidMaxReplayTablesPerBatch,
    /// A metadata cache capacity of zero: set `None` for no bound instead.
    InvalidSstMetaCacheCap,
    /// A data cache capacity of zero: set `None` for no bound instead.
    InvalidSstDataCacheCap,
}

/// Config of the analytic engine.
#[derive(Clone, Debug)]
pub struct Config {
    /// Batch size to read records from the write-ahead log on replay.
    pub replay_batch_size: usize,
    /// How many tables of one shard recover concurrently under
    /// [`RecoverMode::ShardBased`].
    pub max_replay_tables_per_batch: usize,
    /// Compaction scheduler parameters.
    pub compaction: SchedulerConfig,
    /// Capacity of the SST metadata cache; `None` leaves it unbounded.
    pub sst_meta_cache_cap: Option<usize>,
    /// Capacity of the SST data-block cache; `None` leaves it unbounded.
    pub sst_data_cache_cap: Option<usize>,
    /// Manifest parameters.
    pub manifest: ManifestOptions,
    /// The maximum rows in the write queue. Zero disables the bound.
    pub max_rows_in_write_queue: usize,
    /// The maximum write-buffer bytes of a single space. Zero disables it.
    pub space_write_buffer_size: usize,
    /// The maximum write-buffer bytes across all spaces. Zero disables it.
    pub db_write_buffer_size: usize,
    /// Percentage of a table's write-buffer size at which a preflush is
    /// triggered; must lie in (0, 100].
    pub preflush_write_buffer_size_ratio_percent: u32,
    /// Rows per scan batch; the table's row-group size is used if unset.
    /// The wider system's per-table options, the row-group size among them,
    /// live outside this core, so callers pass that size in where needed.
    pub scan_batch_size: Option<usize>,
    /// Max record batches in flight when scanning.
    pub scan_max_record_batches_in_flight: usize,
    /// Background reading parallelism for SSTs.
    pub sst_background_read_parallelism: usize,
    /// Max buffer bytes held while writing an SST.
    pub write_sst_max_buffer_size: u64,
    /// Max retries after a failed flush before the table turns fatal.
    pub max_retry_flush_limit: usize,
    /// Max bytes per write batch. If set, a write request may split across
    /// several log appends, breaking all-or-nothing atomicity; partial
    /// durability is then surfaced to callers.
    pub max_bytes_per_write_batch: Option<u64>,
    /// Which durable backend carries the write-ahead log.
    pub wal: WalStorageConfig,
    /// How tables are recovered at startup.
    pub recover_mode: RecoverMode,
}

impl Default for Config {
    fn default() -> (c: Config)
        ensures
            c.replay_batch_size == 500,
            c.max_replay_tables_per_batch == 64,
            c.sst_meta_cache_cap == Some(1000usize),
            c.sst_data_cache_cap == Some(1000usize),
            c.max_rows_in_write_queue == 0,
            c.space_write_buffer_size == 0,
            c.db_write_buffer_size == 0,
            c.preflush_write_buffer_size_ratio_percent == 75,
            c.scan_batch_size is None,
            c.scan_max_record_batches_in_flight == 1024,
            c.sst_background_read_parallelism == 8,
            c.write_sst_max_buffer_size == 10u64 * 1024 * 1024,
            c.max_retry_flush_limit == 0,
            c.max_bytes_per_write_batch is None,
            c.compaction.max_ongoing_tasks == 8,
            c.compaction.max_retry_limit == 3,
            c.manifest.snapshot_every_n_updates == 100,
            c.wal is RocksDB,
            c.wal->RocksDB_0.data_dir@ == "/tmp/ceresdb"@,
            c.recover_mode == RecoverMode::TableBased,
            c.valid(),
    {
        Config {
            replay_batch_size: 500,
            max_replay_tables_per_batch: 64,
            compaction: SchedulerConfig::default(),
            sst_meta_cache_cap: Some(1000),
            sst_data_cache_cap: Some(1000),
            manifest: ManifestOptions::default(),
            max_rows_in_write_queue: 0,
            space_write_buffer_size: 0,
            db_write_buffer_size: 0,
            preflush_write_buffer_size_ratio_percent: 75,
            scan_batch_size: None,
            scan_max_record_batches_in_flight: 1024,
            sst_background_read_parallelism: 8,
            write_sst_max_buffer_size: 10u64 * 1024 * 1024,
            max_retry_flush_limit: 0,
            max_bytes_per_write_batch: None,
            wal: WalStorageConfig::RocksDB(RocksDBConfig::default()),
            recover_mode: RecoverMode::TableBased,
        }
    }
}

impl Config {
    /// A configuration is valid exactly when the preflush ratio lies in
    /// (0, 100] percent, the replay batch size and the per-batch replay
    /// table bound are at least 1, and no cache is given a capacity of zero
    /// (`None` means unbounded; zero is a contradiction, not a bound).
    pub open spec fn valid(self) -> bool {
        &&& 0 < self.preflush_write_buffer_size_ratio_percent <= 100
        &&& self.replay_batch_size >= 1
        &&& self.max_replay_tables_per_batch >= 1
        &&& self.sst_meta_cache_cap != Some(0usize)
        &&& self.sst_data_cache_cap != Some(0usize)
    }

    /// The scan batch size in force: the configured one, or the table's
    /// rows-per-row-group when none is set.
    pub fn effective_scan_batch_size(&self, num_rows_per_row_group: usize) -> (n: usize)
        ensures
            self.scan_batch_size is Some ==> n == self.scan_batch_size.unwrap(),
            self.scan_batch_size is None ==> n == num_rows_per_row_group,
    {
        match self.scan_batch_size {
            Some(n) => n,
            None => num_rows_per_row_group,
        }
    }

    /// Startup validation: rejects an invalid ratio or ceiling before the
    /// engine is built, naming the first field at fault in this order, and
    /// accepts everything else.
    pub fn validate(&self) -> (r: Result<(), ConfigError>)
        ensures
            r is Ok <==> self.valid(),
            r == Result::<(), ConfigError>::Err(ConfigError::InvalidPreflushRatio)
                <==> !(0 < self.preflush_write_buffer_size_ratio_percent <= 100),
            r == Result::<(), ConfigError>::Err(ConfigError::InvalidReplayBatchSize)
                <==> (0 < self.preflush_write_buffer_size_ratio_percent <= 100
                    && self.replay_batch_size == 0),
            r == Result::<(), ConfigError>::Err(ConfigError::InvalidMaxReplayTablesPerBatch)
                <==> (0 < self.preflush_write_buffer_size_ratio_percent <= 100
                    && self.replay_batch_size >= 1 && self.max_replay_tables_per_batch == 0),
            r == Result::<(), ConfigError>::Err(ConfigError::InvalidSstMetaCacheCap)
                <==> (0 < self.preflush_write_buffer_size_ratio_percent <= 100
                    && self.replay_batch_size >= 1 && self.max_replay_tables_per_batch >= 1
                    && self.sst_meta_cache_cap == Some(0usize)),
            r == Result::<(), ConfigError>::Err(ConfigError::InvalidSstDataCacheCap)
                <==> (0 < self.preflush_write_buffer_size_ratio_percent <= 100
                    && self.replay_batch_size >= 1 && self.max_replay_tables_per_batch >= 1
                    && self.sst_meta_cache_cap != Some(0usize)
                    && self.sst_data_cache_cap == Some(0usize)),
    {
        if !(0 < self.preflush_write_buffer_size_ratio_percent
            && self.preflush_write_buffer_size_ratio_percent <= 100) {
            Err(ConfigError::InvalidPreflushRatio)
        } else if self.replay_batch_size == 0 {
            Err(ConfigError::InvalidReplayBatchSize)
        } else if self.max_replay_tables_per_batch == 0 {
            Err(ConfigError::InvalidMaxReplayTablesPerBatch)
        } else if matches!(self.sst_meta_cache_cap, Some(0)) {
            Err(ConfigError::InvalidSstMetaCacheCap)
        } else if matches!(self.sst_data_cache_cap, Some(0)) {
            Err(ConfigError::InvalidSstDataCacheCap)
        } else {
            Ok(())
        }
    }
}

/// A value that is fixed at its first setting: later settings are detected
/// and ignored, never silently applied. Used for namespace shard counts.
#[derive(Clone, Copy, Debug)]
pub struct SetOnce {
    value: Option<usize>,
}

impl SetOnce {
    pub closed spec fn spec_value(self) -> Option<usize> {
        self.value
    }

    pub fn new() -> (s: SetOnce)
        ensures
            s.spec_value() is None,
    {
        SetOnce { value: None }
    }

    /// Applies `v` only on the first call; afterwards reports whether the
    /// attempted setting agreed with the frozen value.
    pub fn set(&mut self, v: usize) -> (applied: bool)
        ensures
            old(self).spec_value() is None ==> final(self).spec_value() == Some(v) && applied,
            old(self).spec_value() is Some ==> final(self).spec_value() == old(self).spec_value()
                && (applied <==> old(self).spec_value() == Some(v)),
    {
        match self.value {
            None => {
                self.value = Some(v);
                true
            }
            Some(w) => w == v,
        }
    }

    /// The frozen value, if one was set.
    pub fn get(&self) -> (r: Option<usize>)
        ensures
            r == self.spec_value(),
    {
        self.value
    }
}

} // verus!
