//! Configuration of a RutSeriDB node.
//!
//! The sections map one to one to the TOML configuration file; every
//! optional setting has a default, given by the functions below. Reading
//! and parsing the file is the caller's part.
use crate::common::strmap::StrMap;
use vstd::prelude::*;

verus! {

/// Top-level configuration.
#[derive(Debug, Clone)]
pub struct RutSeriConfig {
    pub cluster: ClusterConfig,
    pub storage: StorageConfig,
    pub memory: MemoryConfig,
    pub durability: DurabilityConfig,
    pub threads: ThreadConfig,
    pub merge: MergeConfig,
    pub indexes: IndexConfig,
    /// Per-table overrides, by table name.
    pub tables: StrMap<TableConfig>,
}

/// Cluster identity and topology.
#[derive(Debug, Clone)]
pub struct ClusterConfig {
    /// Unique identifier of this node.
    pub node_id: String,
    /// Node role: "dev" (all-in-one), "coordinator" or "storage".
    pub role: String,
    /// Address this node advertises to peers.
    pub advertise_addr: String,
    /// Total number of shards, fixed at cluster creation.
    pub num_shards: u32,
    /// Number of replicas per shard, the leader included.
    pub replication_factor: u32,
}

/// Storage paths.
#[derive(Debug, Clone)]
pub struct StorageConfig {
    /// Root directory of all shard data.
    pub data_dir: String,
}

/// Per-component memory budgets.
#[derive(Debug, Clone)]
pub struct MemoryConfig {
    /// MemTable flush threshold per shard, in bytes.
    pub memtable_size_bytes: usize,
    /// Read buffer pool size, in bytes.
    pub read_buffer_size_bytes: usize,
    /// Index and Bloom cache size, in bytes.
    pub index_cache_size_bytes: usize,
    /// Replication buffer size, in bytes.
    pub replication_buffer_bytes: usize,
}

/// WAL durability settings.
#[derive(Debug, Clone)]
pub struct DurabilityConfig {
    /// Durability level: "async", "sync" or "sync_batch".
    pub level: String,
    /// SyncBatch timer interval in milliseconds.
    pub interval_ms: u64,
}

/// Thread pool sizing.
#[derive(Debug, Clone)]
pub struct ThreadConfig {
    /// Async worker threads (default: the number of CPUs).
    pub async_worker_threads: Option<usize>,
    /// Blocking I/O pool size (default: half the number of CPUs).
    pub blocking_io_threads: Option<usize>,
    /// Whether the background workers run.
    pub background_enabled: bool,
}

/// Merge worker configuration.
#[derive(Debug, Clone)]
pub struct MergeConfig {
    /// Whether Parts are merged automatically.
    pub enabled: bool,
    /// A partition with more Parts than this is merged.
    pub max_parts_per_partition: u32,
    /// Target size of merged Part files, in bytes.
    pub target_part_size_bytes: u64,
}

/// Index configuration.
#[derive(Debug, Clone)]
pub struct IndexConfig {
    pub inverted: InvertedIndexConfig,
}

/// Inverted index settings.
#[derive(Debug, Clone)]
pub struct InvertedIndexConfig {
    /// Whether the inverted index is built.
    pub enabled: bool,
    /// Which tag columns to index; empty means all of them.
    pub tag_columns: Vec<String>,
    /// A tag key with more distinct values than this is not indexed.
    pub max_values_per_key: usize,
}

impl Default for InvertedIndexConfig {
    /// Enabled, for all tag columns, up to 10 000 values per key.
    fn default() -> (r: InvertedIndexConfig)
        ensures
            r.enabled,
            r.tag_columns@.len() == 0,
            r.max_values_per_key == 10_000,
    {
        InvertedIndexConfig { enabled: true, tag_columns: Vec::new(), max_values_per_key: 10_000 }
    }
}

/// Per-table overrides.
#[derive(Debug, Clone)]
pub struct TableConfig {
    /// Time partition duration (e.g. "1h", "1d").
    pub partition_duration: Option<String>,
    /// Compression override.
    pub compression: Option<String>,
    /// Primary tag columns for shard key computation.
    pub primary_tags: Option<Vec<String>>,
}

/// Default role: "dev".
pub fn default_role() -> (r: String)
    ensures
        r@ == "dev"@,
{
    "dev".to_owned()
}

/// Default advertised address: "127.0.0.1:4000".
pub fn default_advertise_addr() -> (r: String)
    ensures
        r@ == "127.0.0.1:4000"@,
{
    "127.0.0.1:4000".to_owned()
}

/// Default number of shards: 8.
pub fn default_num_shards() -> (r: u32)
    ensures
        r == 8,
{
    8
}

/// Default replication factor: 1.
pub fn default_replication_factor() -> (r: u32)
    ensures
        r == 1,
{
    1
}

/// Default data directory: "./data".
pub fn default_data_dir() -> (r: String)
    ensures
        r@ == "./data"@,
{
    "./data".to_owned()
}

/// Default MemTable flush threshold: 64 MiB.
pub fn default_memtable_size() -> (r: usize)
    ensures
        r == 64 * 1024 * 1024,
{
    64 * 1024 * 1024
}

/// Default read buffer pool size: 128 MiB.
pub fn default_read_buffer_size() -> (r: usize)
    ensures
        r == 128 * 1024 * 1024,
{
    128 * 1024 * 1024
}

/// Default index cache size: 32 MiB.
pub fn default_index_cache_size() -> (r: usize)
    ensures
        r == 32 * 1024 * 1024,
{
    32 * 1024 * 1024
}

/// Default replication buffer size: 16 MiB.
pub fn default_replication_buffer() -> (r: usize)
    ensures
        r == 16 * 1024 * 1024,
{
    16 * 1024 * 1024
}

/// Default durability level: "sync_batch".
pub fn default_durability_level() -> (r: String)
    ensures
        r@ == "sync_batch"@,
{
    "sync_batch".to_owned()
}

/// Default SyncBatch interval: 10 ms.
pub fn default_interval_ms() -> (r: u64)
    ensures
        r == 10,
{
    10
}

/// Default for the boolean switches: on.
pub fn default_true() -> (r: bool)
    ensures
        r,
{
    true
}

/// Default Parts per partition before a merge: 8.
pub fn default_max_parts() -> (r: u32)
    ensures
        r == 8,
{
    8
}

/// Default target size of merged Parts: 256 MiB.
pub fn default_target_part_size() -> (r: u64)
    ensures
        r == 256 * 1024 * 1024,
{
    256 * 1024 * 1024
}

/// Default limit of distinct values per indexed tag key: 10 000.
pub fn default_max_values_per_key() -> (r: usize)
    ensures
        r == 10_000,
{
    10_000
}

} // verus!
