use rutseridb::background::metrics::Metrics;
use rutseridb::config::config::{
    default_advertise_addr, default_data_dir, default_durability_level, default_index_cache_size,
    default_interval_ms, default_max_parts, default_max_values_per_key, default_memtable_size,
    default_num_shards, default_read_buffer_size, default_replication_buffer, default_replication_factor,
    default_role, default_target_part_size, default_true, InvertedIndexConfig,
};
use rutseridb::rpc::client::StorageNodeClient;
use rutseridb::rpc::proto::WriteBatchRequest;
use rutseridb::rpc::server::write_batch_plan;
use std::time::Duration;

#[test]
fn config_defaults() {
    assert_eq!(default_role(), "dev");
    assert_eq!(default_advertise_addr(), "127.0.0.1:4000");
    assert_eq!(default_num_shards(), 8);
    assert_eq!(default_replication_factor(), 1);
    assert_eq!(default_data_dir(), "./data");
    assert_eq!(default_memtable_size(), 64 * 1024 * 1024);
    assert_eq!(default_read_buffer_size(), 128 * 1024 * 1024);
    assert_eq!(default_index_cache_size(), 32 * 1024 * 1024);
    assert_eq!(default_replication_buffer(), 16 * 1024 * 1024);
    assert_eq!(default_durability_level(), "sync_batch");
    assert_eq!(default_interval_ms(), 10);
    assert!(default_true());
    assert_eq!(default_max_parts(), 8);
    assert_eq!(default_target_part_size(), 256 * 1024 * 1024);
    assert_eq!(default_max_values_per_key(), 10_000);
}

#[test]
fn inverted_index_config_default() {
    let c = InvertedIndexConfig::default();
    assert!(c.enabled);
    assert!(c.tag_columns.is_empty());
    assert_eq!(c.max_values_per_key, 10_000);
}

#[test]
fn metrics_start_at_zero() {
    let m = Metrics::default();
    assert_eq!(
        (m.rows_ingested, m.wal_bytes_written, m.part_files_count, m.memtable_bytes, m.queries_executed, m.parts_pruned),
        (0, 0, 0, 0, 0, 0)
    );
}

#[test]
fn storage_client_timeout() {
    let c = StorageNodeClient::new(Duration::from_secs(30));
    assert_eq!(c.timeout(), Duration::from_secs(30));
}

#[test]
fn write_request_plan_counts_rows() {
    let req = WriteBatchRequest { table: "m".to_string(), shard_id: 2, rows: vec![] };
    let (batch, resp) = write_batch_plan(req);
    assert_eq!(batch.table, "m");
    assert_eq!(resp.rows_written, 0);
}
