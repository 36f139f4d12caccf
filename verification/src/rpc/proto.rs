//! Message types exchanged between Coordinators and Storage Nodes.
use crate::common::types::{Row, ShardId, Timestamp};
use vstd::prelude::*;

verus! {

/// Coordinator → Storage Node: ingest a batch of rows.
#[derive(Debug, Clone)]
pub struct WriteBatchRequest {
    /// Target table name.
    pub table: String,
    /// Target shard ID.
    pub shard_id: ShardId,
    /// Rows to ingest.
    pub rows: Vec<Row>,
}

/// Storage Node → Coordinator after ingesting a batch.
#[derive(Debug, Clone)]
pub struct WriteBatchResponse {
    /// Number of rows ingested.
    pub rows_written: u64,
}

/// Coordinator → Storage Node: run a sub-query.
#[derive(Debug, Clone)]
pub struct ExecuteQueryRequest {
    /// SQL of the sub-query, with the pushed-down filters.
    pub sql: String,
}

/// Partial result of a sub-query.
#[derive(Debug, Clone)]
pub struct ExecuteQueryResponse {
    /// Arrow IPC serialized record batches.
    pub arrow_ipc_data: Vec<u8>,
    /// Number of rows in the partial result.
    pub row_count: u64,
}

/// Force a shard to flush (admin or shutdown).
#[derive(Debug, Clone)]
pub struct FlushShardRequest {
    pub shard_id: ShardId,
}

/// Whether a flush succeeded.
#[derive(Debug, Clone)]
pub struct FlushShardResponse {
    pub success: bool,
}

/// Ask for the replication offset of a shard (used during failover).
#[derive(Debug, Clone)]
pub struct GetReplicationOffsetRequest {
    pub shard_id: ShardId,
}

/// The replication offset of a shard.
#[derive(Debug, Clone)]
pub struct GetReplicationOffsetResponse {
    pub shard_id: ShardId,
    pub offset: u64,
}

/// Heartbeat and registration of a Storage Node with the Coordinator.
#[derive(Debug, Clone)]
pub struct NodeHeartbeat {
    pub node_id: String,
    pub addr: String,
    pub shard_ids: Vec<ShardId>,
    pub timestamp: Timestamp,
}

} // verus!
