//! Unified error type for RutSeriDB.
use crate::common::text::{decimal, hex_padded, push_decimal, push_hex_padded};
use vstd::prelude::*;
use vstd::string::StringExecFns;

verus! {

/// Top-level error type for RutSeriDB.
///
/// Every fallible operation of the crate returns
/// `Result<T, RutSeriError>`.
#[derive(Debug, Clone)]
pub enum RutSeriError {
    /// An I/O failure, with its description.
    Io(String),
    /// The WAL holds a record that cannot be read.
    WalCorruption(String),
    /// A WAL record's checksum does not match its contents.
    WalCrcMismatch { seq: u64, expected: u32, actual: u32 },
    /// Rows do not conform to the table schema.
    SchemaValidation(String),
    /// The named table is not registered.
    UnknownTable(String),
    /// A row lacks one of the table's primary tags.
    MissingPrimaryTag(String),
    /// A Part file (or one of its sections) is malformed.
    InvalidPartFile(String),
    /// A Part file carries a format version this build cannot read.
    UnsupportedVersion(u16),
    /// A catalog operation failed.
    Catalog(String),
    /// A query could not be parsed.
    QueryParse(String),
    /// A query could not be planned.
    QueryPlan(String),
    /// A query failed during execution.
    QueryExec(String),
    /// A write could not be ingested.
    Ingest(String),
    /// The dispatch channel of a shard is closed.
    ShardChannelClosed,
    /// The client went away before the acknowledgement.
    ClientDisconnected,
    /// The configuration is invalid.
    Config(String),
    /// A value could not be serialized or deserialized.
    Serialization(String),
    /// A cluster operation failed.
    Cluster(String),
    /// A node could not be reached.
    NodeUnreachable { node_id: String, addr: String },
    /// No leader is known for the shard.
    LeaderNotFound(u32),
    /// Replication failed.
    Replication(String),
    /// A replica is too far behind its leader.
    ReplicationLagExceeded { shard_id: u32, replica_seq: u64, leader_seq: u64 },
    /// A Raft operation failed.
    Raft(String),
    /// An RPC failed.
    Rpc(String),
    /// An RPC timed out.
    RpcTimeout { addr: String, timeout_ms: u64 },
    /// A gossip operation failed.
    Gossip(String),
    /// An internal invariant was violated.
    Internal(String),
}

/// The text of an error, as the error type displays it.
pub open spec fn error_message(e: RutSeriError) -> Seq<char> {
    match e {
        RutSeriError::Io(m) => "I/O error: "@ + m@,
        RutSeriError::WalCorruption(m) => "WAL corruption: "@ + m@,
        RutSeriError::SchemaValidation(m) => "Schema validation error: "@ + m@,
        RutSeriError::UnknownTable(m) => "Unknown table: "@ + m@,
        RutSeriError::MissingPrimaryTag(m) => "Missing required primary tag: "@ + m@,
        RutSeriError::InvalidPartFile(m) => "Invalid part file: "@ + m@,
        RutSeriError::Catalog(m) => "Catalog error: "@ + m@,
        RutSeriError::QueryParse(m) => "Query parse error: "@ + m@,
        RutSeriError::QueryPlan(m) => "Query planning error: "@ + m@,
        RutSeriError::QueryExec(m) => "Query execution error: "@ + m@,
        RutSeriError::Ingest(m) => "Ingest error: "@ + m@,
        RutSeriError::Config(m) => "Configuration error: "@ + m@,
        RutSeriError::Serialization(m) => "Serialization error: "@ + m@,
        RutSeriError::Cluster(m) => "Cluster error: "@ + m@,
        RutSeriError::Replication(m) => "Replication error: "@ + m@,
        RutSeriError::Raft(m) => "Raft error: "@ + m@,
        RutSeriError::Rpc(m) => "RPC error: "@ + m@,
        RutSeriError::Gossip(m) => "Gossip error: "@ + m@,
        RutSeriError::Internal(m) => "Internal error: "@ + m@,
        RutSeriError::WalCrcMismatch { seq, expected, actual } => "WAL entry CRC mismatch at seq "@
            + decimal(seq as nat) + ": expected 0x"@ + hex_padded(expected as nat, 8) + ", got 0x"@
            + hex_padded(actual as nat, 8),
        RutSeriError::UnsupportedVersion(v) => "Unsupported part format version: "@ + decimal(v as nat),
        RutSeriError::ShardChannelClosed => "Shard dispatch channel closed"@,
        RutSeriError::ClientDisconnected => "Client disconnected before acknowledgement"@,
        RutSeriError::NodeUnreachable { node_id, addr } => "Node unreachable: "@ + node_id@ + " at "@ + addr@,
        RutSeriError::LeaderNotFound(shard) => "Leader not found for shard "@ + decimal(shard as nat),
        RutSeriError::ReplicationLagExceeded { shard_id, replica_seq, leader_seq } =>
            "Replication lag too large for shard "@ + decimal(shard_id as nat) + ": replica at seq "@
            + decimal(replica_seq as nat) + ", leader at "@ + decimal(leader_seq as nat),
        RutSeriError::RpcTimeout { addr, timeout_ms } => "RPC timeout to "@ + addr@ + " after "@ + decimal(
            timeout_ms as nat,
        ) + " ms"@,
    }
}

impl RutSeriError {
    /// The text of the error (what its display shows).
    pub fn message(&self) -> (r: String)
        ensures
            r@ == error_message(*self),
    {
        let mut out = String::new();
        match self {
            RutSeriError::Io(m) => {
                out.append("I/O error: ");
                out.append(m.as_str());
            },
            RutSeriError::WalCorruption(m) => {
                out.append("WAL corruption: ");
                out.append(m.as_str());
            },
            RutSeriError::SchemaValidation(m) => {
                out.append("Schema validation error: ");
                out.append(m.as_str());
            },
            RutSeriError::UnknownTable(m) => {
                out.append("Unknown table: ");
                out.append(m.as_str());
            },
            RutSeriError::MissingPrimaryTag(m) => {
                out.append("Missing required primary tag: ");
                out.append(m.as_str());
            },
            RutSeriError::InvalidPartFile(m) => {
                out.append("Invalid part file: ");
                out.append(m.as_str());
            },
            RutSeriError::Catalog(m) => {
                out.append("Catalog error: ");
                out.append(m.as_str());
            },
            RutSeriError::QueryParse(m) => {
                out.append("Query parse error: ");
                out.append(m.as_str());
            },
            RutSeriError::QueryPlan(m) => {
                out.append("Query planning error: ");
                out.append(m.as_str());
            },
            RutSeriError::QueryExec(m) => {
                out.append("Query execution error: ");
                out.append(m.as_str());
            },
            RutSeriError::Ingest(m) => {
                out.append("Ingest error: ");
                out.append(m.as_str());
            },
            RutSeriError::Config(m) => {
                out.append("Configuration error: ");
                out.append(m.as_str());
            },
            RutSeriError::Serialization(m) => {
                out.append("Serialization error: ");
                out.append(m.as_str());
            },
            RutSeriError::Cluster(m) => {
                out.append("Cluster error: ");
                out.append(m.as_str());
            },
            RutSeriError::Replication(m) => {
                out.append("Replication error: ");
                out.append(m.as_str());
            },
            RutSeriError::Raft(m) => {
                out.append("Raft error: ");
                out.append(m.as_str());
            },
            RutSeriError::Rpc(m) => {
                out.append("RPC error: ");
                out.append(m.as_str());
            },
            RutSeriError::Gossip(m) => {
                out.append("Gossip error: ");
                out.append(m.as_str());
            },
            RutSeriError::Internal(m) => {
                out.append("Internal error: ");
                out.append(m.as_str());
            },
            RutSeriError::WalCrcMismatch { seq, expected, actual } => {
                out.append("WAL entry CRC mismatch at seq ");
                push_decimal(&mut out, *seq);
                out.append(": expected 0x");
                push_hex_padded(&mut out, *expected as u64, 8);
                out.append(", got 0x");
                push_hex_padded(&mut out, *actual as u64, 8);
            },
            RutSeriError::UnsupportedVersion(v) => {
                out.append("Unsupported part format version: ");
                push_decimal(&mut out, *v as u64);
            },
            RutSeriError::ShardChannelClosed => {
                out.append("Shard dispatch channel closed");
            },
            RutSeriError::ClientDisconnected => {
                out.append("Client disconnected before acknowledgement");
            },
            RutSeriError::NodeUnreachable { node_id, addr } => {
                out.append("Node unreachable: ");
                out.append(node_id.as_str());
                out.append(" at ");
                out.append(addr.as_str());
            },
            RutSeriError::LeaderNotFound(shard) => {
                out.append("Leader not found for shard ");
                push_decimal(&mut out, *shard as u64);
            },
            RutSeriError::ReplicationLagExceeded { shard_id, replica_seq, leader_seq } => {
                out.append("Replication lag too large for shard ");
                push_decimal(&mut out, *shard_id as u64);
                out.append(": replica at seq ");
                push_decimal(&mut out, *replica_seq);
                out.append(", leader at ");
                push_decimal(&mut out, *leader_seq);
            },
            RutSeriError::RpcTimeout { addr, timeout_ms } => {
                out.append("RPC timeout to ");
                out.append(addr.as_str());
                out.append(" after ");
                push_decimal(&mut out, *timeout_ms);
                out.append(" ms");
            },
        }
        proof {
            assert(out@ =~= error_message(*self));
        }
        out
    }
}

} // verus!
