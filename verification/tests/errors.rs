use rutseridb::common::error::RutSeriError;

#[test]
fn error_messages() {
    assert_eq!(RutSeriError::UnknownTable("cpu".to_string()).message(), "Unknown table: cpu");
    assert_eq!(RutSeriError::MissingPrimaryTag("host".to_string()).message(), "Missing required primary tag: host");
    assert_eq!(RutSeriError::ShardChannelClosed.message(), "Shard dispatch channel closed");
    assert_eq!(
        RutSeriError::WalCrcMismatch { seq: 7, expected: 0xCBF43926, actual: 0x1a }.message(),
        "WAL entry CRC mismatch at seq 7: expected 0xcbf43926, got 0x0000001a"
    );
    assert_eq!(RutSeriError::UnsupportedVersion(2).message(), "Unsupported part format version: 2");
    assert_eq!(RutSeriError::LeaderNotFound(12).message(), "Leader not found for shard 12");
    assert_eq!(
        RutSeriError::NodeUnreachable { node_id: "n1".to_string(), addr: "h:1".to_string() }.message(),
        "Node unreachable: n1 at h:1"
    );
    assert_eq!(
        RutSeriError::ReplicationLagExceeded { shard_id: 1, replica_seq: 5, leader_seq: 90 }.message(),
        "Replication lag too large for shard 1: replica at seq 5, leader at 90"
    );
    assert_eq!(
        RutSeriError::RpcTimeout { addr: "h:2".to_string(), timeout_ms: 500 }.message(),
        "RPC timeout to h:2 after 500 ms"
    );
    assert_eq!(RutSeriError::Internal("x".to_string()).message(), "Internal error: x");
    assert_eq!(RutSeriError::Io("disk".to_string()).message(), "I/O error: disk");
}
