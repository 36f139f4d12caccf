use rutseridb::common::error::RutSeriError;
use rutseridb::common::schema::{CompressionType, TableSchema};
use rutseridb::common::types::{NodeInfo, NodeState};
use rutseridb::coordinator::metadata_catalog::{MetadataOp, MetadataState};
use rutseridb::gossip::membership::MembershipTable;
use rutseridb::raft::log::{RaftLogEntry, RaftLogStore};

fn node(id: &str, addr: &str, state: NodeState) -> NodeInfo {
    NodeInfo { node_id: id.to_string(), addr: addr.to_string(), state }
}

#[test]
fn metadata_apply_and_read() {
    let mut s = MetadataState::new();
    s.apply(MetadataOp::RegisterNode { node_id: "n1".to_string(), addr: "10.0.0.1:4000".to_string() }).unwrap();
    s.apply(MetadataOp::AssignShard { shard_id: 3, leader: "n1".to_string(), replicas: vec!["n2".to_string()] }).unwrap();
    assert_eq!(s.version, 2);
    assert_eq!(s.get_node_addr("n1").unwrap(), "10.0.0.1:4000");
    assert_eq!(s.get_shard_leader(3).unwrap(), "n1");
    assert!(s.get_shard_leader(4).is_none());

    s.apply(MetadataOp::PromoteLeader { shard_id: 3, new_leader: "n2".to_string() }).unwrap();
    assert_eq!(s.get_shard_leader(3).unwrap(), "n2");
    assert_eq!(s.get_shard_map()[0].replicas, vec!["n2".to_string()]);
    assert_eq!(s.version, 3);

    match s.apply(MetadataOp::PromoteLeader { shard_id: 9, new_leader: "n2".to_string() }) {
        Err(RutSeriError::LeaderNotFound(9)) => {}
        other => panic!("expected LeaderNotFound, got {other:?}"),
    }
    assert_eq!(s.version, 3);

    s.apply(MetadataOp::DeregisterNode { node_id: "n1".to_string() }).unwrap();
    assert!(s.get_node_addr("n1").is_none());
}

#[test]
fn metadata_tables_and_shard_map_order() {
    let mut s = MetadataState::new();
    let schema = TableSchema {
        name: "metrics".to_string(),
        columns: vec![],
        primary_tags: vec!["host".to_string()],
        partition_duration: "1h".to_string(),
        compression: CompressionType::Lz4,
    };
    s.apply(MetadataOp::RegisterTable { table: "metrics".to_string(), schema, primary_tags: vec!["host".to_string()] }).unwrap();
    assert_eq!(s.get_table_schema("metrics").unwrap().1, vec!["host".to_string()]);
    assert!(s.get_table_schema("other").is_none());
    for id in [5u32, 1, 3] {
        s.apply(MetadataOp::AssignShard { shard_id: id, leader: format!("n{id}"), replicas: vec![] }).unwrap();
    }
    let ids: Vec<u32> = s.get_shard_map().iter().map(|a| a.shard_id).collect();
    assert_eq!(ids, vec![1, 3, 5]);
}

#[test]
fn membership_upsert_respects_incarnation() {
    let mut t = MembershipTable::new();
    t.upsert(node("a", "x:1", NodeState::Alive), 5);
    t.upsert(node("a", "x:2", NodeState::Dead), 3);
    assert_eq!(t.snapshot(), vec![("a".to_string(), NodeState::Alive)]);
    t.upsert(node("a", "x:3", NodeState::Suspect), 5);
    assert_eq!(t.snapshot(), vec![("a".to_string(), NodeState::Suspect)]);
}

#[test]
fn membership_state_changes_and_peers() {
    let mut t = MembershipTable::new();
    for id in ["self", "a", "b", "c"] {
        t.upsert(node(id, "addr", NodeState::Alive), 1);
    }
    t.mark_suspect("b");
    t.mark_dead("c");
    t.mark_alive("unknown");
    assert_eq!(t.alive_count(), 2);
    assert_eq!(t.random_peer("self"), Some("a".to_string()));
    let peers = t.random_peers("self", 5);
    assert_eq!(peers, vec!["a".to_string()]);
    t.mark_alive("b");
    let peers = t.random_peers("self", 1);
    assert_eq!(peers.len(), 1);
    assert!(peers[0] == "a" || peers[0] == "b");
    t.remove("a");
    t.remove("b");
    assert_eq!(t.random_peer("self"), None);
    assert!(t.random_peers("self", 3).is_empty());
}

fn entry(index: u64) -> RaftLogEntry {
    RaftLogEntry { term: 1, index, op: MetadataOp::DeregisterNode { node_id: format!("n{index}") } }
}

#[test]
fn raft_log_operations() {
    let mut log = RaftLogStore::new("/tmp/raft".to_string());
    assert!(log.last_entry().is_none());
    log.append(vec![entry(1), entry(2), entry(3)]);
    log.append(vec![entry(4), entry(5)]);
    assert_eq!(log.last_entry().unwrap().index, 5);
    let mid: Vec<u64> = log.get_entries(2, 4).iter().map(|e| e.index).collect();
    assert_eq!(mid, vec![2, 3]);
    log.truncate(4);
    assert_eq!(log.last_entry().unwrap().index, 3);
    log.compact(1);
    let all: Vec<u64> = log.get_entries(0, u64::MAX).iter().map(|e| e.index).collect();
    assert_eq!(all, vec![2, 3]);
    log.compact(u64::MAX);
    assert!(log.last_entry().is_none());
    assert_eq!(log.data_dir(), "/tmp/raft");
    log.load(vec![entry(9)]);
    assert_eq!(log.last_entry().unwrap().index, 9);
}

use rutseridb::common::types::ConsistencyLevel;
use rutseridb::coordinator::read_router::ReadRouter;

fn three_node_shard() -> MetadataState {
    let mut s = MetadataState::new();
    s.apply(MetadataOp::AssignShard {
        shard_id: 1,
        leader: "n1".to_string(),
        replicas: vec!["n2".to_string(), "n3".to_string()],
    })
    .unwrap();
    s
}

#[test]
fn read_targets_by_consistency() {
    let s = three_node_shard();
    assert_eq!(
        ReadRouter::new(ConsistencyLevel::All).select_read_targets(&s, 1).unwrap(),
        vec!["n1".to_string(), "n2".to_string(), "n3".to_string()]
    );
    assert_eq!(
        ReadRouter::new(ConsistencyLevel::Quorum).select_read_targets(&s, 1).unwrap(),
        vec!["n1".to_string(), "n2".to_string()]
    );
    let one = ReadRouter::new(ConsistencyLevel::One).select_read_targets(&s, 1).unwrap();
    assert_eq!(one.len(), 1);
    assert!(["n1", "n2", "n3"].contains(&one[0].as_str()));
    let r = ReadRouter::new(ConsistencyLevel::One);
    assert_eq!(r.select_read_targets_with(&s, 1, 0).unwrap(), vec!["n1".to_string()]);
    assert_eq!(r.select_read_targets_with(&s, 1, 4).unwrap(), vec!["n2".to_string()]);
    assert_eq!(r.select_read_targets_with(&s, 1, u64::MAX).unwrap(), vec!["n1".to_string()]);
    match ReadRouter::new(ConsistencyLevel::All).select_read_targets(&s, 7) {
        Err(RutSeriError::LeaderNotFound(7)) => {}
        other => panic!("expected LeaderNotFound, got {other:?}"),
    }
}

use rutseridb::coordinator::cluster_manager::{best_replica, failover_op, shards_led_by};

#[test]
fn best_replica_takes_highest_offset_last_on_tie() {
    assert_eq!(best_replica(&[]), None);
    let offsets = vec![("a".to_string(), 5), ("b".to_string(), 9), ("c".to_string(), 9), ("d".to_string(), 1)];
    assert_eq!(best_replica(&offsets), Some("c".to_string()));
    match failover_op(4, &offsets) {
        Some(MetadataOp::PromoteLeader { shard_id, new_leader }) => {
            assert_eq!(shard_id, 4);
            assert_eq!(new_leader, "c");
        }
        other => panic!("expected a promotion, got {other:?}"),
    }
    assert!(failover_op(4, &[]).is_none());
}

#[test]
fn shards_led_by_dead_node() {
    let mut s = MetadataState::new();
    for (id, leader) in [(7u32, "x"), (2, "y"), (5, "x"), (1, "x")] {
        s.apply(MetadataOp::AssignShard { shard_id: id, leader: leader.to_string(), replicas: vec![] }).unwrap();
    }
    assert_eq!(shards_led_by(&s, "x"), vec![1, 5, 7]);
    assert_eq!(shards_led_by(&s, "y"), vec![2]);
    assert!(shards_led_by(&s, "z").is_empty());
}

#[test]
fn alive_count_matches_snapshot() {
    let mut t = MembershipTable::new();
    t.upsert(node("a", "a:1", NodeState::Alive), 0);
    t.upsert(node("b", "b:1", NodeState::Alive), 0);
    t.upsert(node("c", "c:1", NodeState::Alive), 0);
    t.upsert(node("d", "d:1", NodeState::Dead), 0);
    t.mark_suspect("b");
    let alive_in_snapshot = t.snapshot().iter().filter(|(_, st)| *st == NodeState::Alive).count();
    assert_eq!(alive_in_snapshot, 2);
    assert_eq!(t.alive_count(), alive_in_snapshot);
    // More peers asked for than there are: all of them.
    assert_eq!(t.random_peers("a", usize::MAX).len(), 1);
}
