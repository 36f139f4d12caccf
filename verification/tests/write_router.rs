use rutseridb::common::error::RutSeriError;
use rutseridb::common::schema::{CompressionType, TableSchema};
use rutseridb::common::shard_key::compute_shard_key;
use rutseridb::common::types::{FieldValue, IngestBatch, Row};
use rutseridb::coordinator::metadata_catalog::{MetadataOp, MetadataState};
use rutseridb::coordinator::write_router::WriteRouter;
use std::collections::BTreeMap;

fn schema() -> TableSchema {
    TableSchema {
        name: "metrics".to_string(),
        columns: vec![],
        primary_tags: vec!["host".to_string(), "region".to_string()],
        partition_duration: "1h".to_string(),
        compression: CompressionType::Lz4,
    }
}

fn row(tags: &[(&str, &str)]) -> Row {
    Row {
        timestamp: 1,
        tags: tags.iter().map(|(k, v)| (k.to_string(), v.to_string())).collect(),
        fields: BTreeMap::from([("cpu".to_string(), FieldValue::Int(1))]),
    }
}

fn state_with_table() -> MetadataState {
    let mut s = MetadataState::new();
    s.apply(MetadataOp::RegisterTable {
        table: "metrics".to_string(),
        schema: schema(),
        primary_tags: vec!["host".to_string(), "region".to_string()],
    })
    .unwrap();
    s
}

fn batch(rows: Vec<Row>) -> IngestBatch {
    IngestBatch { table: "metrics".to_string(), rows }
}

#[test]
fn extract_primary_tags_keeps_only_primary_tags_of_first_row() {
    let s = state_with_table();
    let r = WriteRouter::new(4);
    let b = batch(vec![row(&[("host", "web-01"), ("region", "eu"), ("rack", "7")]), row(&[("host", "x")])]);
    let tags = r.extract_primary_tags(&s, &b).unwrap();
    assert_eq!(tags.len(), 2);
    assert_eq!(tags["host"], "web-01");
    assert_eq!(tags["region"], "eu");
}

#[test]
fn extract_primary_tags_errors() {
    let s = state_with_table();
    let r = WriteRouter::new(4);
    let unknown = IngestBatch { table: "nope".to_string(), rows: vec![] };
    assert!(matches!(r.extract_primary_tags(&s, &unknown), Err(RutSeriError::UnknownTable(t)) if t == "nope"));
    match r.extract_primary_tags(&s, &batch(vec![])) {
        Err(RutSeriError::Ingest(m)) => assert_eq!(m, "Batch has no rows to route"),
        other => panic!("expected Ingest, got {other:?}"),
    }
    let missing = batch(vec![row(&[("region", "eu")])]);
    assert!(matches!(r.extract_primary_tags(&s, &missing), Err(RutSeriError::MissingPrimaryTag(t)) if t == "host"));
}

#[test]
fn route_finds_leader_address() {
    let mut s = state_with_table();
    let r = WriteRouter::new(4);
    let b = batch(vec![row(&[("host", "web-01"), ("region", "eu")])]);
    let shard = compute_shard_key(&b.rows[0].tags, &["host".to_string(), "region".to_string()], 4);
    match r.route(&s, &b) {
        Err(RutSeriError::LeaderNotFound(id)) => assert_eq!(id, shard),
        other => panic!("expected LeaderNotFound, got {other:?}"),
    }
    s.apply(MetadataOp::AssignShard { shard_id: shard, leader: "n1".to_string(), replicas: vec![] }).unwrap();
    // The leader is assigned but has no registered address yet.
    assert!(matches!(r.route(&s, &b), Err(RutSeriError::LeaderNotFound(id)) if id == shard));
    s.apply(MetadataOp::RegisterNode { node_id: "n1".to_string(), addr: "10.0.0.1:7000".to_string() }).unwrap();
    let t = r.route(&s, &b).unwrap();
    assert_eq!(t.shard_id, shard);
    assert_eq!(t.leader, "n1");
    assert_eq!(t.addr, "10.0.0.1:7000");
    // Other tags of the row do not move it.
    let b2 = batch(vec![row(&[("host", "web-01"), ("region", "eu"), ("rack", "9")])]);
    assert_eq!(r.route(&s, &b2).unwrap().shard_id, shard);
}
