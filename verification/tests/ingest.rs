use rutseridb::common::error::RutSeriError;
use rutseridb::common::schema::{CompressionType, TableSchema};
use rutseridb::common::shard_key::compute_shard_key;
use rutseridb::common::strmap::StrMap;
use rutseridb::common::types::{FieldValue, IngestBatch, Row};
use rutseridb::ingest::engine::IngestEngine;
use rutseridb::ingest::shard_actor::{coalesce_rows, group_replies, ShardState};
use rutseridb::storage::memtable::memtable::ROW_SIZE_ESTIMATE;
use std::collections::BTreeMap;

fn schema() -> TableSchema {
    TableSchema {
        name: "metrics".to_string(),
        columns: vec![],
        primary_tags: vec!["host".to_string(), "region".to_string()],
        partition_duration: "1h".to_string(),
        compression: CompressionType::Lz4,
    }
}

fn engine(num_shards: u32) -> IngestEngine {
    let mut schemas = StrMap::new();
    schemas.insert("metrics".to_string(), schema());
    IngestEngine::new(schemas, num_shards)
}

fn row(ts: i64, tags: &[(&str, &str)]) -> Row {
    Row {
        timestamp: ts,
        tags: tags.iter().map(|(k, v)| (k.to_string(), v.to_string())).collect(),
        fields: BTreeMap::from([("cpu".to_string(), FieldValue::Int(1))]),
    }
}

#[test]
fn route_unknown_table() {
    let e = engine(8);
    let batch = IngestBatch { table: "nope".to_string(), rows: vec![] };
    match e.route(&batch) {
        Err(RutSeriError::UnknownTable(t)) => assert_eq!(t, "nope"),
        other => panic!("expected UnknownTable, got {other:?}"),
    }
}

#[test]
fn route_missing_primary_tag_reports_first() {
    let e = engine(8);
    let batch = IngestBatch {
        table: "metrics".to_string(),
        rows: vec![row(1, &[("host", "a"), ("region", "r")]), row(2, &[("zone", "z")])],
    };
    match e.route(&batch) {
        Err(RutSeriError::MissingPrimaryTag(t)) => assert_eq!(t, "host"),
        other => panic!("expected MissingPrimaryTag, got {other:?}"),
    }
}

#[test]
fn route_empty_batch_needs_no_shard() {
    let e = engine(8);
    let batch = IngestBatch { table: "metrics".to_string(), rows: vec![] };
    assert!(matches!(e.route(&batch), Ok(None)));
}

#[test]
fn route_uses_first_row() {
    let e = engine(8);
    let first = row(1, &[("host", "a"), ("region", "r")]);
    let expected = compute_shard_key(&first.tags, &schema().primary_tags, 8);
    let batch = IngestBatch {
        table: "metrics".to_string(),
        rows: vec![first, row(2, &[("host", "b"), ("region", "q")])],
    };
    assert_eq!(e.route(&batch).unwrap(), Some(expected));
}

#[test]
fn coalesce_keeps_arrival_order() {
    let b1 = IngestBatch { table: "t".to_string(), rows: vec![row(1, &[]), row(2, &[])] };
    let b2 = IngestBatch { table: "t".to_string(), rows: vec![] };
    let b3 = IngestBatch { table: "t".to_string(), rows: vec![row(3, &[])] };
    let rows = coalesce_rows(vec![b1, b2, b3]);
    let ts: Vec<i64> = rows.iter().map(|r| r.timestamp).collect();
    assert_eq!(ts, vec![1, 2, 3]);
}

#[test]
fn replies_follow_the_wal_outcome() {
    let ok = group_replies(&Ok(()), 3);
    assert_eq!(ok.len(), 3);
    assert!(ok.iter().all(|r| r.is_ok()));
    let err = group_replies(&Err("disk full".to_string()), 2);
    assert_eq!(err.len(), 2);
    for r in err {
        match r {
            Err(RutSeriError::Internal(m)) => assert_eq!(m, "disk full"),
            other => panic!("expected Internal, got {other:?}"),
        }
    }
}

#[test]
fn commit_group_inserts_and_decides_flush() {
    let mut s = ShardState::new(0, "metrics".to_string(), 2 * ROW_SIZE_ESTIMATE);
    let out = s.commit_group(vec![row(1, &[("host", "a")])], &Ok(()), 1);
    assert_eq!(out.replies.len(), 1);
    assert!(!out.flush);
    assert_eq!(s.memtable().len(), 1);

    let out = s.commit_group(vec![row(2, &[("host", "a")])], &Err("io".to_string()), 1);
    assert!(out.replies[0].is_err());
    assert_eq!(s.memtable().len(), 1);

    let out = s.commit_group(vec![row(3, &[("host", "a")])], &Ok(()), 2);
    assert!(out.flush);
    let snap = s.take_for_flush();
    assert_eq!(snap.data.len(), 2);
    assert_eq!(snap.table, "metrics");
    assert!(s.memtable().is_empty());
}
