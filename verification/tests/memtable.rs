use rutseridb::common::types::{FieldValue, Row};
use rutseridb::storage::memtable::memtable::{compute_tag_hash, MemTable, ROW_SIZE_ESTIMATE};
use std::collections::BTreeMap;

#[test]
fn test_insert_and_size() {
    let mut mt = MemTable::new("test_table".to_string());
    assert!(mt.is_empty());
    assert_eq!(mt.size_bytes(), 0);

    let row = Row {
        timestamp: 1_000_000_000,
        tags: BTreeMap::from([("host".to_string(), "web-01".to_string())]),
        fields: BTreeMap::from([("cpu".to_string(), FieldValue::Float(42.0f64.to_bits()))]),
    };

    mt.insert(vec![row]);
    assert_eq!(mt.len(), 1);
    assert!(mt.size_bytes() > 0);
}

#[test]
fn test_snapshot_is_independent() {
    let mut mt = MemTable::new("test_table".to_string());
    let row = Row {
        timestamp: 1,
        tags: BTreeMap::new(),
        fields: BTreeMap::new(),
    };

    mt.insert(vec![row]);
    let snap = mt.snapshot();

    mt.clear();
    assert!(mt.is_empty());
    assert_eq!(snap.data.len(), 1);
}

fn row(ts: i64, host: &str, cpu: i64) -> Row {
    Row {
        timestamp: ts,
        tags: BTreeMap::from([("host".to_string(), host.to_string())]),
        fields: BTreeMap::from([("cpu".to_string(), FieldValue::Int(cpu))]),
    }
}

#[test]
fn memtable_last_write_wins() {
    let mut mt = MemTable::new("t".to_string());
    mt.insert(vec![row(5, "a", 1), row(5, "a", 2)]);
    assert_eq!(mt.len(), 1);
    assert_eq!(mt.size_bytes(), 2 * ROW_SIZE_ESTIMATE);
    let snap = mt.snapshot();
    let key = (5i64, compute_tag_hash(&row(5, "a", 0).tags));
    match &snap.data.get(&key).unwrap().fields["cpu"] {
        FieldValue::Int(v) => assert_eq!(*v, 2),
        _ => panic!("wrong field type"),
    }
}

#[test]
fn memtable_distinct_series_kept_apart() {
    let mut mt = MemTable::new("t".to_string());
    mt.insert(vec![row(5, "a", 1), row(5, "b", 2), row(6, "a", 3)]);
    assert_eq!(mt.len(), 3);
    assert_eq!(mt.size_bytes(), 3 * ROW_SIZE_ESTIMATE);
    assert_eq!(snapshot_table(&mt), "t");
}

fn snapshot_table(mt: &MemTable) -> String {
    mt.snapshot().table
}

#[test]
fn tag_hash_ignores_insertion_order() {
    let mut a = BTreeMap::new();
    a.insert("x".to_string(), "1".to_string());
    a.insert("y".to_string(), "2".to_string());
    let mut b = BTreeMap::new();
    b.insert("y".to_string(), "2".to_string());
    b.insert("x".to_string(), "1".to_string());
    assert_eq!(compute_tag_hash(&a), compute_tag_hash(&b));
}
