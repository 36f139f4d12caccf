use rutseridb::common::error::RutSeriError;
use rutseridb::storage::index::bloom::{BloomFilter, BloomFilterSet};
use rutseridb::storage::index::inverted::{lookup, merge_entries, remove_part, InvertedIndex};
use rutseridb::common::strmap::StrMap;
use rutseridb::storage::index::minmax::MinMaxIndex;

#[test]
fn minmax_range_checks() {
    let mut idx = MinMaxIndex::new();
    idx.add_entry(0, "timestamp".to_string(), 100, 200);
    assert!(idx.may_contain_range("timestamp", 150, 160));
    assert!(idx.may_contain_range("timestamp", 50, 100));
    assert!(idx.may_contain_range("timestamp", 200, 300));
    assert!(!idx.may_contain_range("timestamp", 201, 300));
    assert!(!idx.may_contain_range("timestamp", 0, 99));
    // An unindexed column cannot be pruned.
    assert!(idx.may_contain_range("cpu", 0, 1));
}

#[test]
fn minmax_roundtrip() {
    let mut idx = MinMaxIndex::new();
    idx.add_entry(0, "timestamp".to_string(), 1, 2);
    idx.add_entry(3, "cpu".to_string(), u64::MAX - 1, u64::MAX);
    let bytes = idx.to_bytes();
    assert_eq!(bytes.len(), 36);
    assert_eq!(&bytes[0..2], &[0, 0]);
    let back = MinMaxIndex::from_bytes(&bytes, 2).unwrap();
    assert_eq!(back.entries.len(), 2);
    assert_eq!((back.entries[1].col_idx, back.entries[1].min_val, back.entries[1].max_val), (3, u64::MAX - 1, u64::MAX));
}

#[test]
fn minmax_truncated_input() {
    assert!(matches!(MinMaxIndex::from_bytes(&[0u8; 17], 1), Err(RutSeriError::InvalidPartFile(_))));
}

#[test]
fn bloom_no_false_negatives() {
    let mut f = BloomFilter::with_size("host".to_string(), 128, 4);
    let values: Vec<String> = (0..50).map(|i| format!("host-{i}")).collect();
    for v in &values {
        f.insert(v.as_bytes());
    }
    for v in &values {
        assert!(f.may_contain(v.as_bytes()));
    }
}

#[test]
fn bloom_empty_filter_contains_nothing() {
    let f = BloomFilter::with_size("host".to_string(), 16, 3);
    assert!(!f.may_contain(b"anything"));
}

#[test]
fn bloom_roundtrip() {
    let mut f = BloomFilter::with_size("host".to_string(), 32, 5);
    f.insert(b"a");
    let bytes = f.to_bytes();
    assert_eq!(&bytes[0..4], &5u32.to_le_bytes());
    assert_eq!(bytes.len(), 36);
    let back = BloomFilter::from_bytes("host".to_string(), &bytes).unwrap();
    assert!(back.may_contain(b"a"));
    assert_eq!(back.to_bytes(), bytes);
}

#[test]
fn bloom_from_short_bytes() {
    assert!(matches!(BloomFilter::from_bytes("x".to_string(), &[1, 2, 3]), Err(RutSeriError::InvalidPartFile(_))));
}

#[test]
fn bloom_set_roundtrip_and_lookup() {
    let mut set = BloomFilterSet::new();
    let mut a = BloomFilter::with_size("host".to_string(), 8, 2);
    a.insert(b"web-01");
    set.add(a);
    set.add(BloomFilter::with_size("region".to_string(), 8, 2));
    let bytes = set.to_bytes();
    let back = BloomFilterSet::from_bytes(&bytes).unwrap();
    assert_eq!(back.filters.len(), 2);
    assert_eq!(back.filters[1].col_name, "region");
    assert!(back.get("host").unwrap().may_contain(b"web-01"));
    assert!(back.get("missing").is_none());
}

#[test]
fn inverted_merge_lookup_remove() {
    let mut idx: InvertedIndex = StrMap::new();
    let p1 = 1;
    let p2 = 2;
    merge_entries(&mut idx, p1, vec![("host".to_string(), "web-01".to_string()), ("region".to_string(), "us".to_string())]);
    merge_entries(&mut idx, p2, vec![("host".to_string(), "web-01".to_string())]);
    assert_eq!(lookup(&idx, "host", "web-01"), vec![p1, p2]);
    assert_eq!(lookup(&idx, "region", "us"), vec![p1]);
    assert!(lookup(&idx, "host", "db-01").is_empty());
    assert!(lookup(&idx, "zone", "a").is_empty());

    remove_part(&mut idx, &p1);
    assert_eq!(lookup(&idx, "host", "web-01"), vec![p2]);
    assert!(lookup(&idx, "region", "us").is_empty());
}

#[test]
fn inverted_merge_repeated_pair_appends_twice() {
    let mut idx: InvertedIndex = StrMap::new();
    let p = 9;
    merge_entries(&mut idx, p, vec![("k".to_string(), "v".to_string()), ("k".to_string(), "v".to_string())]);
    assert_eq!(lookup(&idx, "k", "v"), vec![p, p]);
}

use rutseridb::common::types::{FieldValue, Row};
use rutseridb::storage::index::inverted::collect_tag_pairs;
use std::collections::BTreeMap;

fn tagged(tags: &[(&str, &str)]) -> Row {
    Row {
        timestamp: 0,
        tags: tags.iter().map(|(k, v)| (k.to_string(), v.to_string())).collect(),
        fields: BTreeMap::from([("x".to_string(), FieldValue::Int(1))]),
    }
}

#[test]
fn collect_distinct_tag_pairs() {
    let rows = vec![
        tagged(&[("region", "us"), ("host", "a")]),
        tagged(&[("host", "a")]),
        tagged(&[("host", "b"), ("region", "us")]),
    ];
    let pairs = collect_tag_pairs(&rows);
    let expected: Vec<(String, String)> = [("host", "a"), ("region", "us"), ("host", "b")]
        .iter()
        .map(|(k, v)| (k.to_string(), v.to_string()))
        .collect();
    assert_eq!(pairs, expected);
    assert!(collect_tag_pairs(&[]).is_empty());
}

#[test]
fn indexing_a_part_finds_it_by_each_pair() {
    let rows = vec![tagged(&[("host", "a"), ("dc", "1")]), tagged(&[("host", "b")])];
    let mut idx: InvertedIndex = StrMap::new();
    let p = 77;
    merge_entries(&mut idx, p, collect_tag_pairs(&rows));
    assert_eq!(lookup(&idx, "host", "a"), vec![p]);
    assert_eq!(lookup(&idx, "host", "b"), vec![p]);
    assert_eq!(lookup(&idx, "dc", "1"), vec![p]);
}
