use rutseridb::common::shard_key::compute_shard_key;
use std::collections::BTreeMap;

#[test]
fn test_deterministic_shard_key() {
    let mut tags = BTreeMap::new();
    tags.insert("host".to_string(), "web-01".to_string());
    tags.insert("region".to_string(), "us-east".to_string());

    let primary = vec!["host".to_string(), "region".to_string()];

    let shard1 = compute_shard_key(&tags, &primary, 8);
    let shard2 = compute_shard_key(&tags, &primary, 8);

    assert_eq!(shard1, shard2, "Same tags must produce same shard");
    assert!(shard1 < 8, "Shard must be in [0, num_shards)");
}

#[test]
fn test_different_tags_may_differ() {
    let primary = vec!["host".to_string()];

    let mut tags_a = BTreeMap::new();
    tags_a.insert("host".to_string(), "web-01".to_string());

    let mut tags_b = BTreeMap::new();
    tags_b.insert("host".to_string(), "db-01".to_string());

    let shard_a = compute_shard_key(&tags_a, &primary, 64);
    let shard_b = compute_shard_key(&tags_b, &primary, 64);

    assert!(shard_a < 64);
    assert!(shard_b < 64);
}

#[test]
fn shard_key_ignores_non_primary_tags() {
    let primary = vec!["host".to_string()];
    let mut a = BTreeMap::new();
    a.insert("host".to_string(), "web-01".to_string());
    a.insert("region".to_string(), "us-east".to_string());
    let mut b = BTreeMap::new();
    b.insert("host".to_string(), "web-01".to_string());
    b.insert("region".to_string(), "eu-west".to_string());
    assert_eq!(compute_shard_key(&a, &primary, 16), compute_shard_key(&b, &primary, 16));
}

#[test]
fn shard_key_single_shard_is_zero() {
    let primary = vec!["host".to_string()];
    let mut a = BTreeMap::new();
    a.insert("host".to_string(), "anything".to_string());
    assert_eq!(compute_shard_key(&a, &primary, 1), 0);
}
