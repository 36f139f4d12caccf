use rutseridb::common::types::PartMeta;
use rutseridb::storage::catalog::catalog::Catalog;

fn meta(id: u128, path: &str) -> PartMeta {
    PartMeta {
        id: id,
        path: path.to_string(),
        min_ts: 0,
        max_ts: 10,
        size_bytes: 100,
        row_count: 5,
        created_at: 1,
    }
}

#[test]
fn catalog_add_list_remove() {
    let mut c = Catalog::new();
    assert_eq!(c.version, 0);
    assert!(c.list_parts("metrics").is_empty());

    c.add_part("metrics", meta(1, "a.rpart"));
    c.add_part("metrics", meta(2, "b.rpart"));
    c.add_part("logs", meta(3, "c.rpart"));
    assert_eq!(c.version, 3);
    let parts = c.list_parts("metrics");
    assert_eq!(parts.len(), 2);
    assert_eq!(parts[0].path, "a.rpart");
    assert_eq!(parts[1].path, "b.rpart");

    c.remove_part("metrics", &1);
    assert_eq!(c.version, 4);
    let parts = c.list_parts("metrics");
    assert_eq!(parts.len(), 1);
    assert_eq!(parts[0].path, "b.rpart");
    assert_eq!(c.list_parts("logs").len(), 1);
}

#[test]
fn catalog_remove_from_unknown_table_keeps_version() {
    let mut c = Catalog::new();
    c.remove_part("nope", &1);
    assert_eq!(c.version, 0);
}

#[test]
fn catalog_remove_unknown_part_still_counts() {
    let mut c = Catalog::new();
    c.add_part("t", meta(1, "a"));
    c.remove_part("t", &99);
    assert_eq!(c.version, 2);
    assert_eq!(c.list_parts("t").len(), 1);
}

#[test]
fn catalog_inverted_lookup() {
    let mut c = Catalog::new();
    let p = 5;
    c.add_part("metrics", meta(5, "p"));
    c.update_inverted("metrics", p, vec![("host".to_string(), "web-01".to_string())]);
    assert_eq!(c.version, 2);
    assert_eq!(c.lookup_inverted("metrics", "host", "web-01"), vec![p]);
    assert!(c.lookup_inverted("metrics", "host", "web-02").is_empty());
    assert!(c.lookup_inverted("other", "host", "web-01").is_empty());
    // Removing the Part takes it out of every index list.
    c.add_part("metrics", meta(6, "q"));
    c.update_inverted("metrics", 6, vec![("host".to_string(), "web-01".to_string())]);
    c.remove_part("metrics", &p);
    assert_eq!(c.lookup_inverted("metrics", "host", "web-01"), vec![6]);
    c.remove_part("metrics", &6);
    assert!(c.lookup_inverted("metrics", "host", "web-01").is_empty());
}

#[test]
fn catalog_update_inverted_creates_table() {
    let mut c = Catalog::new();
    let p = 1;
    c.update_inverted("fresh", p, vec![]);
    assert_eq!(c.version, 1);
    assert!(c.list_parts("fresh").is_empty());
}
