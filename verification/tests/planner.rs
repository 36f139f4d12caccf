use rutseridb::common::types::PartMeta;
use rutseridb::query::ast::{AggFunc, Aggregation, Filter, LiteralValue, OrderBy, Projection, SelectQuery};
use rutseridb::query::planner::{
    build_plan, candidate_parts, extract_projected_columns, part_may_match, CandidateIndexes,
};
use rutseridb::storage::catalog::catalog::Catalog;
use rutseridb::storage::index::bloom::{BloomFilter, BloomFilterSet};
use rutseridb::storage::index::minmax::MinMaxIndex;

fn meta(id: u128, path: &str) -> PartMeta {
    PartMeta { id, path: path.to_string(), min_ts: 0, max_ts: 10, size_bytes: 100, row_count: 5, created_at: 1 }
}

fn query(projection: Vec<Projection>, filters: Vec<Filter>) -> SelectQuery {
    SelectQuery {
        table: "cpu".to_string(),
        projection,
        filters,
        group_by: vec![],
        aggregations: vec![],
        order_by: vec![],
        limit: None,
    }
}

fn eq(column: &str, value: &str) -> Filter {
    Filter::Equals { column: column.to_string(), value: LiteralValue::Str(value.to_string()) }
}

fn ids(parts: &[PartMeta]) -> Vec<u128> {
    parts.iter().map(|p| p.id).collect()
}

#[test]
fn projected_columns_in_order_of_first_mention() {
    let mut q = query(
        vec![
            Projection::Column("host".to_string()),
            Projection::Agg(Aggregation { func: AggFunc::Mean, column: "usage".to_string(), alias: None }),
        ],
        vec![eq("region", "eu"), Filter::GreaterThan { column: "usage".to_string(), value: LiteralValue::Int(5), inclusive: false }],
    );
    q.group_by = vec!["host".to_string(), "dc".to_string()];
    q.order_by = vec![OrderBy { column: "timestamp".to_string(), descending: true }];
    assert_eq!(extract_projected_columns(&q), vec!["host", "usage", "region", "dc", "timestamp"]);
}

#[test]
fn projected_columns_empty_for_wildcard_or_empty_projection() {
    let q = query(vec![Projection::Column("host".to_string()), Projection::Star], vec![eq("region", "eu")]);
    assert!(extract_projected_columns(&q).is_empty());
    let q = query(vec![], vec![eq("region", "eu")]);
    assert!(extract_projected_columns(&q).is_empty());
}

#[test]
fn inverted_stage_keeps_indexed_parts() {
    let mut c = Catalog::new();
    c.add_part("cpu", meta(1, "a.rpart"));
    c.add_part("cpu", meta(2, "b.rpart"));
    c.add_part("cpu", meta(3, "c.rpart"));
    c.update_inverted("cpu", 1, vec![("host".to_string(), "web-01".to_string())]);
    c.update_inverted("cpu", 2, vec![("host".to_string(), "web-02".to_string())]);
    c.update_inverted("cpu", 3, vec![("host".to_string(), "web-01".to_string())]);

    assert_eq!(ids(&candidate_parts(&query(vec![], vec![eq("host", "web-01")]), &c)), vec![1, 3]);
    assert_eq!(ids(&candidate_parts(&query(vec![], vec![eq("host", "web-03")]), &c)), Vec::<u128>::new());
    // A column the index does not hold restricts nothing here.
    assert_eq!(ids(&candidate_parts(&query(vec![], vec![eq("region", "eu")]), &c)), vec![1, 2, 3]);
    // Non-string equality restricts nothing here.
    let f = Filter::Equals { column: "host".to_string(), value: LiteralValue::Int(1) };
    assert_eq!(ids(&candidate_parts(&query(vec![], vec![f]), &c)), vec![1, 2, 3]);
    // Two filters on the same key with different values: no Part holds both.
    let q = query(vec![], vec![eq("host", "web-01"), eq("host", "web-02")]);
    assert!(candidate_parts(&q, &c).is_empty());
}

#[test]
fn inverted_stage_unknown_table_and_removed_part() {
    let mut c = Catalog::new();
    assert!(candidate_parts(&query(vec![], vec![]), &c).is_empty());
    c.add_part("cpu", meta(1, "a.rpart"));
    c.add_part("cpu", meta(2, "b.rpart"));
    c.update_inverted("cpu", 1, vec![("host".to_string(), "web-01".to_string())]);
    c.remove_part("cpu", &1);
    assert_eq!(ids(&candidate_parts(&query(vec![], vec![]), &c)), vec![2]);
    assert!(candidate_parts(&query(vec![], vec![eq("host", "web-01")]), &c).is_empty());
}

#[test]
fn minmax_stage_prunes_disjoint_ranges() {
    let mut mm = MinMaxIndex::new();
    mm.add_entry(0, "timestamp".to_string(), 100, 200);
    let gt = |v: i64| Filter::GreaterThan { column: "timestamp".to_string(), value: LiteralValue::Int(v), inclusive: true };
    let lt = |v: i64| Filter::LessThan { column: "timestamp".to_string(), value: LiteralValue::Int(v), inclusive: false };
    assert!(part_may_match(&query(vec![], vec![gt(150)]), &mm, &None));
    assert!(part_may_match(&query(vec![], vec![gt(200)]), &mm, &None));
    assert!(!part_may_match(&query(vec![], vec![gt(201)]), &mm, &None));
    assert!(!part_may_match(&query(vec![], vec![lt(99)]), &mm, &None));
    assert!(part_may_match(&query(vec![], vec![lt(100)]), &mm, &None));
    let between = |lo: i64, hi: i64| Filter::Between {
        column: "timestamp".to_string(),
        low: LiteralValue::Int(lo),
        high: LiteralValue::Int(hi),
    };
    assert!(part_may_match(&query(vec![], vec![between(0, 100)]), &mm, &None));
    assert!(!part_may_match(&query(vec![], vec![between(201, 300)]), &mm, &None));
    // A column the index does not cover is never pruned.
    let other = Filter::GreaterThan { column: "usage".to_string(), value: LiteralValue::Int(1000), inclusive: true };
    assert!(part_may_match(&query(vec![], vec![other]), &mm, &None));
    // A string range has no code and prunes nothing.
    let s = Filter::GreaterThan { column: "timestamp".to_string(), value: LiteralValue::Str("zzz".to_string()), inclusive: true };
    assert!(part_may_match(&query(vec![], vec![s]), &mm, &None));
}

#[test]
fn bloom_stage_prunes_definite_misses() {
    let mut f = BloomFilter::with_size("host".to_string(), 128, 4);
    f.insert(b"web-01");
    let mut set = BloomFilterSet::new();
    set.add(f);
    let bloom = Some(set);
    let mm = MinMaxIndex::new();
    assert!(part_may_match(&query(vec![], vec![eq("host", "web-01")]), &mm, &bloom));
    // With a single value in a 1024-bit filter, other values' probes miss.
    let misses = ["db-07", "cache-3", "zzz"].iter().any(|v| !part_may_match(&query(vec![], vec![eq("host", v)]), &mm, &bloom));
    assert!(misses);
    // No filter for the column, or no Bloom section: nothing is pruned.
    assert!(part_may_match(&query(vec![], vec![eq("region", "eu")]), &mm, &bloom));
    assert!(part_may_match(&query(vec![], vec![eq("host", "db-07")]), &mm, &None));
}

#[test]
fn build_plan_keeps_admitted_candidates_in_order() {
    let mut narrow = MinMaxIndex::new();
    narrow.add_entry(0, "timestamp".to_string(), 0, 10);
    let mut wide = MinMaxIndex::new();
    wide.add_entry(0, "timestamp".to_string(), 0, 1000);
    let cands = vec![
        CandidateIndexes { path: "/d/a.rpart".to_string(), meta: meta(1, "a.rpart"), minmax: wide.clone(), bloom: None },
        CandidateIndexes { path: "/d/b.rpart".to_string(), meta: meta(2, "b.rpart"), minmax: narrow, bloom: None },
        CandidateIndexes { path: "/d/c.rpart".to_string(), meta: meta(3, "c.rpart"), minmax: wide, bloom: None },
    ];
    let q = query(
        vec![Projection::Column("usage".to_string())],
        vec![Filter::GreaterThan { column: "timestamp".to_string(), value: LiteralValue::Int(500), inclusive: true }],
    );
    let plan = build_plan(q, cands);
    assert!(plan.scan_memtable);
    assert_eq!(plan.query.table, "cpu");
    assert_eq!(plan.parts_to_scan.len(), 2);
    assert_eq!(plan.parts_to_scan[0].path, "/d/a.rpart");
    assert_eq!(plan.parts_to_scan[1].meta.id, 3);
    assert_eq!(plan.parts_to_scan[1].projected_columns, vec!["usage", "timestamp"]);
}
