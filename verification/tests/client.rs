use rutseridb::client::{normalize_base_url, reply_outcome, request_failure};
use rutseridb::client::query::QueryBuilder;
use rutseridb::client::write::{BatchBuilder, RowBuilder, WriteBuilder};
use rutseridb::common::error::RutSeriError;
use rutseridb::common::text::{decimal_string, escape_sql_string};
use rutseridb::common::types::FieldValue;

#[test]
fn escape_doubles_quotes() {
    assert_eq!(escape_sql_string("it's"), "it''s");
    assert_eq!(escape_sql_string("''"), "''''");
    assert_eq!(escape_sql_string("plain"), "plain");
    assert_eq!(escape_sql_string("é'ü"), "é''ü");
}

#[test]
fn decimal_text() {
    assert_eq!(decimal_string(0), "0");
    assert_eq!(decimal_string(1_700_000_000), "1700000000");
    assert_eq!(decimal_string(u64::MAX), "18446744073709551615");
}

#[test]
fn select_star_by_default() {
    let q = QueryBuilder::new("metrics".to_string());
    assert_eq!(q.build_sql(), "SELECT * FROM metrics");
}

#[test]
fn full_query() {
    let q = QueryBuilder::new("metrics".to_string())
        .select(&["cpu_usage", "memory_mb"])
        .where_tag("host", "web-01")
        .where_tag_ne("region", "o'hare")
        .time_range(-5, 1_700_000_000_000_000_000)
        .order_by_time_desc()
        .limit(100);
    assert_eq!(
        q.build_sql(),
        "SELECT cpu_usage, memory_mb FROM metrics WHERE host = 'web-01' AND region != 'o''hare' \
AND timestamp >= -5 AND timestamp <= 1700000000000000000 ORDER BY timestamp DESC LIMIT 100"
    );
}

#[test]
fn aggregate_and_group() {
    let q = QueryBuilder::new("metrics".to_string())
        .select(&["ignored"])
        .mean("cpu")
        .where_tag_regex("host", "web-.*")
        .time_after(10)
        .time_before(i64::MIN)
        .group_by_time("5m")
        .order_by_time_asc();
    assert_eq!(
        q.build_sql(),
        "SELECT mean(cpu) FROM metrics WHERE host =~ 'web-.*' AND timestamp > 10 AND timestamp < -9223372036854775808 \
GROUP BY time(5m) ORDER BY timestamp ASC"
    );
}

#[test]
fn aggregate_shorthands() {
    for (q, f) in [
        (QueryBuilder::new("t".to_string()).sum("x"), "sum"),
        (QueryBuilder::new("t".to_string()).count("x"), "count"),
        (QueryBuilder::new("t".to_string()).min("x"), "min"),
        (QueryBuilder::new("t".to_string()).max("x"), "max"),
        (QueryBuilder::new("t".to_string()).aggregate("stddev", "x"), "stddev"),
    ] {
        assert_eq!(q.build_sql(), format!("SELECT {f}(x) FROM t"));
    }
}

#[test]
fn raw_sql_bypasses_builder() {
    let q = QueryBuilder::raw("SELECT mean(cpu) FROM metrics".to_string()).limit(3);
    assert_eq!(q.build_sql(), "SELECT mean(cpu) FROM metrics");
}

#[test]
fn raw_where_clause() {
    let q = QueryBuilder::new("t".to_string()).where_raw("cpu > 50.5".to_string());
    assert_eq!(q.build_sql(), "SELECT * FROM t WHERE cpu > 50.5");
}

#[test]
fn base_url_trailing_slashes() {
    assert_eq!(normalize_base_url("http://localhost:4000/"), "http://localhost:4000");
    assert_eq!(normalize_base_url("http://localhost:4000//"), "http://localhost:4000");
    assert_eq!(normalize_base_url("http://localhost:4000"), "http://localhost:4000");
    assert_eq!(normalize_base_url("///"), "");
}

#[test]
fn write_builder_batch() {
    let b = WriteBuilder::new("metrics".to_string())
        .tag("host", "web-01")
        .tag("host", "web-02")
        .field("cpu", 90.5f64.to_bits())
        .field_int("memory_mb", 4096)
        .field_bool("up", true)
        .field_str("note", "ok")
        .timestamp(1_700_000_000_000_000_000)
        .into_batch()
        .unwrap();
    assert_eq!(b.table, "metrics");
    assert_eq!(b.rows.len(), 1);
    let r = &b.rows[0];
    assert_eq!(r.timestamp, 1_700_000_000_000_000_000);
    assert_eq!(r.tags["host"], "web-02");
    assert!(matches!(r.fields["cpu"], FieldValue::Float(bits) if f64::from_bits(bits) == 90.5));
    assert!(matches!(r.fields["memory_mb"], FieldValue::Int(4096)));
    assert!(matches!(r.fields["up"], FieldValue::Bool(true)));
    assert!(matches!(&r.fields["note"], FieldValue::Str(s) if s == "ok"));
}

#[test]
fn write_builder_needs_a_field() {
    match WriteBuilder::new("m".to_string()).tag("a", "b").into_batch() {
        Err(RutSeriError::Ingest(m)) => assert_eq!(m, "Write must have at least one field"),
        other => panic!("expected Ingest error, got {other:?}"),
    }
}

#[test]
fn write_builder_stamps_now() {
    let b = WriteBuilder::new("m".to_string()).field_int("x", 1).into_batch_at(77).unwrap();
    assert_eq!(b.rows[0].timestamp, 77);
    let b = WriteBuilder::new("m".to_string()).field_int("x", 1).timestamp_now().into_batch().unwrap();
    assert!(b.rows[0].timestamp > 1_600_000_000_000_000_000);
}

#[test]
fn batch_builder() {
    let empty = BatchBuilder::new("m".to_string());
    assert!(empty.is_empty());
    match empty.into_batch() {
        Err(RutSeriError::Ingest(m)) => assert_eq!(m, "Batch must have at least one row"),
        other => panic!("expected Ingest error, got {other:?}"),
    }
    let b = BatchBuilder::new("m".to_string())
        .add_row(RowBuilder::new().tag("host", "a").field("cpu", 1.5f64.to_bits()).timestamp(1).build())
        .add_row(RowBuilder::new().field_int("x", 2).build_at(5));
    assert_eq!(b.len(), 2);
    let batch = b.into_batch().unwrap();
    assert_eq!(batch.rows[0].timestamp, 1);
    assert_eq!(batch.rows[1].timestamp, 5);
    assert_eq!(batch.rows[0].tags["host"], "a");
}

#[test]
fn reply_outcome_success_and_failure() {
    assert!(reply_outcome("Write", 200, "OK", "").is_ok());
    assert!(reply_outcome("Write", 204, "No Content", "").is_ok());
    match reply_outcome("Write", 400, "Bad Request", "Unknown table: cpu") {
        Err(RutSeriError::Internal(m)) => assert_eq!(m, "Write failed (400 Bad Request): Unknown table: cpu"),
        other => panic!("expected Internal, got {other:?}"),
    }
    match reply_outcome("Query", 503, "Service Unavailable", "busy") {
        Err(RutSeriError::Internal(m)) => assert_eq!(m, "Query failed (503 Service Unavailable): busy"),
        other => panic!("expected Internal, got {other:?}"),
    }
    assert!(reply_outcome("Query", 302, "Found", "").is_err());
}

#[test]
fn request_failure_text() {
    match request_failure("Query", 404, "Not Found", "no such table") {
        RutSeriError::Internal(m) => assert_eq!(m, "Query failed (404 Not Found): no such table"),
        other => panic!("expected Internal, got {other:?}"),
    }
}
