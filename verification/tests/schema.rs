use rutseridb::common::schema::{ColumnDef, ColumnType, CompressionType, TableSchema};

fn col(name: &str, t: ColumnType) -> ColumnDef {
    ColumnDef { name: name.to_string(), col_type: t, nullable: false }
}

fn schema() -> TableSchema {
    TableSchema {
        name: "metrics".to_string(),
        columns: vec![
            col("timestamp", ColumnType::Timestamp),
            col("host", ColumnType::Tag),
            col("cpu", ColumnType::FieldFloat),
            col("region", ColumnType::Tag),
            col("up", ColumnType::FieldBool),
        ],
        primary_tags: vec!["host".to_string()],
        partition_duration: "1h".to_string(),
        compression: CompressionType::default(),
    }
}

#[test]
fn column_lookup() {
    let s = schema();
    assert_eq!(s.column("cpu").unwrap().col_type, ColumnType::FieldFloat);
    assert!(s.column("memory").is_none());
}

#[test]
fn tag_and_field_columns() {
    let s = schema();
    let tags: Vec<&str> = s.tag_columns().iter().map(|c| c.name.as_str()).collect();
    assert_eq!(tags, vec!["host", "region"]);
    let fields: Vec<&str> = s.field_columns().iter().map(|c| c.name.as_str()).collect();
    assert_eq!(fields, vec!["cpu", "up"]);
}

#[test]
fn default_compression_is_lz4() {
    assert_eq!(CompressionType::default(), CompressionType::Lz4);
}
