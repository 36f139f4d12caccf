//! Table schema definitions.
//!
//! A `TableSchema` describes the structure of a time-series table: which
//! tags exist, which fields exist and their types, and which tags are used
//! for shard key computation (primary tags).
use vstd::prelude::*;

verus! {

/// The type of a column in a table; it maps to the `col_type` field of a
/// Part's column header.
#[derive(Debug, Clone, Copy, PartialEq, Eq, Structural)]
pub enum ColumnType {
    /// The timestamp column (always present, always first).
    Timestamp,
    /// A string tag column (low cardinality, used for filtering).
    Tag,
    /// A 64-bit floating point field.
    FieldFloat,
    /// A 64-bit signed integer field.
    FieldInt,
    /// A boolean field.
    FieldBool,
    /// A variable-length string field.
    FieldStr,
}

/// Definition of a single column in a table.
#[derive(Debug, Clone)]
pub struct ColumnDef {
    /// Column name (e.g. "host", "cpu", "temperature").
    pub name: String,
    /// Column type.
    pub col_type: ColumnType,
    /// Whether this column can contain null values.
    pub nullable: bool,
}

/// Supported compression algorithms for Part column blocks.
#[derive(Debug, Clone, Copy, PartialEq, Eq, Structural)]
pub enum CompressionType {
    /// Blocks are stored as they are.
    Uncompressed,
    Lz4,
    Zstd,
}

impl Default for CompressionType {
    /// LZ4 is the default compression.
    fn default() -> (r: CompressionType)
        ensures
            r == CompressionType::Lz4,
    {
        CompressionType::Lz4
    }
}

/// Schema of a time-series table, immutable once created.
#[derive(Debug, Clone)]
pub struct TableSchema {
    /// Table name (unique within the database).
    pub name: String,
    /// Ordered list of columns; the first is always `timestamp`.
    pub columns: Vec<ColumnDef>,
    /// Names of the tag columns used for shard key computation, sorted
    /// alphabetically; every write must carry them.
    pub primary_tags: Vec<String>,
    /// Time-based partitioning duration (e.g. "1h").
    pub partition_duration: String,
    /// Compression algorithm for this table's Part files.
    pub compression: CompressionType,
}

/// Tag columns.
pub open spec fn is_tag_type(t: ColumnType) -> bool {
    t == ColumnType::Tag
}

/// Field columns: neither the timestamp nor a tag.
pub open spec fn is_field_type(t: ColumnType) -> bool {
    t != ColumnType::Timestamp && t != ColumnType::Tag
}

/// The columns of `cols` whose type satisfies `keep`, in order.
pub open spec fn columns_where(cols: Seq<ColumnDef>, keep: spec_fn(ColumnType) -> bool) -> Seq<ColumnDef>
    decreases cols.len(),
{
    if cols.len() == 0 {
        Seq::empty()
    } else {
        let rest = columns_where(cols.drop_last(), keep);
        if keep(cols.last().col_type) {
            rest.push(cols.last())
        } else {
            rest
        }
    }
}

impl TableSchema {
    /// The first column named `name`, if any.
    pub fn column(&self, name: &str) -> (r: Option<&ColumnDef>)
        ensures
            match r {
                Some(c) => exists|i: int|
                    0 <= i < self.columns@.len() && self.columns@[i].name@ == name@ && *c
                        == self.columns@[i] && forall|j: int|
                        0 <= j < i ==> (#[trigger] self.columns@[j]).name@ != name@,
                None => forall|j: int|
                    0 <= j < self.columns@.len() ==> (#[trigger] self.columns@[j]).name@ != name@,
            },
    {
        let n = self.columns.len();
        let mut i: usize = 0;
        while i < n
            invariant
                n == self.columns@.len(),
                0 <= i <= n,
                forall|j: int| 0 <= j < i ==> (#[trigger] self.columns@[j]).name@ != name@,
            decreases n - i,
        {
            if self.columns[i].name.as_str().eq(name) {
                return Some(&self.columns[i]);
            }
            i = i + 1;
        }
        None
    }

    /// The columns whose type satisfies `keep`, in order.
    fn columns_matching(&self, tags: bool) -> (r: Vec<&ColumnDef>)
        ensures
            r@.len() == columns_where(
                self.columns@,
                if tags {
                    |t: ColumnType| is_tag_type(t)
                } else {
                    |t: ColumnType| is_field_type(t)
                },
            ).len(),
            forall|i: int|
                0 <= i < r@.len() ==> *(#[trigger] r@[i]) == columns_where(
                    self.columns@,
                    if tags {
                        |t: ColumnType| is_tag_type(t)
                    } else {
                        |t: ColumnType| is_field_type(t)
                    },
                )[i],
    {
        let ghost keep = if tags {
            |t: ColumnType| is_tag_type(t)
        } else {
            |t: ColumnType| is_field_type(t)
        };
        let mut out: Vec<&ColumnDef> = Vec::new();
        let n = self.columns.len();
        let mut i: usize = 0;
        while i < n
            invariant
                n == self.columns@.len(),
                0 <= i <= n,
                keep == (if tags {
                    |t: ColumnType| is_tag_type(t)
                } else {
                    |t: ColumnType| is_field_type(t)
                }),
                out@.len() == columns_where(self.columns@.subrange(0, i as int), keep).len(),
                forall|j: int|
                    0 <= j < out@.len() ==> *(#[trigger] out@[j]) == columns_where(
                        self.columns@.subrange(0, i as int),
                        keep,
                    )[j],
            decreases n - i,
        {
            let c = &self.columns[i];
            let is_tag = match c.col_type {
                ColumnType::Tag => true,
                _ => false,
            };
            let is_field = match c.col_type {
                ColumnType::Timestamp => false,
                ColumnType::Tag => false,
                _ => true,
            };
            proof {
                let s = self.columns@.subrange(0, i + 1);
                assert(s.drop_last() =~= self.columns@.subrange(0, i as int));
                assert(s.last() == *c);
            }
            if (tags && is_tag) || (!tags && is_field) {
                out.push(c);
            }
            i = i + 1;
        }
        proof {
            assert(self.columns@.subrange(0, n as int) =~= self.columns@);
        }
        out
    }

    /// All tag columns, in schema order.
    pub fn tag_columns(&self) -> (r: Vec<&ColumnDef>)
        ensures
            r@.len() == columns_where(self.columns@, |t: ColumnType| is_tag_type(t)).len(),
            forall|i: int|
                0 <= i < r@.len() ==> *(#[trigger] r@[i]) == columns_where(
                    self.columns@,
                    |t: ColumnType| is_tag_type(t),
                )[i],
    {
        self.columns_matching(true)
    }

    /// All field columns (neither the timestamp nor a tag), in schema order.
    pub fn field_columns(&self) -> (r: Vec<&ColumnDef>)
        ensures
            r@.len() == columns_where(self.columns@, |t: ColumnType| is_field_type(t)).len(),
            forall|i: int|
                0 <= i < r@.len() ==> *(#[trigger] r@[i]) == columns_where(
                    self.columns@,
                    |t: ColumnType| is_field_type(t),
                )[i],
    {
        self.columns_matching(false)
    }
}

} // verus!
