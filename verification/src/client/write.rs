//! Write builders: a fluent API for time-series writes.
//!
//! `WriteBuilder` builds a single row and `BatchBuilder` collects several;
//! both turn into the `IngestBatch` that the server's write endpoint takes.
//! `RowBuilder` builds one row of a batch. A row without an explicit
//! timestamp takes the current time when it is built.
use crate::common::error::RutSeriError;
use crate::common::types::{map_insert, FieldMap, FieldValue, IngestBatch, Row, TagSet, Timestamp};
use std::collections::BTreeMap;
use vstd::prelude::*;

verus! {

broadcast use {vstd::std_specs::btree::group_btree_axioms, vstd::std_specs::btree::lemma_btree_map_deepview_dom};

/// The current system time in nanoseconds since the Unix epoch
/// (`SystemTime::now`; zero when the clock reads before the epoch).
/// Nothing is stated of the value: it is the clock's.
#[verifier::external_body]
fn now_nanos() -> (r: Timestamp) {
    std::time::SystemTime::now().duration_since(std::time::UNIX_EPOCH).unwrap_or_default().as_nanos() as i64
}

/// What a row under construction holds.
pub struct RowView {
    /// Tag key → tag value.
    pub tags: Map<Seq<char>, Seq<char>>,
    /// Field name → value.
    pub fields: Map<Seq<char>, FieldValue>,
    /// Explicit timestamp, if one was set.
    pub timestamp: Option<Timestamp>,
}

/// The row that `v` becomes when built at time `now`.
pub open spec fn row_matches(row: Row, v: RowView, now: Timestamp) -> bool {
    &&& row.tags.deep_view() == v.tags
    &&& row.fields.deep_view() == v.fields
    &&& row.timestamp == match v.timestamp {
        Some(ts) => ts,
        None => now,
    }
}

/// The message of a write without fields.
pub open spec fn no_field_message() -> Seq<char> {
    "Write must have at least one field"@
}

/// The message of a batch without rows.
pub open spec fn no_row_message() -> Seq<char> {
    "Batch must have at least one row"@
}

/// Builder for a single time-series write to a table.
pub struct WriteBuilder {
    table: String,
    tags: TagSet,
    fields: FieldMap,
    timestamp: Option<Timestamp>,
}

impl WriteBuilder {
    /// The target table.
    pub closed spec fn table_name(&self) -> Seq<char> {
        self.table@
    }

    /// The row being built.
    pub closed spec fn row_view(&self) -> RowView {
        RowView {
            tags: self.tags.deep_view(),
            fields: self.fields.deep_view(),
            timestamp: self.timestamp,
        }
    }

    /// A write to `table`, with no tags, no fields and no timestamp.
    pub fn new(table: String) -> (r: WriteBuilder)
        ensures
            r.table_name() == table@,
            r.row_view() == (RowView { tags: Map::empty(), fields: Map::empty(), timestamp: None }),
    {
        let r = WriteBuilder { table, tags: BTreeMap::new(), fields: BTreeMap::new(), timestamp: None };
        proof {
            assert(r.tags@.dom().map(|k: String| k.deep_view()) =~= Set::empty());
            assert(r.fields@.dom().map(|k: String| k.deep_view()) =~= Set::empty());
            assert(r.tags.deep_view() =~= Map::empty());
            assert(r.fields.deep_view() =~= Map::empty());
        }
        r
    }

    /// Adds a tag (replacing the value of an earlier tag with this key).
    pub fn tag(self, key: &str, value: &str) -> (r: WriteBuilder)
        ensures
            r.table_name() == self.table_name(),
            r.row_view() == (RowView { tags: self.row_view().tags.insert(key@, value@), ..self.row_view() }),
    {
        let mut s = self;
        map_insert(&mut s.tags, key.to_owned(), value.to_owned());
        s
    }

    /// Adds a field (replacing the value of an earlier field of this name).
    fn put_field(self, name: &str, value: FieldValue) -> (r: WriteBuilder)
        ensures
            r.table_name() == self.table_name(),
            r.row_view() == (RowView {
                fields: self.row_view().fields.insert(name@, value),
                ..self.row_view()
            }),
    {
        let mut s = self;
        map_insert(&mut s.fields, name.to_owned(), value);
        s
    }

    /// Adds a float field, given by its IEEE-754 bit pattern
    /// (`f64::to_bits`).
    pub fn field(self, name: &str, bits: u64) -> (r: WriteBuilder)
        ensures
            r.table_name() == self.table_name(),
            r.row_view() == (RowView {
                fields: self.row_view().fields.insert(name@, FieldValue::Float(bits)),
                ..self.row_view()
            }),
    {
        self.put_field(name, FieldValue::Float(bits))
    }

    /// Adds an integer field.
    pub fn field_int(self, name: &str, value: i64) -> (r: WriteBuilder)
        ensures
            r.table_name() == self.table_name(),
            r.row_view() == (RowView {
                fields: self.row_view().fields.insert(name@, FieldValue::Int(value)),
                ..self.row_view()
            }),
    {
        self.put_field(name, FieldValue::Int(value))
    }

    /// Adds a boolean field.
    pub fn field_bool(self, name: &str, value: bool) -> (r: WriteBuilder)
        ensures
            r.table_name() == self.table_name(),
            r.row_view() == (RowView {
                fields: self.row_view().fields.insert(name@, FieldValue::Bool(value)),
                ..self.row_view()
            }),
    {
        self.put_field(name, FieldValue::Bool(value))
    }

    /// Adds a string field.
    pub fn field_str(self, name: &str, value: &str) -> (r: WriteBuilder)
        ensures
            r.table_name() == self.table_name(),
            r.row_view().tags == self.row_view().tags,
            r.row_view().timestamp == self.row_view().timestamp,
            r.row_view().fields.dom() == self.row_view().fields.dom().insert(name@),
            r.row_view().fields[name@] matches FieldValue::Str(s) && s@ == value@,
            forall|k: Seq<char>| k != name@ && #[trigger] self.row_view().fields.contains_key(k)
                ==> r.row_view().fields[k] == self.row_view().fields[k],
    {
        self.put_field(name, FieldValue::Str(value.to_owned()))
    }

    /// Sets an explicit timestamp (nanoseconds since the Unix epoch).
    pub fn timestamp(self, ns: Timestamp) -> (r: WriteBuilder)
        ensures
            r.table_name() == self.table_name(),
            r.row_view() == (RowView { timestamp: Some(ns), ..self.row_view() }),
    {
        WriteBuilder { timestamp: Some(ns), ..self }
    }

    /// Sets the current system time as the timestamp.
    pub fn timestamp_now(self) -> (r: WriteBuilder)
        ensures
            r.table_name() == self.table_name(),
            r.row_view().tags == self.row_view().tags,
            r.row_view().fields == self.row_view().fields,
            r.row_view().timestamp is Some,
    {
        let ns = now_nanos();
        self.timestamp(ns)
    }

    /// The batch this write sends, its row stamped with `now` unless a
    /// timestamp was set; an `Ingest` error when the write has no field.
    pub fn into_batch_at(self, now: Timestamp) -> (r: Result<IngestBatch, RutSeriError>)
        ensures
            self.row_view().fields == Map::<Seq<char>, FieldValue>::empty() <==> r is Err,
            r matches Err(e) ==> e matches RutSeriError::Ingest(m) && m@ == no_field_message(),
            r matches Ok(b) ==> b.table@ == self.table_name() && b.rows@.len() == 1 && row_matches(
                b.rows@[0],
                self.row_view(),
                now,
            ),
    {
        proof {
            let dom = self.fields@.dom();
            assert(self.fields.deep_view().dom() == dom.map(|k: String| k.deep_view()));
            if dom.is_empty() {
                assert(dom.map(|k: String| k.deep_view()) =~= Set::empty());
                assert(self.fields.deep_view() =~= Map::empty());
            } else {
                let k = dom.choose();
                assert(dom.contains(k));
                assert(dom.map(|k: String| k.deep_view()).contains(k.deep_view()));
                assert(!Map::<Seq<char>, FieldValue>::empty().contains_key(k.deep_view()));
            }
        }
        let timestamp = match self.timestamp {
            Some(ts) => ts,
            None => now,
        };
        if self.fields.is_empty() {
            return Err(RutSeriError::Ingest("Write must have at least one field".to_owned()));
        }
        let row = Row { timestamp, tags: self.tags, fields: self.fields };
        let mut rows: Vec<Row> = Vec::new();
        rows.push(row);
        Ok(IngestBatch { table: self.table, rows })
    }

    /// The batch this write sends (see `into_batch_at`), stamped with the
    /// current system time unless a timestamp was set.
    pub fn into_batch(self) -> (r: Result<IngestBatch, RutSeriError>)
        ensures
            self.row_view().fields == Map::<Seq<char>, FieldValue>::empty() <==> r is Err,
            r matches Err(e) ==> e matches RutSeriError::Ingest(m) && m@ == no_field_message(),
            r matches Ok(b) ==> b.table@ == self.table_name() && b.rows@.len() == 1 && exists|now: Timestamp|
                row_matches(b.rows@[0], self.row_view(), now),
    {
        let now = if self.timestamp.is_some() {
            0
        } else {
            now_nanos()
        };
        self.into_batch_at(now)
    }
}

/// Builder for one row of a batch.
pub struct RowBuilder {
    tags: TagSet,
    fields: FieldMap,
    timestamp: Option<Timestamp>,
}

impl RowBuilder {
    /// The row being built.
    pub closed spec fn row_view(&self) -> RowView {
        RowView {
            tags: self.tags.deep_view(),
            fields: self.fields.deep_view(),
            timestamp: self.timestamp,
        }
    }

    /// A row with no tags, no fields and no timestamp.
    pub fn new() -> (r: RowBuilder)
        ensures
            r.row_view() == (RowView { tags: Map::empty(), fields: Map::empty(), timestamp: None }),
    {
        let r = RowBuilder { tags: BTreeMap::new(), fields: BTreeMap::new(), timestamp: None };
        proof {
            assert(r.tags@.dom().map(|k: String| k.deep_view()) =~= Set::empty());
            assert(r.fields@.dom().map(|k: String| k.deep_view()) =~= Set::empty());
            assert(r.tags.deep_view() =~= Map::empty());
            assert(r.fields.deep_view() =~= Map::empty());
        }
        r
    }

    /// Adds a tag.
    pub fn tag(self, key: &str, value: &str) -> (r: RowBuilder)
        ensures
            r.row_view() == (RowView { tags: self.row_view().tags.insert(key@, value@), ..self.row_view() }),
    {
        let mut s = self;
        map_insert(&mut s.tags, key.to_owned(), value.to_owned());
        s
    }

    /// Adds a field.
    fn put_field(self, name: &str, value: FieldValue) -> (r: RowBuilder)
        ensures
            r.row_view() == (RowView {
                fields: self.row_view().fields.insert(name@, value),
                ..self.row_view()
            }),
    {
        let mut s = self;
        map_insert(&mut s.fields, name.to_owned(), value);
        s
    }

    /// Adds a float field, given by its IEEE-754 bit pattern.
    pub fn field(self, name: &str, bits: u64) -> (r: RowBuilder)
        ensures
            r.row_view() == (RowView {
                fields: self.row_view().fields.insert(name@, FieldValue::Float(bits)),
                ..self.row_view()
            }),
    {
        self.put_field(name, FieldValue::Float(bits))
    }

    /// Adds an integer field.
    pub fn field_int(self, name: &str, value: i64) -> (r: RowBuilder)
        ensures
            r.row_view() == (RowView {
                fields: self.row_view().fields.insert(name@, FieldValue::Int(value)),
                ..self.row_view()
            }),
    {
        self.put_field(name, FieldValue::Int(value))
    }

    /// Adds a boolean field.
    pub fn field_bool(self, name: &str, value: bool) -> (r: RowBuilder)
        ensures
            r.row_view() == (RowView {
                fields: self.row_view().fields.insert(name@, FieldValue::Bool(value)),
                ..self.row_view()
            }),
    {
        self.put_field(name, FieldValue::Bool(value))
    }

    /// Adds a string field.
    pub fn field_str(self, name: &str, value: &str) -> (r: RowBuilder)
        ensures
            r.row_view().tags == self.row_view().tags,
            r.row_view().timestamp == self.row_view().timestamp,
            r.row_view().fields.dom() == self.row_view().fields.dom().insert(name@),
            r.row_view().fields[name@] matches FieldValue::Str(s) && s@ == value@,
            forall|k: Seq<char>| k != name@ && #[trigger] self.row_view().fields.contains_key(k)
                ==> r.row_view().fields[k] == self.row_view().fields[k],
    {
        self.put_field(name, FieldValue::Str(value.to_owned()))
    }

    /// Sets the timestamp (nanoseconds since the Unix epoch).
    pub fn timestamp(self, ns: Timestamp) -> (r: RowBuilder)
        ensures
            r.row_view() == (RowView { timestamp: Some(ns), ..self.row_view() }),
    {
        RowBuilder { timestamp: Some(ns), ..self }
    }

    /// Sets the current system time as the timestamp.
    pub fn timestamp_now(self) -> (r: RowBuilder)
        ensures
            r.row_view().tags == self.row_view().tags,
            r.row_view().fields == self.row_view().fields,
            r.row_view().timestamp is Some,
    {
        let ns = now_nanos();
        self.timestamp(ns)
    }

    /// The row, stamped with `now` unless a timestamp was set.
    pub fn build_at(self, now: Timestamp) -> (r: Row)
        ensures
            row_matches(r, self.row_view(), now),
    {
        let timestamp = match self.timestamp {
            Some(ts) => ts,
            None => now,
        };
        Row { timestamp, tags: self.tags, fields: self.fields }
    }

    /// The row, stamped with the current system time unless a timestamp
    /// was set.
    pub fn build(self) -> (r: Row)
        ensures
            exists|now: Timestamp| row_matches(r, self.row_view(), now),
    {
        let now = if self.timestamp.is_some() {
            0
        } else {
            now_nanos()
        };
        self.build_at(now)
    }
}

/// Builder for several rows sent to a table in one request.
pub struct BatchBuilder {
    table: String,
    rows: Vec<Row>,
}

impl BatchBuilder {
    /// The target table.
    pub closed spec fn table_name(&self) -> Seq<char> {
        self.table@
    }

    /// The rows collected so far.
    pub closed spec fn rows_view(&self) -> Seq<Row> {
        self.rows@
    }

    /// An empty batch for `table`.
    pub fn new(table: String) -> (r: BatchBuilder)
        ensures
            r.table_name() == table@,
            r.rows_view() == Seq::<Row>::empty(),
    {
        BatchBuilder { table, rows: Vec::new() }
    }

    /// Adds a built row.
    pub fn add_row(self, row: Row) -> (r: BatchBuilder)
        ensures
            r.table_name() == self.table_name(),
            r.rows_view() == self.rows_view().push(row),
    {
        let mut s = self;
        s.rows.push(row);
        s
    }

    /// Number of rows in the batch.
    pub fn len(&self) -> (r: usize)
        ensures
            r == self.rows_view().len(),
    {
        self.rows.len()
    }

    /// Whether the batch has no rows.
    pub fn is_empty(&self) -> (r: bool)
        ensures
            r == (self.rows_view().len() == 0),
    {
        self.rows.len() == 0
    }

    /// The request this batch sends: all its rows, in order; an `Ingest`
    /// error when it has none.
    pub fn into_batch(self) -> (r: Result<IngestBatch, RutSeriError>)
        ensures
            self.rows_view().len() == 0 <==> r is Err,
            r matches Err(e) ==> e matches RutSeriError::Ingest(m) && m@ == no_row_message(),
            r matches Ok(b) ==> b.table@ == self.table_name() && b.rows@ == self.rows_view(),
    {
        if self.rows.len() == 0 {
            return Err(RutSeriError::Ingest("Batch must have at least one row".to_owned()));
        }
        Ok(IngestBatch { table: self.table, rows: self.rows })
    }
}

} // verus!
