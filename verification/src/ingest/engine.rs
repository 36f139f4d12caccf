//! IngestEngine: the write path's entry point.
//!
//! It checks incoming rows against the table schema, computes the shard
//! key from the primary tags and decides which shard a batch goes to.
//! Handing the batch to that shard's actor and awaiting its durable commit
//! is the caller's part.
use crate::common::error::RutSeriError;
use crate::common::schema::TableSchema;
use crate::common::shard_key::{compute_shard_key, shard_of};
use crate::common::strmap::StrMap;
use crate::common::types::{string_views, tag_contains, IngestBatch, Row, ShardId};
use vstd::prelude::*;

verus! {

/// The first of `names` that `row` does not carry as a tag.
pub open spec fn row_missing_tag(row: Row, names: Seq<String>) -> Option<Seq<char>>
    decreases names.len(),
{
    if names.len() == 0 {
        None
    } else if !row.tags.deep_view().contains_key(names[0]@) {
        Some(names[0]@)
    } else {
        row_missing_tag(row, names.drop_first())
    }
}

/// The first primary tag missing from a row, rows taken in order.
pub open spec fn batch_missing_tag(rows: Seq<Row>, names: Seq<String>) -> Option<Seq<char>>
    decreases rows.len(),
{
    if rows.len() == 0 {
        None
    } else {
        match row_missing_tag(rows[0], names) {
            Some(t) => Some(t),
            None => batch_missing_tag(rows.drop_first(), names),
        }
    }
}

/// Top-level ingest logic: table schemas and the shard count.
#[derive(Debug, Clone)]
pub struct IngestEngine {
    /// Table name → schema.
    schemas: StrMap<TableSchema>,
    /// Total number of shards in the cluster.
    num_shards: u32,
}

impl IngestEngine {
    /// Table name → schema.
    pub closed spec fn schemas_view(&self) -> Map<Seq<char>, TableSchema> {
        self.schemas.view_map()
    }

    /// Total number of shards in the cluster.
    pub closed spec fn shard_count(&self) -> u32 {
        self.num_shards
    }

    /// Whether a batch that passes the schema checks needs a shard
    /// computed: its table is known, no primary tag is missing and it
    /// holds rows.
    pub open spec fn needs_shard(&self, batch: IngestBatch) -> bool {
        &&& self.schemas_view().contains_key(batch.table@)
        &&& batch_missing_tag(batch.rows@, self.schemas_view()[batch.table@].primary_tags@) is None
        &&& batch.rows@.len() > 0
    }

    /// A new engine over the given schemas and shard count.
    pub fn new(schemas: StrMap<TableSchema>, num_shards: u32) -> (r: IngestEngine)
        ensures
            r.schemas_view() == schemas.view_map(),
            r.shard_count() == num_shards,
    {
        IngestEngine { schemas, num_shards }
    }

    /// Total number of shards in the cluster.
    pub fn num_shards(&self) -> (r: u32)
        ensures
            r == self.shard_count(),
    {
        self.num_shards
    }

    /// Whether `route` computes a shard for the batch (see `needs_shard`):
    /// the only case in which it needs a positive shard count.
    pub fn routes_to_shard(&self, batch: &IngestBatch) -> (r: bool)
        ensures
            r == self.needs_shard(*batch),
    {
        match self.schemas.get(batch.table.as_str()) {
            None => false,
            Some(schema) => match self.validate_batch(batch, schema) {
                Ok(()) => batch.rows.len() > 0,
                Err(_) => false,
            },
        }
    }

    /// Checks that every row carries every primary tag of the schema; on
    /// the first row that lacks one, reports the first such tag.
    pub fn validate_batch(&self, batch: &IngestBatch, schema: &TableSchema) -> (r: Result<(), RutSeriError>)
        ensures
            match r {
                Ok(()) => batch_missing_tag(batch.rows@, schema.primary_tags@) is None,
                Err(RutSeriError::MissingPrimaryTag(t)) => batch_missing_tag(
                    batch.rows@,
                    schema.primary_tags@,
                ) == Some(t@),
                Err(_) => false,
            },
    {
        let rows = &batch.rows;
        let names = &schema.primary_tags;
        let n = rows.len();
        let m = names.len();
        let mut i: usize = 0;
        proof {
            assert(rows@.subrange(0, n as int) =~= rows@);
        }
        while i < n
            invariant
                rows@ == batch.rows@,
                names@ == schema.primary_tags@,
                n == rows@.len(),
                m == names@.len(),
                0 <= i <= n,
                batch_missing_tag(rows@, names@) == batch_missing_tag(rows@.subrange(i as int, n as int), names@),
            decreases n - i,
        {
            let row = &rows[i];
            let mut j: usize = 0;
            proof {
                assert(names@.subrange(0, m as int) =~= names@);
            }
            while j < m
                invariant
                    rows@ == batch.rows@,
                    names@ == schema.primary_tags@,
                    n == rows@.len(),
                    m == names@.len(),
                    i < n,
                    *row == rows@[i as int],
                    batch_missing_tag(rows@, names@) == batch_missing_tag(rows@.subrange(i as int, n as int), names@),
                    0 <= j <= m,
                    row_missing_tag(*row, names@) == row_missing_tag(*row, names@.subrange(j as int, m as int)),
                decreases m - j,
            {
                proof {
                    let s = names@.subrange(j as int, m as int);
                    assert(s.drop_first() =~= names@.subrange(j + 1, m as int));
                    assert(s[0] == names@[j as int]);
                }
                if !tag_contains(&row.tags, &names[j]) {
                    let missing = names[j].clone();
                    proof {
                        let ns = names@.subrange(j as int, m as int);
                        assert(ns[0] == names@[j as int]);
                        assert(row_missing_tag(*row, ns) == Some(names@[j as int]@));
                        let rs = rows@.subrange(i as int, n as int);
                        assert(rs[0] == *row);
                        assert(batch_missing_tag(rs, names@) == Some(missing@));
                    }

                    return Err(RutSeriError::MissingPrimaryTag(missing));
                }
                j = j + 1;
            }
            proof {
                assert(names@.subrange(m as int, m as int) =~= Seq::<String>::empty());
                let rs = rows@.subrange(i as int, n as int);
                assert(rs[0] == *row);
                assert(rs.drop_first() =~= rows@.subrange(i + 1, n as int));
            }
            i = i + 1;
        }
        proof {
            assert(rows@.subrange(n as int, n as int) =~= Seq::<Row>::empty());
        }
        Ok(())
    }

    /// Decides where a batch goes: the schema of its table is looked up
    /// (`UnknownTable` if there is none), the rows are validated
    /// (`MissingPrimaryTag`), an empty batch needs no shard (`Ok(None)`),
    /// and otherwise the shard comes from the primary tags of the first row.
    pub fn route(&self, batch: &IngestBatch) -> (r: Result<Option<ShardId>, RutSeriError>)
        requires
            self.needs_shard(*batch) ==> self.shard_count() > 0,
        ensures
            match r {
                Err(RutSeriError::UnknownTable(t)) => !self.schemas_view().contains_key(batch.table@)
                    && t@ == batch.table@,
                Err(RutSeriError::MissingPrimaryTag(t)) => self.schemas_view().contains_key(batch.table@)
                    && batch_missing_tag(batch.rows@, self.schemas_view()[batch.table@].primary_tags@)
                    == Some(t@),
                Ok(None) => self.schemas_view().contains_key(batch.table@) && batch_missing_tag(
                    batch.rows@,
                    self.schemas_view()[batch.table@].primary_tags@,
                ) is None && batch.rows@.len() == 0,
                Ok(Some(id)) => self.needs_shard(*batch) && id == shard_of(
                    batch.rows@[0].tags.deep_view(),
                    string_views(self.schemas_view()[batch.table@].primary_tags@),
                    self.shard_count(),
                ),
                Err(_) => false,
            },
    {
        let schema = match self.schemas.get(batch.table.as_str()) {
            Some(s) => s,
            None => {
                return Err(RutSeriError::UnknownTable(batch.table.clone()));
            },
        };
        match self.validate_batch(batch, schema) {
            Ok(()) => {},
            Err(e) => {
                return Err(e);
            },
        }
        if batch.rows.len() == 0 {
            return Ok(None);
        }
        let first: &Row = &batch.rows[0];
        let id = compute_shard_key(&first.tags, schema.primary_tags.as_slice(), self.num_shards);
        Ok(Some(id))
    }
}

} // verus!
