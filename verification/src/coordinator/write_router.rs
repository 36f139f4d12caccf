//! Write router: which shard leader a write batch goes to.
//!
//! 1. the primary tags of the batch's first row, by the table's registered
//!    primary tag names,
//! 2. the shard they hash to,
//! 3. that shard's leader and the leader's address, from the metadata.
//!
//! Forwarding the batch to the leader is the caller's part. The router
//! neither validates the schema nor touches the WAL or the MemTable.
use crate::common::error::RutSeriError;
use crate::common::shard_key::{compute_shard_key, lemma_shard_depends_only_on_primary_tags, shard_of};
use crate::common::types::{map_insert, string_views, tag_get, IngestBatch, NodeId, ShardId, TagSet};
use crate::coordinator::metadata_catalog::{MetadataState, MetadataView};
use crate::ingest::engine::row_missing_tag;
use std::collections::BTreeMap;
use vstd::prelude::*;

verus! {

broadcast use {vstd::std_specs::btree::group_btree_axioms, vstd::std_specs::btree::lemma_btree_map_deepview_dom};

/// Where a batch is forwarded: its shard, that shard's leader and the
/// leader's address.
#[derive(Debug, Clone)]
pub struct WriteTarget {
    pub shard_id: ShardId,
    pub leader: NodeId,
    pub addr: String,
}

/// Routes write batches to the leader of their shard.
#[derive(Debug, Clone)]
pub struct WriteRouter {
    /// Total number of shards (static, set at cluster creation).
    num_shards: u32,
}

/// The registered primary tag names of the batch's table.
pub open spec fn primary_names(v: MetadataView, batch: IngestBatch) -> Seq<String> {
    v.tables[batch.table@].1@
}

/// Whether a batch has a shard: its table is registered and its first row
/// carries every primary tag of the table.
pub open spec fn has_shard(v: MetadataView, batch: IngestBatch) -> bool {
    &&& v.tables.contains_key(batch.table@)
    &&& batch.rows@.len() > 0
    &&& row_missing_tag(batch.rows@[0], primary_names(v, batch)) is None
}

/// The tags of `tags` whose keys are among `names`.
pub open spec fn tags_named(tags: Map<Seq<char>, Seq<char>>, names: Seq<String>) -> Map<Seq<char>, Seq<char>> {
    tags.restrict(string_views(names).to_set())
}

/// The text of the error for a batch without rows.
pub open spec fn empty_batch_message() -> Seq<char> {
    "Batch has no rows to route"@
}

impl WriteRouter {
    /// Total number of shards.
    pub closed spec fn shard_count(&self) -> u32 {
        self.num_shards
    }

    /// The shard of a batch that has one.
    pub open spec fn shard_for(&self, v: MetadataView, batch: IngestBatch) -> u32 {
        shard_of(batch.rows@[0].tags.deep_view(), string_views(primary_names(v, batch)), self.shard_count())
    }

    /// A router over `num_shards` shards.
    pub fn new(num_shards: u32) -> (r: WriteRouter)
        ensures
            r.shard_count() == num_shards,
    {
        WriteRouter { num_shards }
    }

    /// The primary tags of the batch's first row: the tags whose keys are
    /// the table's registered primary tag names. Fails with `UnknownTable`
    /// for a table that is not registered, with `Ingest` for a batch
    /// without rows, and with `MissingPrimaryTag` naming the first primary
    /// tag (in registered order) that the first row lacks.
    pub fn extract_primary_tags(&self, state: &MetadataState, batch: &IngestBatch) -> (r: Result<
        TagSet,
        RutSeriError,
    >)
        ensures
            match r {
                Ok(tags) => has_shard(state@, *batch) && tags.deep_view() == tags_named(
                    batch.rows@[0].tags.deep_view(),
                    primary_names(state@, *batch),
                ),
                Err(RutSeriError::UnknownTable(t)) => !state@.tables.contains_key(batch.table@) && t@
                    == batch.table@,
                Err(RutSeriError::Ingest(m)) => state@.tables.contains_key(batch.table@)
                    && batch.rows@.len() == 0 && m@ == empty_batch_message(),
                Err(RutSeriError::MissingPrimaryTag(t)) => state@.tables.contains_key(batch.table@)
                    && batch.rows@.len() > 0 && row_missing_tag(batch.rows@[0], primary_names(state@, *batch))
                    == Some(t@),
                Err(_) => false,
            },
    {
        let entry = match state.get_table_schema(batch.table.as_str()) {
            Some(e) => e,
            None => {
                return Err(RutSeriError::UnknownTable(batch.table.clone()));
            },
        };
        if batch.rows.len() == 0 {
            let m = "Batch has no rows to route".to_owned();
            proof {
                reveal_strlit("Batch has no rows to route");
            }
            return Err(RutSeriError::Ingest(m));
        }
        let names = &entry.1;
        let row = &batch.rows[0];
        let ghost all = row.tags.deep_view();
        let mut out: TagSet = BTreeMap::new();
        proof {
            assert(out@.dom().map(|k: String| k.deep_view()) =~= Set::empty());
            assert(out.deep_view() =~= Map::empty());
            assert(names@.subrange(0, 0) =~= Seq::<String>::empty());
            assert(string_views(Seq::<String>::empty()).to_set() =~= Set::empty());
            assert(tags_named(all, Seq::<String>::empty()) =~= Map::empty());
        }
        let n = names.len();
        proof {
            assert(names@.subrange(0, n as int) =~= names@);
        }
        let mut i: usize = 0;
        while i < n
            invariant
                n == names@.len(),
                state@.tables.contains_key(batch.table@),
                batch.rows@.len() > 0,
                names@ == primary_names(state@, *batch),
                *row == batch.rows@[0],
                all == row.tags.deep_view(),
                0 <= i <= n,
                row_missing_tag(*row, names@) == row_missing_tag(*row, names@.subrange(i as int, n as int)),
                out.deep_view() == tags_named(all, names@.subrange(0, i as int)),
            decreases n - i,
        {
            let ghost rest = names@.subrange(i as int, n as int);
            proof {
                assert(rest.drop_first() =~= names@.subrange(i + 1, n as int));
                assert(rest[0] == names@[i as int]);
            }
            match tag_get(&row.tags, &names[i]) {
                None => {
                    proof {
                        assert(row_missing_tag(*row, rest) == Some(names@[i as int]@));
                    }
                    return Err(RutSeriError::MissingPrimaryTag(names[i].clone()));
                },
                Some(value) => {
                    let ghost before = out.deep_view();
                    map_insert(&mut out, names[i].clone(), value.clone());
                    proof {
                        let done = names@.subrange(0, i as int);
                        let next = names@.subrange(0, i + 1);
                        assert(next =~= done.push(names@[i as int]));
                        assert(string_views(next) =~= string_views(done).push(names@[i as int]@));
                        string_views(done).lemma_push_to_set_commute(names@[i as int]@);
                        assert(out.deep_view() =~= tags_named(all, next));
                    }
                },
            }
            i = i + 1;
        }
        proof {
            assert(names@.subrange(0, n as int) =~= names@);
            assert(names@.subrange(n as int, n as int) =~= Seq::<String>::empty());
        }
        Ok(out)
    }

    /// Where a batch goes: its primary tags (as `extract_primary_tags`,
    /// with its errors), the shard they hash to, that shard's leader and
    /// the leader's address. Fails with `LeaderNotFound` when the shard has
    /// no assignment or its leader no registered address.
    pub fn route(&self, state: &MetadataState, batch: &IngestBatch) -> (r: Result<WriteTarget, RutSeriError>)
        requires
            has_shard(state@, *batch) ==> self.shard_count() > 0,
        ensures
            match r {
                Ok(t) => {
                    &&& has_shard(state@, *batch)
                    &&& t.shard_id == self.shard_for(state@, *batch)
                    &&& state@.shards.contains_key(t.shard_id)
                    &&& t.leader@ == state@.shards[t.shard_id].leader@
                    &&& state@.nodes.contains_key(t.leader@)
                    &&& t.addr@ == state@.nodes[t.leader@].addr@
                },
                Err(RutSeriError::LeaderNotFound(s)) => {
                    &&& has_shard(state@, *batch)
                    &&& s == self.shard_for(state@, *batch)
                    &&& !(state@.shards.contains_key(s) && state@.nodes.contains_key(state@.shards[s].leader@))
                },
                Err(RutSeriError::UnknownTable(t)) => !state@.tables.contains_key(batch.table@) && t@
                    == batch.table@,
                Err(RutSeriError::Ingest(m)) => state@.tables.contains_key(batch.table@)
                    && batch.rows@.len() == 0 && m@ == empty_batch_message(),
                Err(RutSeriError::MissingPrimaryTag(t)) => state@.tables.contains_key(batch.table@)
                    && batch.rows@.len() > 0 && row_missing_tag(batch.rows@[0], primary_names(state@, *batch))
                    == Some(t@),
                Err(_) => false,
            },
    {
        let tags = match self.extract_primary_tags(state, batch) {
            Ok(t) => t,
            Err(e) => {
                return Err(e);
            },
        };
        let entry = match state.get_table_schema(batch.table.as_str()) {
            Some(e) => e,
            None => {
                return Err(RutSeriError::UnknownTable(batch.table.clone()));
            },
        };
        let shard_id = compute_shard_key(&tags, entry.1.as_slice(), self.num_shards);
        proof {
            let names = string_views(entry.1@);
            let full = batch.rows@[0].tags.deep_view();
            assert forall|i: int| 0 <= i < names.len() implies (tags.deep_view().contains_key(#[trigger] names[i])
                <==> full.contains_key(names[i])) by {
                assert(string_views(entry.1@).to_set().contains(names[i]));
            }
            lemma_shard_depends_only_on_primary_tags(tags.deep_view(), full, names, self.num_shards);
        }
        let leader = match state.get_shard_leader(shard_id) {
            Some(l) => l,
            None => {
                return Err(RutSeriError::LeaderNotFound(shard_id));
            },
        };
        let addr = match state.get_node_addr(leader.as_str()) {
            Some(a) => a,
            None => {
                return Err(RutSeriError::LeaderNotFound(shard_id));
            },
        };
        Ok(WriteTarget { shard_id, leader, addr })
    }
}

} // verus!
