//! Metadata Catalog: the cluster metadata that the Coordinators replicate
//! through Raft.
//!
//! It holds the registered nodes, the shard → leader and replicas map and
//! the table schemas. Every Coordinator applies the same committed log of
//! `MetadataOp`s to a `MetadataState`, so all of them agree on it.
use crate::common::error::RutSeriError;
use crate::common::schema::TableSchema;
use crate::common::strmap::StrMap;
use crate::common::types::{NodeId, NodeInfo, NodeState, ShardAssignment, ShardId};
use std::collections::BTreeMap;
use vstd::std_specs::btree::increasing_seq;
use vstd::std_specs::cmp::OrdSpec;
use vstd::std_specs::iter::IteratorSpec;
use vstd::prelude::*;

verus! {

broadcast use {vstd::std_specs::btree::group_btree_axioms, vstd::laws_cmp::group_laws_cmp};

/// Operations proposed to the Raft log and applied to the metadata state.
#[derive(Debug, Clone)]
pub enum MetadataOp {
    /// Register a node (again): it is recorded as alive at `addr`.
    RegisterNode { node_id: NodeId, addr: String },
    /// Remove a node from the cluster.
    DeregisterNode { node_id: NodeId },
    /// Assign a shard to a leader and replicas.
    AssignShard { shard_id: ShardId, leader: NodeId, replicas: Vec<NodeId> },
    /// Make another node the leader of an assigned shard.
    PromoteLeader { shard_id: ShardId, new_leader: NodeId },
    /// Register a table schema and its primary tags.
    RegisterTable { table: String, schema: TableSchema, primary_tags: Vec<String> },
}

/// The state derived from applying the Raft log.
#[derive(Debug, Clone)]
pub struct MetadataState {
    /// node_id → NodeInfo
    pub nodes: StrMap<NodeInfo>,
    /// shard_id → ShardAssignment
    pub shard_map: BTreeMap<ShardId, ShardAssignment>,
    /// table name → (schema, primary tags)
    pub tables: StrMap<(TableSchema, Vec<String>)>,
    /// Incremented by every applied operation.
    pub version: u64,
}

/// What a metadata state stands for.
pub struct MetadataView {
    pub nodes: Map<Seq<char>, NodeInfo>,
    pub shards: Map<ShardId, ShardAssignment>,
    pub tables: Map<Seq<char>, (TableSchema, Vec<String>)>,
    pub version: u64,
}

impl View for MetadataState {
    type V = MetadataView;

    open spec fn view(&self) -> MetadataView {
        MetadataView {
            nodes: self.nodes.view_map(),
            shards: self.shard_map@,
            tables: self.tables.view_map(),
            version: self.version,
        }
    }
}

/// The state after `op`, or `None` when `op` is refused (a promotion on a
/// shard that has no assignment). An applied operation increments the
/// version.
pub open spec fn apply_view(v: MetadataView, op: MetadataOp) -> Option<MetadataView> {
    let next = (v.version + 1) as u64;
    match op {
        MetadataOp::RegisterNode { node_id, addr } => Some(
            MetadataView {
                nodes: v.nodes.insert(node_id@, NodeInfo { node_id, addr, state: NodeState::Alive }),
                version: next,
                ..v
            },
        ),
        MetadataOp::DeregisterNode { node_id } => Some(
            MetadataView { nodes: v.nodes.remove(node_id@), version: next, ..v },
        ),
        MetadataOp::AssignShard { shard_id, leader, replicas } => Some(
            MetadataView {
                shards: v.shards.insert(shard_id, ShardAssignment { shard_id, leader, replicas }),
                version: next,
                ..v
            },
        ),
        MetadataOp::PromoteLeader { shard_id, new_leader } => if v.shards.contains_key(shard_id) {
            Some(
                MetadataView {
                    shards: v.shards.insert(
                        shard_id,
                        ShardAssignment { leader: new_leader, ..v.shards[shard_id] },
                    ),
                    version: next,
                    ..v
                },
            )
        } else {
            None
        },
        MetadataOp::RegisterTable { table, schema, primary_tags } => Some(
            MetadataView { tables: v.tables.insert(table@, (schema, primary_tags)), version: next, ..v },
        ),
    }
}

/// Whether `vals` lists the assignments of `m` under the strictly
/// ascending shard IDs `ks`.
pub open spec fn in_key_order(m: Map<ShardId, ShardAssignment>, ks: Seq<ShardId>, vals: Seq<&ShardAssignment>) -> bool {
    &&& ks.len() == vals.len()
    &&& forall|i: int, j: int| 0 <= i < j < ks.len() ==> ks[i] < ks[j]
    &&& forall|i: int| 0 <= i < ks.len() ==> m.contains_key(#[trigger] ks[i]) && *vals[i] == m[ks[i]]
}

/// Shard IDs in increasing order are strictly ascending.
proof fn lemma_ascending_ids(ks: Seq<ShardId>)
    requires
        increasing_seq(ks),
    ensures
        forall|i: int, j: int| 0 <= i < j < ks.len() ==> ks[i] < ks[j],
{
    assert(vstd::laws_cmp::obeys_cmp::<ShardId>());
    vstd::std_specs::btree::axiom_increasing_seq_meaning(ks);
    assert forall|i: int, j: int| 0 <= i < j < ks.len() implies ks[i] < ks[j] by {
        assert(OrdSpec::cmp_spec(&ks[i], &ks[j]) is Less);
    }
}

impl MetadataState {
    /// An empty state at version 0.
    pub fn new() -> (r: MetadataState)
        ensures
            r@.nodes == Map::<Seq<char>, NodeInfo>::empty(),
            r@.shards == Map::<ShardId, ShardAssignment>::empty(),
            r@.tables == Map::<Seq<char>, (TableSchema, Vec<String>)>::empty(),
            r@.version == 0,
    {
        MetadataState { nodes: StrMap::new(), shard_map: BTreeMap::new(), tables: StrMap::new(), version: 0 }
    }

    /// Applies a committed operation (see `apply_view`); a promotion on a
    /// shard without assignment is refused with `LeaderNotFound` and leaves
    /// the state as it is.
    pub fn apply(&mut self, op: MetadataOp) -> (r: Result<(), RutSeriError>)
        requires
            apply_view(old(self)@, op) is Some ==> old(self).version < u64::MAX,
        ensures
            match apply_view(old(self)@, op) {
                Some(v) => r is Ok && final(self)@ == v,
                None => final(self)@ == old(self)@ && (op matches MetadataOp::PromoteLeader { shard_id, .. }
                    && r == Err::<(), RutSeriError>(RutSeriError::LeaderNotFound(shard_id))),
            },
    {
        match op {
            MetadataOp::RegisterNode { node_id, addr } => {
                let key = node_id.clone();
                self.nodes.insert(key, NodeInfo { node_id, addr, state: NodeState::Alive });
            },
            MetadataOp::DeregisterNode { node_id } => {
                self.nodes.remove(node_id.as_str());
            },
            MetadataOp::AssignShard { shard_id, leader, replicas } => {
                self.shard_map.insert(shard_id, ShardAssignment { shard_id, leader, replicas });
            },
            MetadataOp::PromoteLeader { shard_id, new_leader } => {
                match self.shard_map.remove(&shard_id) {
                    Some(current) => {
                        self.shard_map.insert(shard_id, ShardAssignment { leader: new_leader, ..current });
                        proof {
                            assert(self.shard_map@ =~= old(self).shard_map@.insert(
                                shard_id,
                                ShardAssignment { leader: new_leader, ..old(self).shard_map@[shard_id] },
                            ));
                        }
                    },
                    None => {
                        proof {
                            assert(self.shard_map@ =~= old(self).shard_map@);
                        }
                        return Err(RutSeriError::LeaderNotFound(shard_id));
                    },
                }
            },
            MetadataOp::RegisterTable { table, schema, primary_tags } => {
                self.tables.insert(table, (schema, primary_tags));
            },
        }
        self.version = self.version + 1;
        Ok(())
    }

    /// The leader of a shard, if the shard is assigned.
    pub fn get_shard_leader(&self, shard_id: ShardId) -> (r: Option<NodeId>)
        ensures
            match r {
                Some(l) => self@.shards.contains_key(shard_id) && l@ == self@.shards[shard_id].leader@,
                None => !self@.shards.contains_key(shard_id),
            },
    {
        match self.shard_map.get(&shard_id) {
            Some(a) => Some(a.leader.clone()),
            None => None,
        }
    }

    /// The address of a registered node.
    pub fn get_node_addr(&self, node_id: &str) -> (r: Option<String>)
        ensures
            match r {
                Some(a) => self@.nodes.contains_key(node_id@) && a@ == self@.nodes[node_id@].addr@,
                None => !self@.nodes.contains_key(node_id@),
            },
    {
        match self.nodes.get(node_id) {
            Some(n) => Some(n.addr.clone()),
            None => None,
        }
    }

    /// All shard assignments, each once, by increasing shard ID.
    pub fn get_shard_map(&self) -> (r: Vec<&ShardAssignment>)
        ensures
            r@.len() == self@.shards.dom().len(),
            forall|i: int| 0 <= i < r@.len() ==> self@.shards.values().contains(*(#[trigger] r@[i])),
            forall|a: ShardAssignment| #[trigger] self@.shards.values().contains(a) ==> exists|i: int|
                0 <= i < r@.len() && *r@[i] == a,
            exists|ks: Seq<ShardId>| #[trigger] in_key_order(self@.shards, ks, r@),
    {
        let values = self.shard_map.values();
        let ghost rem = IteratorSpec::remaining(&values);
        let mut out: Vec<&ShardAssignment> = Vec::new();
        for a in it: values
            invariant
                it.seq() == rem,
                out@ == rem.subrange(0, it.index() as int),
        {
            proof {
                assert(rem.subrange(0, it.index() + 1) =~= rem.subrange(0, it.index() as int).push(a));
            }
            out.push(a);
        }
        proof {
            assert(out@ =~= rem);
            let m = self.shard_map@;
            let key_seq = choose|key_seq: Seq<ShardId>|
                {
                    &&& increasing_seq(key_seq)
                    &&& key_seq.to_set() == m.dom()
                    &&& key_seq.no_duplicates()
                    &&& rem == key_seq.map(|i: int, k| &m[k])
                };
            key_seq.unique_seq_to_set();
            lemma_ascending_ids(key_seq);
            assert forall|i: int| 0 <= i < key_seq.len() implies m.contains_key(#[trigger] key_seq[i]) && *out@[i]
                == m[key_seq[i]] by {
                assert(key_seq.to_set().contains(key_seq[i]));
            }
            assert(in_key_order(m, key_seq, out@));
            assert forall|i: int| 0 <= i < out@.len() implies m.values().contains(*(#[trigger] out@[i])) by {
                assert(key_seq.to_set().contains(key_seq[i]));
                assert(m.dom().contains(key_seq[i]));
            }
            assert forall|a: ShardAssignment| #[trigger] m.values().contains(a) implies exists|i: int|
                0 <= i < out@.len() && *out@[i] == a by {
                let k = choose|k: ShardId| m.dom().contains(k) && m[k] == a;
                assert(key_seq.to_set().contains(k));
                let i = choose|i: int| 0 <= i < key_seq.len() && key_seq[i] == k;
                assert(*out@[i] == a);
            }
        }
        out
    }

    /// The schema and primary tags of a registered table.
    pub fn get_table_schema(&self, table: &str) -> (r: Option<&(TableSchema, Vec<String>)>)
        ensures
            match r {
                Some(t) => self@.tables.contains_key(table@) && *t == self@.tables[table@],
                None => !self@.tables.contains_key(table@),
            },
    {
        self.tables.get(table)
    }
}

/// A registered node is found alive at its address, and only the node
/// table and the version change.
pub proof fn lemma_register_then_lookup(v: MetadataView, node_id: NodeId, addr: String)
    requires
        v.version < u64::MAX,
    ensures
        apply_view(v, MetadataOp::RegisterNode { node_id, addr }) matches Some(w) && w.nodes.contains_key(
            node_id@,
        ) && w.nodes[node_id@].addr == addr && w.nodes[node_id@].state == NodeState::Alive
            && w.shards == v.shards && w.tables == v.tables && w.version == v.version + 1,
{
}

/// A deregistered node is no longer found; other nodes stay.
pub proof fn lemma_deregister_then_lookup(v: MetadataView, node_id: NodeId, other: Seq<char>)
    requires
        other != node_id@,
    ensures
        apply_view(v, MetadataOp::DeregisterNode { node_id }) matches Some(w) && !w.nodes.contains_key(
            node_id@,
        ) && w.nodes.contains_key(other) == v.nodes.contains_key(other) && (v.nodes.contains_key(other)
            ==> w.nodes[other] == v.nodes[other]),
{
}

/// A promotion is refused exactly when the shard has no assignment; when
/// accepted, the shard's leader is the promoted node and its replicas are
/// the ones it had.
pub proof fn lemma_promote_leader(v: MetadataView, shard_id: ShardId, new_leader: NodeId)
    ensures
        apply_view(v, MetadataOp::PromoteLeader { shard_id, new_leader }) is None <==> !v.shards.contains_key(
            shard_id,
        ),
        apply_view(v, MetadataOp::PromoteLeader { shard_id, new_leader }) matches Some(w) ==> w.shards[shard_id].leader
            == new_leader && w.shards[shard_id].replicas == v.shards[shard_id].replicas
            && w.shards[shard_id].shard_id == v.shards[shard_id].shard_id && w.nodes == v.nodes,
{
}

/// An assignment is read back as it was given.
pub proof fn lemma_assign_then_lookup(v: MetadataView, shard_id: ShardId, leader: NodeId, replicas: Vec<NodeId>)
    ensures
        apply_view(v, MetadataOp::AssignShard { shard_id, leader, replicas }) matches Some(w)
            && w.shards[shard_id] == (ShardAssignment { shard_id, leader, replicas }),
{
}

} // verus!
