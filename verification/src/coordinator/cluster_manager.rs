//! Cluster management: leader failover when gossip declares a node dead.
//!
//! For each shard the dead node led, the replicas are asked for their
//! replication offsets and the replica with the highest offset is promoted
//! through Raft. Asking the replicas and proposing the promotion are the
//! caller's part.
use crate::common::types::{NodeId, ShardId};
use crate::coordinator::metadata_catalog::{MetadataOp, MetadataState};
use vstd::prelude::*;
use vstd::std_specs::btree::increasing_seq;
use vstd::std_specs::cmp::OrdSpec;
use vstd::std_specs::iter::IteratorSpec;

verus! {

broadcast use {vstd::std_specs::btree::group_btree_axioms, vstd::laws_cmp::group_laws_cmp};

/// Whether position `i` of `offsets` holds the replica to promote: its
/// offset is the highest, and no later replica has that offset too.
pub open spec fn is_best(offsets: Seq<(NodeId, u64)>, i: int) -> bool {
    &&& 0 <= i < offsets.len()
    &&& forall|j: int| 0 <= j < offsets.len() ==> (#[trigger] offsets[j]).1 <= offsets[i].1
    &&& forall|j: int| i < j < offsets.len() ==> (#[trigger] offsets[j]).1 < offsets[i].1
}

/// The replica to promote: the one with the highest replication offset,
/// the last of them on a tie; `None` when no replica answered.
pub fn best_replica(offsets: &[(NodeId, u64)]) -> (r: Option<NodeId>)
    ensures
        r is None <==> offsets@.len() == 0,
        r matches Some(id) ==> exists|i: int| is_best(offsets@, i) && offsets@[i].0@ == id@,
{
    let n = offsets.len();
    if n == 0 {
        return None;
    }
    let mut best: usize = 0;
    let mut i: usize = 1;
    while i < n
        invariant
            n == offsets@.len(),
            1 <= i <= n,
            best < i,
            forall|j: int| 0 <= j < i ==> (#[trigger] offsets@[j]).1 <= offsets@[best as int].1,
            forall|j: int| best < j < i ==> (#[trigger] offsets@[j]).1 < offsets@[best as int].1,
        decreases n - i,
    {
        if offsets[i].1 >= offsets[best].1 {
            best = i;
        }
        i = i + 1;
    }
    let id = offsets[best].0.clone();
    proof {
        assert(is_best(offsets@, best as int));
    }
    Some(id)
}

/// The promotion that fails a shard over to its best replica, if any.
pub fn failover_op(shard_id: ShardId, offsets: &[(NodeId, u64)]) -> (r: Option<MetadataOp>)
    ensures
        r is None <==> offsets@.len() == 0,
        r matches Some(op) ==> op matches MetadataOp::PromoteLeader { shard_id: s, new_leader } && s
            == shard_id && exists|i: int| is_best(offsets@, i) && offsets@[i].0@ == new_leader@,
{
    match best_replica(offsets) {
        Some(new_leader) => Some(MetadataOp::PromoteLeader { shard_id, new_leader }),
        None => None,
    }
}

/// Shard IDs in increasing order are strictly ascending.
proof fn lemma_increasing_ids(ks: Seq<&ShardId>)
    requires
        increasing_seq(ks),
    ensures
        forall|i: int, j: int| 0 <= i < j < ks.len() ==> *ks[i] < *ks[j],
{
    assert(vstd::laws_cmp::obeys_cmp::<ShardId>());
    assert(vstd::laws_cmp::obeys_cmp::<&ShardId>());
    vstd::std_specs::btree::axiom_increasing_seq_meaning(ks);
    assert forall|i: int, j: int| 0 <= i < j < ks.len() implies *ks[i] < *ks[j] by {
        assert(OrdSpec::cmp_spec(&ks[i], &ks[j]) is Less);
    }
}

/// The shards whose leader is `node_id`, each once, by increasing shard ID.
pub fn shards_led_by(state: &MetadataState, node_id: &str) -> (r: Vec<ShardId>)
    ensures
        forall|i: int|
            0 <= i < r@.len() ==> state@.shards.contains_key(#[trigger] r@[i]) && state@.shards[r@[i]].leader@
                == node_id@,
        forall|s: ShardId|
            #![trigger state@.shards[s]]
            state@.shards.contains_key(s) && state@.shards[s].leader@ == node_id@ ==> r@.contains(s),
        forall|i: int, j: int| 0 <= i < j < r@.len() ==> r@[i] < r@[j],
{
    let keys = state.shard_map.keys();
    let ghost rem = IteratorSpec::remaining(&keys);
    let ghost ks = rem.unref();
    let ghost m = state.shard_map@;
    proof {
        assert(ks.to_set() == m.dom());
        lemma_increasing_ids(rem);
        assert forall|i: int, j: int| 0 <= i < j < ks.len() implies ks[i] < ks[j] by {
            assert(ks[i] == *rem[i]);
            assert(ks[j] == *rem[j]);
        }
    }
    let mut out: Vec<ShardId> = Vec::new();
    // positions in `ks` of the shards kept so far
    let ghost mut pos: Seq<int> = Seq::empty();
    for key in it: keys
        invariant
            it.seq() == rem,
            ks == rem.unref(),
            m == state.shard_map@,
            ks.to_set() == m.dom(),
            forall|i: int, j: int| 0 <= i < j < ks.len() ==> ks[i] < ks[j],
            pos.len() == out@.len(),
            forall|t: int| 0 <= t < pos.len() ==> 0 <= #[trigger] pos[t] < it.index() && ks[pos[t]] == out@[t],
            forall|t: int, u: int| 0 <= t < u < pos.len() ==> pos[t] < pos[u],
            forall|i: int| 0 <= i < out@.len() ==> m.contains_key(#[trigger] out@[i]) && m[out@[i]].leader@ == node_id@,
            forall|j: int|
                #![trigger ks[j]]
                0 <= j < it.index() && m.contains_key(ks[j]) && m[ks[j]].leader@ == node_id@ ==> out@.contains(ks[j]),
    {
        let s = *key;
        let ghost idx = it.index();
        proof {
            assert(ks[idx as int] == s);
            assert(ks.to_set().contains(s));
        }
        let a = state.shard_map.get(&s).unwrap();
        if a.leader.as_str().eq(node_id) {
            let ghost before = out@;
            out.push(s);
            proof {
                pos = pos.push(idx as int);
                assert forall|j: int|
                    #![trigger ks[j]]
                    0 <= j < idx + 1 && m.contains_key(ks[j]) && m[ks[j]].leader@ == node_id@ implies out@.contains(
                    ks[j],
                ) by {
                    if j < idx {
                        let w = choose|w: int| 0 <= w < before.len() && before[w] == ks[j];
                        assert(out@[w] == before[w]);
                    } else {
                        assert(out@[out@.len() - 1] == ks[j]);
                    }
                }
            }
        }
    }
    proof {
        assert forall|s: ShardId| #![trigger m[s]] m.contains_key(s) && m[s].leader@ == node_id@ implies out@.contains(s) by {
            assert(ks.to_set().contains(s));
            let j = choose|j: int| 0 <= j < ks.len() && ks[j] == s;
        }
        assert forall|i: int, j: int| 0 <= i < j < out@.len() implies out@[i] < out@[j] by {
            assert(ks[pos[i]] == out@[i]);
            assert(ks[pos[j]] == out@[j]);
        }
    }
    out
}

} // verus!
