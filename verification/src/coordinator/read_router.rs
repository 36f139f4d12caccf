//! Read routing: which nodes serve a read of a shard, by consistency level.
//!
//! - `One`: any single node of the shard (leader or replica), picked at
//!   random;
//! - `Quorum`: a majority of the shard's nodes;
//! - `All`: every node of the shard.
//!
//! Sending the sub-queries and merging their results is the caller's part.
use crate::common::error::RutSeriError;
use crate::common::types::{string_views, ConsistencyLevel, NodeId, ShardAssignment, ShardId};
use crate::coordinator::metadata_catalog::MetadataState;
use vstd::prelude::*;

verus! {

/// The nodes of a shard: its leader, then its replicas.
pub open spec fn shard_nodes(a: ShardAssignment) -> Seq<Seq<char>> {
    seq![a.leader@] + string_views(a.replicas@)
}

/// How many nodes make a majority of `total`.
pub open spec fn quorum_size(total: nat) -> nat {
    total / 2 + 1
}

/// A quorum is the smallest strict majority: more than half of `n`
/// nodes, while one node fewer would be at most half. So any two quorums
/// of the same nodes share a node.
pub proof fn lemma_quorum_is_smallest_majority(n: nat)
    requires
        n >= 1,
    ensures
        2 * quorum_size(n) > n,
        2 * (quorum_size(n) - 1) <= n,
        quorum_size(n) <= n,
        forall|a: Set<int>, b: Set<int>|
            a.finite() && b.finite() && a.subset_of(Set::new(|i: int| 0 <= i < n)) && b.subset_of(
                Set::new(|i: int| 0 <= i < n),
            ) && a.len() >= quorum_size(n) && b.len() >= quorum_size(n) ==> #[trigger] a.intersect(b).len() > 0,
{
    let all = Set::new(|i: int| 0 <= i < n);
    assert(all.finite() && all.len() == n) by {
        vstd::set_lib::lemma_int_range(0, n as int);
        assert(all =~= vstd::set_lib::set_int_range(0, n as int));
    }
    assert forall|a: Set<int>, b: Set<int>|
        a.finite() && b.finite() && a.subset_of(all) && b.subset_of(all) && a.len() >= quorum_size(n) && b.len()
            >= quorum_size(n) implies #[trigger] a.intersect(b).len() > 0 by {
        vstd::set_lib::lemma_set_intersect_union_lens(a, b);
        assert((a + b).subset_of(all));
        vstd::set_lib::lemma_len_subset(a + b, all);
    }
}

/// A random number (`rand::random`). Nothing is stated of it.
#[verifier::external_body]
fn random_u64() -> (r: u64) {
    rand::random::<u64>()
}

/// Chooses the nodes that serve reads at one consistency level.
#[derive(Debug, Clone, Copy)]
pub struct ReadRouter {
    consistency: ConsistencyLevel,
}

impl ReadRouter {
    /// The consistency level of reads.
    pub closed spec fn level(&self) -> ConsistencyLevel {
        self.consistency
    }

    /// A router for reads at `consistency`.
    pub fn new(consistency: ConsistencyLevel) -> (r: ReadRouter)
        ensures
            r.level() == consistency,
    {
        ReadRouter { consistency }
    }

    /// The nodes to read shard `shard_id` from: `LeaderNotFound` when the
    /// shard has no assignment; otherwise, of the shard's nodes (leader
    /// first, then replicas), one picked at random for `One`, the first
    /// majority for `Quorum`, all of them for `All`. The random pick is
    /// `select_read_targets_with` for a random draw.
    pub fn select_read_targets(&self, state: &MetadataState, shard_id: ShardId) -> (r: Result<Vec<NodeId>, RutSeriError>)
        ensures
            !state@.shards.contains_key(shard_id) <==> r is Err,
            r matches Err(e) ==> e == RutSeriError::LeaderNotFound(shard_id),
            r matches Ok(v) ==> {
                let all = shard_nodes(state@.shards[shard_id]);
                match self.level() {
                    ConsistencyLevel::One => v@.len() == 1 && all.contains(v@[0]@),
                    ConsistencyLevel::Quorum => string_views(v@) == all.take(
                        quorum_size(all.len()) as int,
                    ),
                    ConsistencyLevel::All => string_views(v@) == all,
                }
            },
    {
        let draw = random_u64();
        let r = self.select_read_targets_with(state, shard_id, draw);
        proof {
            if r is Ok && self.level() == ConsistencyLevel::One {
                let all = shard_nodes(state@.shards[shard_id]);
                let v = r->Ok_0;
                assert(string_views(v@).len() == 1);
                assert(string_views(v@)[0] == v@[0]@);
                let idx = (draw as int) % (all.len() as int);
                assert(0 <= idx < all.len());
                assert(all.contains(all[idx]));
            }
        }
        r
    }

    /// As `select_read_targets`, with `draw` as the random number: for
    /// `One`, the node at position `draw % n` among the shard's `n` nodes.
    pub fn select_read_targets_with(&self, state: &MetadataState, shard_id: ShardId, draw: u64) -> (r: Result<
        Vec<NodeId>,
        RutSeriError,
    >)
        ensures
            !state@.shards.contains_key(shard_id) <==> r is Err,
            r matches Err(e) ==> e == RutSeriError::LeaderNotFound(shard_id),
            r matches Ok(v) ==> {
                let all = shard_nodes(state@.shards[shard_id]);
                match self.level() {
                    ConsistencyLevel::One => string_views(v@) == seq![all[(draw as int) % (all.len() as int)]],
                    ConsistencyLevel::Quorum => string_views(v@) == all.take(quorum_size(all.len()) as int)
                        && 2 * v@.len() > all.len() && 2 * (v@.len() - 1) <= all.len(),
                    ConsistencyLevel::All => string_views(v@) == all,
                }
            },
    {
        let a = match state.get_shard_leader(shard_id) {
            Some(_) => state.shard_map.get(&shard_id).unwrap(),
            None => {
                return Err(RutSeriError::LeaderNotFound(shard_id));
            },
        };
        let ghost all_nodes = shard_nodes(*a);
        let mut all: Vec<NodeId> = Vec::new();
        all.push(a.leader.clone());
        let n = a.replicas.len();
        let mut i: usize = 0;
        while i < n
            invariant
                n == a.replicas@.len(),
                0 <= i <= n,
                string_views(all@) =~= seq![a.leader@] + string_views(a.replicas@.subrange(0, i as int)),
            decreases n - i,
        {
            let ghost before = all@;
            all.push(a.replicas[i].clone());
            proof {
                assert(string_views(all@) =~= string_views(before).push(a.replicas@[i as int]@));
                assert(string_views(a.replicas@.subrange(0, i + 1)) =~= string_views(
                    a.replicas@.subrange(0, i as int),
                ).push(a.replicas@[i as int]@));
            }
            i = i + 1;
        }
        proof {
            assert(a.replicas@.subrange(0, n as int) =~= a.replicas@);
            assert(string_views(all@) =~= all_nodes);
        }
        match self.consistency {
            ConsistencyLevel::One => {
                let len = all.len();
                let k = (draw % (len as u64)) as usize;
                let pick = all[k].clone();
                let mut out: Vec<NodeId> = Vec::new();
                out.push(pick);
                proof {
                    assert(string_views(all@)[k as int] == all@[k as int]@);
                    assert(string_views(out@) =~= seq![all_nodes[k as int]]);
                }
                Ok(out)
            },
            ConsistencyLevel::Quorum => {
                let q = all.len() / 2 + 1;
                let mut out: Vec<NodeId> = Vec::new();
                let mut j: usize = 0;
                while j < q
                    invariant
                        q == all@.len() / 2 + 1,
                        q <= all@.len(),
                        0 <= j <= q,
                        string_views(out@) =~= string_views(all@).take(j as int),
                    decreases q - j,
                {
                    out.push(all[j].clone());
                    proof {
                        assert(string_views(all@).take(j + 1) =~= string_views(all@).take(j as int).push(
                            all@[j as int]@,
                        ));
                    }
                    j = j + 1;
                }
                Ok(out)
            },
            ConsistencyLevel::All => Ok(all),
        }
    }
}

} // verus!
