//! SWIM failure detection: the decisions of the probe loop.
//!
//! Every probe interval the agent picks a random alive peer and pings it;
//! without an ACK it asks `fanout` peers to ping the target for it; when
//! no ACK comes back at all, the target becomes Suspect, and a Suspect
//! that stays unanswered until its suspect deadline becomes Dead. An ACK
//! from a Suspect refutes the suspicion. Sleeping, sending the probes and
//! publishing the events are the caller's part.
use crate::common::strmap::StrMap;
use crate::common::types::{NodeId, NodeInfo, NodeState};
use crate::gossip::membership::{
    listed_ids, peer_ids, upserted, with_state, MemberMap, MembershipTable,
};
use vstd::prelude::*;

verus! {

/// Events emitted by SWIM gossip; the cluster manager acts on them.
#[derive(Debug, Clone)]
pub enum GossipEvent {
    /// A node was confirmed alive (direct or indirect ACK).
    NodeAlive(NodeId),
    /// A node is suspected down (no direct or indirect ACK).
    NodeSuspect(NodeId),
    /// A node was declared dead once the suspect timeout expired.
    NodeDead(NodeId),
    /// A new node joined the cluster.
    NodeJoined(NodeId, NodeInfo),
}

/// Timing and fan-out of the SWIM probe loop.
#[derive(Debug, Clone, Copy)]
pub struct GossipConfig {
    /// Time between two probes, in milliseconds.
    pub probe_interval_ms: u64,
    /// How long a Suspect may stay unanswered before it is declared Dead,
    /// in milliseconds.
    pub suspect_timeout_ms: u64,
    /// How many peers are asked to probe a target that did not answer.
    pub fanout: usize,
}

/// The SWIM agent of one node: its membership table and the deadline of
/// each suspicion it raised.
pub struct SwimAgent {
    node_id: NodeId,
    config: GossipConfig,
    membership: MembershipTable,
    deadlines: StrMap<u64>,
}

/// `a + b`, or `u64::MAX` when the sum does not fit.
pub open spec fn saturating_sum(a: u64, b: u64) -> u64 {
    if a + b > u64::MAX {
        u64::MAX
    } else {
        (a + b) as u64
    }
}

/// Whether the node `k` is due to be declared Dead at `now`: it is a
/// Suspect whose deadline has passed.
pub open spec fn expires(m: MemberMap, d: Map<Seq<char>, u64>, now: u64, k: Seq<char>) -> bool {
    &&& m.contains_key(k)
    &&& m[k].0.state == NodeState::Suspect
    &&& d.contains_key(k)
    &&& d[k] <= now
}

/// The table once every due Suspect is declared Dead.
pub open spec fn after_expiry(m: MemberMap, d: Map<Seq<char>, u64>, now: u64) -> MemberMap {
    Map::new(
        |k: Seq<char>| m.contains_key(k),
        |k: Seq<char>|
            if expires(m, d, now, k) {
                (NodeInfo { state: NodeState::Dead, ..m[k].0 }, m[k].1)
            } else {
                m[k]
            },
    )
}

/// The node a liveness event names.
pub open spec fn event_node(e: GossipEvent) -> Seq<char> {
    match e {
        GossipEvent::NodeAlive(id) => id@,
        GossipEvent::NodeSuspect(id) => id@,
        GossipEvent::NodeDead(id) => id@,
        GossipEvent::NodeJoined(id, _) => id@,
    }
}

/// A copy of a node's description.
fn copy_info(info: &NodeInfo) -> (r: NodeInfo)
    ensures
        r == *info,
{
    NodeInfo { node_id: info.node_id.clone(), addr: info.addr.clone(), state: info.state }
}

impl SwimAgent {
    /// This node's ID.
    pub closed spec fn self_id(&self) -> Seq<char> {
        self.node_id@
    }

    /// The agent's timing and fan-out.
    pub closed spec fn settings(&self) -> GossipConfig {
        self.config
    }

    /// The membership table.
    pub closed spec fn table(&self) -> MemberMap {
        self.membership.members()
    }

    /// The deadline of each suspicion this agent raised.
    pub closed spec fn suspect_deadlines(&self) -> Map<Seq<char>, u64> {
        self.deadlines.view_map()
    }

    /// An agent for `node_id` that knows no other node yet.
    pub fn new(node_id: NodeId, config: GossipConfig) -> (r: SwimAgent)
        ensures
            r.self_id() == node_id@,
            r.settings() == config,
            r.table() == MemberMap::empty(),
            r.suspect_deadlines() == Map::<Seq<char>, u64>::empty(),
    {
        SwimAgent { node_id, config, membership: MembershipTable::new(), deadlines: StrMap::new() }
    }

    /// Every known node with its state, each once.
    pub fn members(&self) -> (r: Vec<(NodeId, NodeState)>)
        ensures
            listed_ids(r@).no_duplicates(),
            listed_ids(r@).to_set() == self.table().dom(),
            forall|t: int| 0 <= t < r@.len() ==> (#[trigger] r@[t]).1 == self.table()[r@[t].0@].0.state,
    {
        self.membership.snapshot()
    }

    /// Takes in what gossip says of a node at `incarnation` (see
    /// `upserted`). An update that is taken ends any suspicion this agent
    /// raised about the node; a node seen for the first time gives
    /// `NodeJoined`.
    pub fn learn(&mut self, info: NodeInfo, incarnation: u64) -> (r: Option<GossipEvent>)
        ensures
            final(self).self_id() == old(self).self_id(),
            final(self).settings() == old(self).settings(),
            final(self).table() == upserted(old(self).table(), info, incarnation),
            final(self).suspect_deadlines() == (if !old(self).table().contains_key(info.node_id@) || incarnation
                >= old(self).table()[info.node_id@].1 {
                old(self).suspect_deadlines().remove(info.node_id@)
            } else {
                old(self).suspect_deadlines()
            }),
            r == (if old(self).table().contains_key(info.node_id@) {
                None
            } else {
                Some(GossipEvent::NodeJoined(info.node_id, info))
            }),
    {
        let known = self.membership.state_of(info.node_id.as_str());
        let held = self.incarnation_of(info.node_id.as_str());
        let taken = match held {
            None => true,
            Some(h) => incarnation >= h,
        };
        if taken {
            self.deadlines.remove(info.node_id.as_str());
        }
        let event = match known {
            None => Some(GossipEvent::NodeJoined(info.node_id.clone(), copy_info(&info))),
            Some(_) => None,
        };
        self.membership.upsert(info, incarnation);
        event
    }

    /// The incarnation held for a known node.
    fn incarnation_of(&self, node_id: &str) -> (r: Option<u64>)
        ensures
            r == (if self.table().contains_key(node_id@) {
                Some(self.table()[node_id@].1)
            } else {
                None
            }),
    {
        self.membership.incarnation_of(node_id)
    }

    /// The peer to probe next: a random alive node other than this one;
    /// `None` when there is none.
    pub fn probe_target(&self) -> (r: Option<NodeId>)
        ensures
            r is None <==> peer_ids(self.table(), self.self_id()).len() == 0,
            r matches Some(p) ==> peer_ids(self.table(), self.self_id()).contains(p@),
    {
        self.membership.random_peer(self.node_id.as_str())
    }

    /// The peers asked to probe a target that did not answer: `fanout`
    /// random alive nodes other than this one (all of them when there are
    /// fewer), each once.
    pub fn indirect_probers(&self) -> (r: Vec<NodeId>)
        ensures
            r@.len() == if self.settings().fanout <= peer_ids(self.table(), self.self_id()).len() {
                self.settings().fanout as int
            } else {
                peer_ids(self.table(), self.self_id()).len() as int
            },
            forall|i: int| 0 <= i < r@.len() ==> peer_ids(self.table(), self.self_id()).contains(#[trigger] r@[i]@),
            forall|i: int, j: int| 0 <= i < j < r@.len() ==> r@[i]@ != r@[j]@,
    {
        self.membership.random_peers(self.node_id.as_str(), self.config.fanout)
    }

    /// An ACK came from `target`, directly or through a peer. A Suspect is
    /// alive again (`NodeAlive`) and its suspicion ends; for any other node
    /// nothing changes.
    pub fn probe_answered(&mut self, target: &str) -> (r: Option<GossipEvent>)
        ensures
            final(self).self_id() == old(self).self_id(),
            final(self).settings() == old(self).settings(),
            old(self).table().contains_key(target@) && old(self).table()[target@].0.state == NodeState::Suspect
                ==> {
                &&& final(self).table() == with_state(old(self).table(), target@, NodeState::Alive)
                &&& final(self).suspect_deadlines() == old(self).suspect_deadlines().remove(target@)
                &&& r matches Some(GossipEvent::NodeAlive(id)) && id@ == target@
            },
            !(old(self).table().contains_key(target@) && old(self).table()[target@].0.state
                == NodeState::Suspect) ==> {
                &&& final(self).table() == old(self).table()
                &&& final(self).suspect_deadlines() == old(self).suspect_deadlines()
                &&& r is None
            },
    {
        match self.membership.state_of(target) {
            Some(NodeState::Suspect) => {
                self.membership.mark_alive(target);
                self.deadlines.remove(target);
                Some(GossipEvent::NodeAlive(target.to_owned()))
            },
            _ => None,
        }
    }

    /// Neither `target` nor any peer asked for it answered by `now_ms`. An
    /// Alive target becomes Suspect (`NodeSuspect`) with the deadline
    /// `now_ms + suspect_timeout_ms` (saturating); a target already Suspect
    /// keeps its deadline, and a Dead or unknown one is left as it is.
    pub fn probe_unanswered(&mut self, target: &str, now_ms: u64) -> (r: Option<GossipEvent>)
        ensures
            final(self).self_id() == old(self).self_id(),
            final(self).settings() == old(self).settings(),
            old(self).table().contains_key(target@) && old(self).table()[target@].0.state == NodeState::Alive
                ==> {
                &&& final(self).table() == with_state(old(self).table(), target@, NodeState::Suspect)
                &&& final(self).suspect_deadlines() == old(self).suspect_deadlines().insert(
                    target@,
                    saturating_sum(now_ms, old(self).settings().suspect_timeout_ms),
                )
                &&& r matches Some(GossipEvent::NodeSuspect(id)) && id@ == target@
            },
            !(old(self).table().contains_key(target@) && old(self).table()[target@].0.state
                == NodeState::Alive) ==> {
                &&& final(self).table() == old(self).table()
                &&& final(self).suspect_deadlines() == old(self).suspect_deadlines()
                &&& r is None
            },
    {
        match self.membership.state_of(target) {
            Some(NodeState::Alive) => {
                self.membership.mark_suspect(target);
                let deadline = now_ms.saturating_add(self.config.suspect_timeout_ms);
                self.deadlines.insert(target.to_owned(), deadline);
                Some(GossipEvent::NodeSuspect(target.to_owned()))
            },
            _ => None,
        }
    }

    /// Declares Dead every Suspect whose deadline has passed at `now_ms`
    /// (see `expires`), with one `NodeDead` per such node; every other node
    /// keeps its state.
    pub fn expire_suspects(&mut self, now_ms: u64) -> (r: Vec<GossipEvent>)
        ensures
            final(self).self_id() == old(self).self_id(),
            final(self).settings() == old(self).settings(),
            final(self).suspect_deadlines() == old(self).suspect_deadlines(),
            final(self).table() == after_expiry(old(self).table(), old(self).suspect_deadlines(), now_ms),
            forall|i: int| 0 <= i < r@.len() ==> (#[trigger] r@[i]) is NodeDead,
            forall|i: int, j: int| 0 <= i < j < r@.len() ==> event_node(r@[i]) != event_node(r@[j]),
            forall|k: Seq<char>|
                expires(old(self).table(), old(self).suspect_deadlines(), now_ms, k) <==> exists|i: int|
                    0 <= i < r@.len() && event_node(#[trigger] r@[i]) == k,
    {
        let ghost m = self.table();
        let ghost d = self.suspect_deadlines();
        let ghost p = due_in(m, d, now_ms);
        let listed = self.membership.snapshot();
        let ghost ids = listed_ids(listed@);
        let mut events: Vec<GossipEvent> = Vec::new();
        let n = listed.len();
        let mut i: usize = 0;
        proof {
            reveal(Seq::filter);
            assert(ids.subrange(0, 0).filter(p) =~= Seq::<Seq<char>>::empty());
            assert(event_nodes(events@) =~= Seq::<Seq<char>>::empty());
        }
        while i < n
            invariant
                n == listed@.len(),
                ids == listed_ids(listed@),
                ids.no_duplicates(),
                ids.to_set() == m.dom(),
                p == due_in(m, d, now_ms),
                forall|t: int| 0 <= t < listed@.len() ==> (#[trigger] listed@[t]).1 == m[listed@[t].0@].0.state,
                self.suspect_deadlines() == d,
                self.self_id() == old(self).self_id(),
                self.settings() == old(self).settings(),
                0 <= i <= n,
                self.table() == Map::new(
                    |k: Seq<char>| m.contains_key(k),
                    |k: Seq<char>|
                        if ids.subrange(0, i as int).contains(k) && expires(m, d, now_ms, k) {
                            (NodeInfo { state: NodeState::Dead, ..m[k].0 }, m[k].1)
                        } else {
                            m[k]
                        },
                ),
                forall|e: int| 0 <= e < events@.len() ==> (#[trigger] events@[e]) is NodeDead,
                event_nodes(events@) == ids.subrange(0, i as int).filter(p),
            decreases n - i,
        {
            let id = &listed[i].0;
            let state = listed[i].1;
            let ghost k = id@;
            let ghost old_done = ids.subrange(0, i as int);
            let ghost done = ids.subrange(0, i + 1);
            proof {
                assert(ids[i as int] == k);
                assert(ids.to_set().contains(k));
                assert(done =~= old_done.push(k));
                assert(!old_done.contains(k)) by {
                    if old_done.contains(k) {
                        let j = choose|j: int| 0 <= j < i && old_done[j] == k;
                        assert(ids[j] == ids[i as int]);
                    }
                }
            }
            let due = match state {
                NodeState::Suspect => match self.deadlines.get(id.as_str()) {
                    Some(dl) => *dl <= now_ms,
                    None => false,
                },
                _ => false,
            };
            assert(due == expires(m, d, now_ms, k));
            let ghost before = self.table();
            let ghost before_events = events@;
            if due {
                self.membership.mark_dead(id.as_str());
                events.push(GossipEvent::NodeDead(id.clone()));
            }
            proof {
                let target = Map::new(
                    |j: Seq<char>| m.contains_key(j),
                    |j: Seq<char>|
                        if done.contains(j) && expires(m, d, now_ms, j) {
                            (NodeInfo { state: NodeState::Dead, ..m[j].0 }, m[j].1)
                        } else {
                            m[j]
                        },
                );
                assert forall|j: Seq<char>| #[trigger] done.contains(j) <==> old_done.contains(j) || j == k by {
                    if done.contains(j) && j != k {
                        let x = choose|x: int| 0 <= x < done.len() && done[x] == j;
                        assert(old_done[x] == j);
                    }
                    if old_done.contains(j) {
                        let x = choose|x: int| 0 <= x < old_done.len() && old_done[x] == j;
                        assert(done[x] == j);
                    }
                    if j == k {
                        assert(done[i as int] == k);
                    }
                }
                assert(before[k] == m[k]);
                assert forall|j: Seq<char>| m.contains_key(j) implies #[trigger] self.table()[j] == target[j] by {
                    if j != k {
                        assert(self.table()[j] == before[j]);
                    }
                }
                assert(self.table().dom() =~= target.dom());
                assert(self.table() =~= target);
                reveal(Seq::filter);
                assert(done.drop_last() =~= old_done);
                if due {
                    assert(event_nodes(events@) =~= event_nodes(before_events).push(k));
                } else {
                    assert(event_nodes(events@) =~= event_nodes(before_events));
                }
            }
            i = i + 1;
        }
        proof {
            assert(ids.subrange(0, n as int) =~= ids);
            assert(self.table() =~= after_expiry(m, d, now_ms)) by {
                assert forall|k: Seq<char>| expires(m, d, now_ms, k) implies ids.contains(k) by {
                    assert(ids.to_set().contains(k));
                }
            }
            let dead = event_nodes(events@);
            lemma_filter_keeps_distinct(ids, p);
            assert forall|a: int, b: int| 0 <= a < b < events@.len() implies event_node(events@[a]) != event_node(
                events@[b],
            ) by {
                assert(dead[a] == event_node(events@[a]));
                assert(dead[b] == event_node(events@[b]));
            }
            assert forall|k: Seq<char>|
                expires(m, d, now_ms, k) <==> exists|e: int| 0 <= e < events@.len() && event_node(#[trigger] events@[e]) == k by {
                if expires(m, d, now_ms, k) {
                    assert(ids.to_set().contains(k));
                    let x = choose|x: int| 0 <= x < ids.len() && ids[x] == k;
                    ids.lemma_filter_contains(p, x);
                    let e = choose|e: int| 0 <= e < dead.len() && dead[e] == k;
                    assert(event_node(events@[e]) == k);
                }
                if exists|e: int| 0 <= e < events@.len() && event_node(#[trigger] events@[e]) == k {
                    let e = choose|e: int| 0 <= e < events@.len() && event_node(#[trigger] events@[e]) == k;
                    assert(dead[e] == k);
                    ids.lemma_filter_pred(p, e);
                }
            }
        }
        events
    }
}

/// The due-suspect test as a predicate on node IDs.
pub open spec fn due_in(m: MemberMap, d: Map<Seq<char>, u64>, now: u64) -> spec_fn(Seq<char>) -> bool {
    |k: Seq<char>| expires(m, d, now, k)
}

/// The nodes that a list of events names.
pub open spec fn event_nodes(es: Seq<GossipEvent>) -> Seq<Seq<char>> {
    es.map_values(|e: GossipEvent| event_node(e))
}

/// Filtering a list without repeats gives a list without repeats.
proof fn lemma_filter_keeps_distinct(s: Seq<Seq<char>>, p: spec_fn(Seq<char>) -> bool)
    requires
        s.no_duplicates(),
    ensures
        s.filter(p).no_duplicates(),
    decreases s.len(),
{
    reveal(Seq::filter);
    if s.len() > 0 {
        let rest = s.drop_last();
        assert(rest.no_duplicates()) by {
            assert forall|i: int, j: int| 0 <= i < rest.len() && 0 <= j < rest.len() && i != j implies rest[i]
                != rest[j] by {
                assert(rest[i] == s[i] && rest[j] == s[j]);
            }
        }
        lemma_filter_keeps_distinct(rest, p);
        if p(s.last()) {
            let f = rest.filter(p);
            assert(!f.contains(s.last())) by {
                if f.contains(s.last()) {
                    rest.lemma_filter_contains_rev(p, s.last());
                    let i = choose|i: int| 0 <= i < rest.len() && rest[i] == s.last();
                    assert(s[i] == s[s.len() - 1]);
                }
            }
            assert forall|i: int, j: int| 0 <= i < f.len() + 1 && 0 <= j < f.len() + 1 && i != j implies f.push(
                s.last(),
            )[i] != f.push(s.last())[j] by {
                if i == f.len() {
                    assert(f[j] == f.push(s.last())[j]);
                } else if j == f.len() {
                    assert(f[i] == f.push(s.last())[i]);
                }
            }
        }
    }
}

/// A suspicion runs its full course: a node that became Suspect at `t`
/// (by `probe_unanswered`) is still Suspect after any expiry run before
/// `t + suspect_timeout`, and Dead after a run at or past it.
pub proof fn lemma_dead_only_after_timeout(m: MemberMap, d: Map<Seq<char>, u64>, k: Seq<char>, t: u64, timeout: u64, now: u64)
    requires
        m.contains_key(k),
        m[k].0.state == NodeState::Alive,
    ensures
        ({
            let m2 = with_state(m, k, NodeState::Suspect);
            let d2 = d.insert(k, saturating_sum(t, timeout));
            &&& now < saturating_sum(t, timeout) ==> after_expiry(m2, d2, now)[k].0.state == NodeState::Suspect
            &&& now >= saturating_sum(t, timeout) ==> after_expiry(m2, d2, now)[k].0.state == NodeState::Dead
        }),
{
}

/// Expiry only ever turns Suspects into Dead nodes: it keeps every node and
/// incarnation, and a node that is not a due Suspect keeps its state.
pub proof fn lemma_expiry_changes_only_due_suspects(m: MemberMap, d: Map<Seq<char>, u64>, now: u64, k: Seq<char>)
    ensures
        after_expiry(m, d, now).dom() == m.dom(),
        m.contains_key(k) ==> after_expiry(m, d, now)[k].1 == m[k].1,
        m.contains_key(k) && !expires(m, d, now, k) ==> after_expiry(m, d, now)[k] == m[k],
        m.contains_key(k) && expires(m, d, now, k) ==> after_expiry(m, d, now)[k].0.state == NodeState::Dead,
{
    assert(after_expiry(m, d, now).dom() =~= m.dom());
}

} // verus!
