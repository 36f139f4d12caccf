use rutseridb::common::types::{NodeInfo, NodeState};
use rutseridb::gossip::swim::{GossipConfig, GossipEvent, SwimAgent};

fn config() -> GossipConfig {
    GossipConfig { probe_interval_ms: 1000, suspect_timeout_ms: 5000, fanout: 2 }
}

fn info(id: &str) -> NodeInfo {
    NodeInfo { node_id: id.to_string(), addr: format!("{id}:7946"), state: NodeState::Alive }
}

fn state_of(agent: &SwimAgent, id: &str) -> Option<NodeState> {
    agent.members().into_iter().find(|(n, _)| n == id).map(|(_, s)| s)
}

fn agent_with_peers() -> SwimAgent {
    let mut a = SwimAgent::new("self".to_string(), config());
    a.learn(info("self"), 0);
    a.learn(info("b"), 0);
    a.learn(info("c"), 0);
    a
}

#[test]
fn learn_reports_new_nodes_once() {
    let mut a = SwimAgent::new("self".to_string(), config());
    match a.learn(info("b"), 1) {
        Some(GossipEvent::NodeJoined(id, i)) => {
            assert_eq!(id, "b");
            assert_eq!(i.addr, "b:7946");
        },
        other => panic!("expected NodeJoined, got {other:?}"),
    }
    assert!(a.learn(info("b"), 2).is_none());
    assert_eq!(a.members().len(), 1);
}

#[test]
fn probe_target_is_an_alive_peer() {
    let a = agent_with_peers();
    for _ in 0..20 {
        let t = a.probe_target().unwrap();
        assert!(t == "b" || t == "c");
    }
    let lonely = SwimAgent::new("self".to_string(), config());
    assert!(lonely.probe_target().is_none());
    let probers = a.indirect_probers();
    assert_eq!(probers.len(), 2);
    assert_ne!(probers[0], probers[1]);
}

#[test]
fn unanswered_probe_then_timeout_declares_dead() {
    let mut a = agent_with_peers();
    match a.probe_unanswered("b", 1_000) {
        Some(GossipEvent::NodeSuspect(id)) => assert_eq!(id, "b"),
        other => panic!("expected NodeSuspect, got {other:?}"),
    }
    assert_eq!(state_of(&a, "b"), Some(NodeState::Suspect));
    // A second miss keeps the first deadline (1_000 + 5_000).
    assert!(a.probe_unanswered("b", 4_000).is_none());
    assert!(a.expire_suspects(5_999).is_empty());
    assert_eq!(state_of(&a, "b"), Some(NodeState::Suspect));
    let events = a.expire_suspects(6_000);
    assert_eq!(events.len(), 1);
    assert!(matches!(&events[0], GossipEvent::NodeDead(id) if id == "b"));
    assert_eq!(state_of(&a, "b"), Some(NodeState::Dead));
    assert_eq!(state_of(&a, "c"), Some(NodeState::Alive));
    // A Dead node is neither probed nor suspected again.
    assert!(a.probe_unanswered("b", 7_000).is_none());
    for _ in 0..10 {
        assert_eq!(a.probe_target().unwrap(), "c");
    }
}

#[test]
fn answer_refutes_suspicion() {
    let mut a = agent_with_peers();
    a.probe_unanswered("c", 0);
    match a.probe_answered("c") {
        Some(GossipEvent::NodeAlive(id)) => assert_eq!(id, "c"),
        other => panic!("expected NodeAlive, got {other:?}"),
    }
    assert_eq!(state_of(&a, "c"), Some(NodeState::Alive));
    assert!(a.expire_suspects(u64::MAX).is_empty());
    // An answer from an alive node changes nothing.
    assert!(a.probe_answered("b").is_none());
}

#[test]
fn deadline_saturates() {
    let mut a = agent_with_peers();
    a.probe_unanswered("b", u64::MAX - 10);
    assert!(a.expire_suspects(u64::MAX - 1).is_empty());
    assert_eq!(a.expire_suspects(u64::MAX).len(), 1);
}
