use plexspaces_services::swim::{NodeState, SwimConfig, SwimMember};
use plexspaces_services::swim_protocol::SwimProtocol;
use plexspaces_services::swim_round::{DirectPingOutcome, DirectPingStep, ProbeResult};
use plexspaces_services::time::{Duration, Instant};

fn protocol_with(n: usize) -> (SwimProtocol, Instant) {
    let mut p = SwimProtocol::new("local".to_string(), "l:1".to_string(), SwimConfig::default());
    let t0 = Instant::from_millis(10_000);
    for i in 0..n {
        p.upsert_member_at(SwimMember::new_at(format!("n{}", i), format!("h:{}", i), t0), t0);
    }
    (p, t0)
}

#[test]
fn answered_probe_is_alive_or_failed() {
    let (mut p, t0) = protocol_with(2);
    let target = p.get_member("n0").unwrap();
    assert!(matches!(
        p.after_direct_ping_at(&target, DirectPingOutcome::Answered { reconciled: true }, t0),
        DirectPingStep::Done(ProbeResult::Alive)
    ));
    assert!(matches!(
        p.after_direct_ping_at(&target, DirectPingOutcome::Answered { reconciled: false }, t0),
        DirectPingStep::Done(ProbeResult::Failed)
    ));
    assert_eq!(p.get_member("n0").unwrap().state, NodeState::Alive);
}

#[test]
fn unanswered_probe_without_intermediaries_suspects() {
    let (mut p, t0) = protocol_with(1);
    let target = p.get_member("n0").unwrap();
    assert!(matches!(
        p.after_direct_ping_at(&target, DirectPingOutcome::NoAnswer, t0),
        DirectPingStep::Done(ProbeResult::Suspect)
    ));
    assert_eq!(p.get_member("n0").unwrap().state, NodeState::Suspect);
}

#[test]
fn unanswered_probe_asks_intermediaries() {
    let (mut p, t0) = protocol_with(5);
    let target = p.get_member("n0").unwrap();
    match p.after_direct_ping_at(&target, DirectPingOutcome::NoAnswer, t0) {
        DirectPingStep::AskIntermediaries(v) => {
            assert_eq!(v.len(), 3);
            assert!(v.iter().all(|m| m.node_id != "n0" && m.node_id != "local"));
        }
        _ => panic!("intermediaries expected"),
    }
    assert_eq!(p.get_member("n0").unwrap().state, NodeState::Alive);

    assert_eq!(p.after_indirect_pings_at(&target, false, t0), ProbeResult::Suspect);
    assert_eq!(p.get_member("n0").unwrap().state, NodeState::Suspect);
}

#[test]
fn an_intermediary_reaching_the_target_keeps_it_alive() {
    let (mut p, t0) = protocol_with(3);
    let target = p.get_member("n1").unwrap();
    assert_eq!(p.after_indirect_pings_at(&target, true, t0), ProbeResult::Alive);
    let m = p.get_member("n1").unwrap();
    assert_eq!(m.state, NodeState::Alive);
    assert!(m.last_probe_success.is_none() || m.last_probe_success == Some(t0));
}

#[test]
fn end_of_round_declares_dead_and_reaps() {
    let config = SwimConfig { dead_node_reap_timeout: Duration::from_millis(1_000), ..Default::default() };
    let mut p = SwimProtocol::new("local".to_string(), "l:1".to_string(), config);
    let t0 = Instant::from_millis(10_000);
    p.upsert_member_at(SwimMember::new_at("s".to_string(), "h:1".to_string(), t0), t0);
    p.suspect_member_at("s", t0);

    p.end_round_at(Duration::from_millis(500), Instant::from_millis(10_600));
    assert_eq!(p.get_member("s").unwrap().state, NodeState::Dead);

    p.end_round_at(Duration::from_millis(500), Instant::from_millis(11_700));
    assert!(p.get_member("s").is_none());
}
