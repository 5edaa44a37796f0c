use plexspaces_services::swim::{MembershipUpdate, NodeState, SwimConfig, SwimMember};
use plexspaces_services::swim_protocol::SwimProtocol;
use plexspaces_services::time::{Duration, Instant};

fn local_protocol() -> SwimProtocol {
    SwimProtocol::new(
        "local-node".to_string(),
        "localhost:8000".to_string(),
        SwimConfig::default(),
    )
}

// ============================================================
// SwimProtocol
// ============================================================

#[test]
fn test_protocol_creation() {
    let protocol = local_protocol();

    assert_eq!(protocol.local_node_id(), "local-node");
    assert_eq!(protocol.local_address(), "localhost:8000");
    assert_eq!(protocol.local_incarnation(), 0);
    assert_eq!(protocol.cluster_size(), 1);
    assert!(!protocol.is_running());
}

#[test]
fn test_protocol_start_stop() {
    let mut protocol = local_protocol();

    assert!(!protocol.is_running());
    protocol.start();
    assert!(protocol.is_running());
    protocol.stop();
    assert!(!protocol.is_running());
}

#[test]
fn test_protocol_upsert_member() {
    let mut protocol = local_protocol();

    let member = SwimMember::new("node-1".to_string(), "localhost:8001".to_string());
    protocol.upsert_member(member);

    let retrieved = protocol.get_member("node-1");
    assert!(retrieved.is_some());
    assert_eq!(retrieved.unwrap().node_id, "node-1");
}

#[test]
fn test_protocol_upsert_member_updates_incarnation() {
    let mut protocol = local_protocol();

    let mut member1 = SwimMember::new("node-1".to_string(), "localhost:8001".to_string());
    member1.incarnation = 5;
    protocol.upsert_member(member1);

    let mut member2 = SwimMember::new("node-1".to_string(), "localhost:8001".to_string());
    member2.incarnation = 10;
    protocol.upsert_member(member2);

    let retrieved = protocol.get_member("node-1").unwrap();
    assert_eq!(retrieved.incarnation, 10);
}

#[test]
fn upsert_with_lower_incarnation_keeps_known_member() {
    let mut protocol = local_protocol();

    let mut member1 = SwimMember::new("node-1".to_string(), "localhost:8001".to_string());
    member1.incarnation = 10;
    protocol.upsert_member(member1);

    let mut member2 = SwimMember::new("node-1".to_string(), "localhost:9999".to_string());
    member2.incarnation = 3;
    protocol.upsert_member(member2);

    let retrieved = protocol.get_member("node-1").unwrap();
    assert_eq!(retrieved.incarnation, 10);
    assert_eq!(retrieved.address, "localhost:8001");
}

#[test]
fn test_protocol_alive_members() {
    let mut protocol = local_protocol();

    let member1 = SwimMember::new("node-1".to_string(), "localhost:8001".to_string());
    protocol.upsert_member(member1);

    let mut member2 = SwimMember::new("node-2".to_string(), "localhost:8002".to_string());
    member2.state = NodeState::Suspect;
    protocol.upsert_member(member2);

    let mut member3 = SwimMember::new("node-3".to_string(), "localhost:8003".to_string());
    member3.state = NodeState::Dead;
    protocol.upsert_member(member3);

    let alive = protocol.alive_members();
    assert_eq!(alive.len(), 1);
    assert_eq!(alive[0].node_id, "node-1");

    let active = protocol.active_members();
    assert_eq!(active.len(), 2);
}

#[test]
fn test_protocol_member_counts() {
    let mut protocol = local_protocol();

    let member1 = SwimMember::new("node-1".to_string(), "localhost:8001".to_string());
    protocol.upsert_member(member1);

    let mut member2 = SwimMember::new("node-2".to_string(), "localhost:8002".to_string());
    member2.state = NodeState::Suspect;
    protocol.upsert_member(member2);

    let counts = protocol.member_counts();
    assert_eq!(counts.get(&NodeState::Alive).unwrap(), 1);
    assert_eq!(counts.get(&NodeState::Suspect).unwrap(), 1);
    assert_eq!(counts.get(&NodeState::Dead).unwrap(), 0);
}

#[test]
fn test_protocol_suspect_member() {
    let mut protocol = local_protocol();

    let member = SwimMember::new("node-1".to_string(), "localhost:8001".to_string());
    protocol.upsert_member(member);

    protocol.suspect_member("node-1");

    let retrieved = protocol.get_member("node-1").unwrap();
    assert_eq!(retrieved.state, NodeState::Suspect);
    assert_eq!(protocol.stats().snapshot().suspicions, 1);
}

#[test]
fn suspect_member_ignores_members_that_are_not_alive() {
    let mut protocol = local_protocol();

    let mut member = SwimMember::new("node-1".to_string(), "localhost:8001".to_string());
    member.state = NodeState::Dead;
    protocol.upsert_member(member);

    protocol.suspect_member("node-1");
    protocol.suspect_member("nobody");

    assert_eq!(protocol.get_member("node-1").unwrap().state, NodeState::Dead);
    assert_eq!(protocol.stats().snapshot().suspicions, 0);
}

#[test]
fn test_protocol_declare_dead() {
    let mut protocol = local_protocol();

    let member = SwimMember::new("node-1".to_string(), "localhost:8001".to_string());
    protocol.upsert_member(member);

    protocol.declare_dead("node-1");

    let retrieved = protocol.get_member("node-1").unwrap();
    assert_eq!(retrieved.state, NodeState::Dead);
    assert_eq!(protocol.stats().snapshot().deaths, 1);
}

#[test]
fn test_protocol_remove_member_silently() {
    let mut protocol = local_protocol();

    let member = SwimMember::new("_unknown_seed".to_string(), "localhost:8001".to_string());
    protocol.upsert_member(member);

    protocol.remove_member_silently("_unknown_seed");

    assert!(protocol.get_member("_unknown_seed").is_none());
}

#[test]
fn test_protocol_refute_self_suspicion() {
    let mut protocol = local_protocol();

    let initial_incarnation = protocol.local_incarnation();

    protocol.process_suspect("local-node", 0);

    let new_incarnation = protocol.local_incarnation();
    assert!(new_incarnation > initial_incarnation);
}

#[test]
fn refutation_is_queued_for_broadcast() {
    let mut protocol = local_protocol();

    protocol.process_suspect("local-node", 7);

    assert_eq!(protocol.local_incarnation(), 1);
    assert_eq!(protocol.stats().snapshot().refutations, 1);
    let updates = protocol.get_piggyback_updates_within(3);
    assert_eq!(updates.len(), 1);
    assert_eq!(updates[0].node_id, "local-node");
    assert_eq!(updates[0].state, NodeState::Alive);
    assert_eq!(updates[0].incarnation, 1);
}

#[test]
fn test_protocol_process_alive() {
    let mut protocol = local_protocol();

    protocol.process_alive("node-1", 5, "localhost:8001");

    let member = protocol.get_member("node-1").unwrap();
    assert_eq!(member.state, NodeState::Alive);
    assert_eq!(member.incarnation, 5);
}

#[test]
fn process_suspect_of_remote_member_needs_recent_incarnation() {
    let mut protocol = local_protocol();
    protocol.process_alive("node-1", 5, "localhost:8001");

    protocol.process_suspect("node-1", 4);
    assert_eq!(protocol.get_member("node-1").unwrap().state, NodeState::Alive);

    protocol.process_suspect("node-1", 5);
    let member = protocol.get_member("node-1").unwrap();
    assert_eq!(member.state, NodeState::Suspect);
    assert_eq!(member.incarnation, 5);
}

#[test]
fn test_protocol_select_probe_target() {
    let mut protocol = local_protocol();

    assert!(protocol.select_probe_target().is_none());

    let member = SwimMember::new("node-1".to_string(), "localhost:8001".to_string());
    protocol.upsert_member(member);

    let target = protocol.select_probe_target();
    assert!(target.is_some());
    assert_eq!(target.unwrap().node_id, "node-1");
}

#[test]
fn probe_targets_rotate_through_members() {
    let mut protocol = local_protocol();
    for i in 1..=3 {
        protocol.upsert_member(SwimMember::new(format!("node-{}", i), format!("localhost:800{}", i)));
    }

    let mut seen = Vec::new();
    for _ in 0..3 {
        seen.push(protocol.select_probe_target().unwrap().node_id);
    }
    seen.sort();
    assert_eq!(seen, vec!["node-1", "node-2", "node-3"]);
}

#[test]
fn test_protocol_select_indirect_targets() {
    let mut protocol = local_protocol();

    for i in 1..=5 {
        let member = SwimMember::new(format!("node-{}", i), format!("localhost:800{}", i));
        protocol.upsert_member(member);
    }

    let targets = protocol.select_indirect_targets("node-1");

    assert!(targets.len() <= 3);
    assert!(targets.iter().all(|t| t.node_id != "node-1"));
    assert!(targets.iter().all(|t| t.node_id != "local-node"));
}

#[test]
fn indirect_targets_take_exactly_the_configured_number() {
    let mut protocol = local_protocol();
    for i in 1..=5 {
        protocol.upsert_member(SwimMember::new(format!("node-{}", i), format!("localhost:800{}", i)));
    }

    let targets = protocol.select_indirect_targets("node-1");
    assert_eq!(targets.len(), 3);
    let mut ids: Vec<String> = targets.iter().map(|t| t.node_id.clone()).collect();
    ids.sort();
    ids.dedup();
    assert_eq!(ids.len(), 3);
}

#[test]
fn test_protocol_piggyback_updates() {
    let mut protocol = local_protocol();

    let member = SwimMember::new("node-1".to_string(), "localhost:8001".to_string());
    protocol.upsert_member(member);

    // With two members the effective broadcast limit of the default
    // configuration is ceil(3 * ln 3) = 4.
    let updates = protocol.get_piggyback_updates_within(4);
    assert!(!updates.is_empty());
    assert_eq!(updates[0].node_id, "node-1");
}

#[test]
fn piggyback_updates_are_dropped_after_the_broadcast_limit() {
    let mut protocol = local_protocol();
    protocol.upsert_member(SwimMember::new("node-1".to_string(), "localhost:8001".to_string()));

    assert_eq!(protocol.get_piggyback_updates_within(2).len(), 1);
    assert_eq!(protocol.get_piggyback_updates_within(2).len(), 1);
    assert!(protocol.get_piggyback_updates_within(2).is_empty());
    assert_eq!(protocol.stats().snapshot().updates_broadcast, 2);
}

#[test]
fn test_protocol_apply_updates() {
    let mut protocol = local_protocol();

    let updates = vec![MembershipUpdate::new("node-1".to_string(), NodeState::Alive, 5)
        .with_address("localhost:8001".to_string())];

    protocol.apply_updates(updates);

    let member = protocol.get_member("node-1");
    assert!(member.is_some());
    assert_eq!(member.unwrap().incarnation, 5);
}

#[test]
fn test_protocol_full_state_sync() {
    let mut protocol1 = SwimProtocol::new(
        "node-1".to_string(),
        "localhost:8001".to_string(),
        SwimConfig::default(),
    );
    let mut protocol2 = SwimProtocol::new(
        "node-2".to_string(),
        "localhost:8002".to_string(),
        SwimConfig::default(),
    );

    let member3 = SwimMember::new("node-3".to_string(), "localhost:8003".to_string());
    protocol1.upsert_member(member3);

    let state = protocol1.get_full_state();
    protocol2.merge_full_state(state);

    let member = protocol2.get_member("node-3");
    assert!(member.is_some());
}

#[test]
fn merge_keeps_the_newer_incarnation() {
    let mut protocol = local_protocol();
    let mut known = SwimMember::new("node-1".to_string(), "localhost:8001".to_string());
    known.incarnation = 9;
    protocol.upsert_member(known);

    let mut stale = SwimMember::new("node-1".to_string(), "localhost:8001".to_string());
    stale.incarnation = 2;
    stale.state = NodeState::Dead;
    let mut fresh = SwimMember::new("node-2".to_string(), "localhost:8002".to_string());
    fresh.incarnation = 4;
    protocol.merge_full_state(vec![stale, fresh]);

    let m1 = protocol.get_member("node-1").unwrap();
    assert_eq!(m1.incarnation, 9);
    assert_eq!(m1.state, NodeState::Alive);
    assert_eq!(protocol.get_member("node-2").unwrap().incarnation, 4);
}

#[test]
fn test_protocol_cluster_size() {
    let mut protocol = local_protocol();

    assert_eq!(protocol.cluster_size(), 1);

    let member1 = SwimMember::new("node-1".to_string(), "localhost:8001".to_string());
    protocol.upsert_member(member1);
    assert_eq!(protocol.cluster_size(), 2);

    let mut member2 = SwimMember::new("node-2".to_string(), "localhost:8002".to_string());
    member2.state = NodeState::Dead;
    protocol.upsert_member(member2);
    assert_eq!(protocol.cluster_size(), 2);
}

#[test]
fn test_protocol_health_status() {
    let mut protocol = local_protocol();

    let member = SwimMember::new("node-1".to_string(), "localhost:8001".to_string());
    protocol.upsert_member(member);

    let health = protocol.health_status();
    assert!(!health.is_running);
    assert_eq!(health.total_members, 1);
    assert_eq!(health.alive_members, 1);
    assert_eq!(health.suspect_members, 0);
    assert_eq!(health.dead_members, 0);
}

#[test]
fn test_protocol_record_ping() {
    let mut protocol = local_protocol();

    protocol.record_direct_ping(true, Duration::from_millis(10));
    protocol.record_direct_ping(false, Duration::from_millis(500));

    let stats = protocol.stats().snapshot();
    assert_eq!(stats.direct_pings, 2);
    assert_eq!(stats.direct_ping_success, 1);
    assert_eq!(stats.direct_ping_failed, 1);
}

#[test]
fn indirect_pings_and_rounds_are_counted() {
    let mut protocol = local_protocol();

    protocol.record_indirect_ping(true);
    protocol.record_indirect_ping(false);
    protocol.record_indirect_ping(false);
    protocol.record_round_completed(Duration::from_millis(3));

    let stats = protocol.stats().snapshot();
    assert_eq!(stats.indirect_pings, 3);
    assert_eq!(stats.indirect_ping_success, 1);
    assert_eq!(stats.indirect_ping_failed, 2);
    assert_eq!(stats.rounds_completed, 1);
}

// ============================================================
// Edge cases
// ============================================================

#[test]
fn test_edge_case_empty_cluster() {
    let mut protocol = local_protocol();

    assert!(protocol.select_probe_target().is_none());
    assert!(protocol.select_indirect_targets("any").is_empty());
    let timeout = protocol.config().suspicion_min;
    protocol.check_suspect_timeouts(timeout);
    protocol.reap_dead_nodes();
}

#[test]
fn test_edge_case_single_node_cluster() {
    let mut protocol = local_protocol();

    let member = SwimMember::new("node-1".to_string(), "localhost:8001".to_string());
    protocol.upsert_member(member);

    let targets = protocol.select_indirect_targets("node-1");
    assert!(targets.is_empty());
}

#[test]
fn test_edge_case_incarnation_overflow() {
    let mut protocol = local_protocol();

    let mut member = SwimMember::new("node-1".to_string(), "localhost:8001".to_string());
    member.incarnation = u64::MAX - 1;
    protocol.upsert_member(member);

    protocol.process_alive("node-1", u64::MAX, "localhost:8001");

    let updated = protocol.get_member("node-1").unwrap();
    assert_eq!(updated.incarnation, u64::MAX);
}

#[test]
fn test_edge_case_rapid_state_changes() {
    let mut protocol = local_protocol();

    let member = SwimMember::new("node-1".to_string(), "localhost:8001".to_string());
    protocol.upsert_member(member);

    for i in 0..100 {
        if i % 2 == 0 {
            protocol.suspect_member("node-1");
        } else {
            protocol.process_alive("node-1", i as u64, "localhost:8001");
        }
    }

    let final_member = protocol.get_member("node-1").unwrap();
    assert!(final_member.incarnation > 0);
}

#[test]
fn test_edge_case_duplicate_updates() {
    let mut protocol = local_protocol();

    let member = SwimMember::new("node-1".to_string(), "localhost:8001".to_string());
    protocol.upsert_member(member.clone());
    protocol.upsert_member(member.clone());
    protocol.upsert_member(member);

    let members = protocol.alive_members();
    assert_eq!(members.len(), 1);
}

#[test]
fn test_edge_case_self_operations() {
    let mut protocol = local_protocol();

    let self_member = SwimMember::new("local-node".to_string(), "localhost:8000".to_string());
    protocol.upsert_member(self_member);

    let target = protocol.select_probe_target();
    assert!(target.is_none() || target.as_ref().unwrap().node_id != "local-node");
}

#[test]
fn test_edge_case_concurrent_upserts() {
    let mut protocol = local_protocol();

    for i in 0..10 {
        for j in 0..100 {
            let member = SwimMember::new(
                format!("node-{}-{}", i, j),
                format!("localhost:{}", 8000 + i * 100 + j),
            );
            protocol.upsert_member(member);
        }
    }

    let count = protocol.cluster_size();
    assert_eq!(count, 1001);
}

#[test]
fn test_reap_timing() {
    let config = SwimConfig {
        dead_node_reap_timeout: Duration::from_millis(50),
        ..Default::default()
    };
    let mut protocol = SwimProtocol::new(
        "local-node".to_string(),
        "localhost:8000".to_string(),
        config,
    );

    let t0 = Instant::from_millis(1_000);
    let member = SwimMember::new_at("node-1".to_string(), "localhost:8001".to_string(), t0);
    protocol.upsert_member_at(member, t0);
    protocol.declare_dead_at("node-1", t0);

    protocol.reap_dead_nodes_at(Duration::from_millis(50), Instant::from_millis(1_010));
    assert!(protocol.get_member("node-1").is_some());

    protocol.reap_dead_nodes_at(Duration::from_millis(50), Instant::from_millis(1_100));
    assert!(protocol.get_member("node-1").is_none());
    assert_eq!(protocol.stats().snapshot().reaps, 1);
}

#[test]
fn suspects_past_the_timeout_are_declared_dead() {
    let mut protocol = local_protocol();
    let t0 = Instant::from_millis(5_000);
    protocol.upsert_member_at(SwimMember::new_at("node-1".to_string(), "a:1".to_string(), t0), t0);
    protocol.upsert_member_at(SwimMember::new_at("node-2".to_string(), "a:2".to_string(), t0), t0);
    protocol.suspect_member_at("node-1", t0);

    protocol.check_suspect_timeouts_at(Duration::from_millis(100), Instant::from_millis(5_050));
    assert_eq!(protocol.get_member("node-1").unwrap().state, NodeState::Suspect);

    protocol.check_suspect_timeouts_at(Duration::from_millis(100), Instant::from_millis(5_101));
    assert_eq!(protocol.get_member("node-1").unwrap().state, NodeState::Dead);
    assert_eq!(protocol.get_member("node-2").unwrap().state, NodeState::Alive);
}
