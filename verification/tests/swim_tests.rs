use std::collections::HashMap;

use plexspaces_services::swim::{
    ExponentialBackoff, MembershipUpdate, NodeState, SwimConfig, SwimMember, SwimStats,
};
use plexspaces_services::time::{Duration, Instant};

// ============================================================
// ExponentialBackoff
// ============================================================

#[test]
fn test_backoff_initial_delay() {
    let mut backoff = ExponentialBackoff::new();
    let delay = backoff.next_backoff().unwrap();
    assert!(delay >= Duration::from_millis(100));
    assert!(delay <= Duration::from_millis(300));
}

#[test]
fn test_backoff_increases() {
    let mut backoff =
        ExponentialBackoff::with_params(Duration::from_millis(100), Duration::from_secs(10), 20);
    let mut delays = Vec::new();
    for _ in 0..5 {
        delays.push(backoff.next_backoff().unwrap());
    }
    assert!(delays.iter().all(|d| *d <= Duration::from_secs(10)));
}

#[test]
fn test_backoff_respects_cap() {
    let mut backoff = ExponentialBackoff::with_params(
        Duration::from_millis(100),
        Duration::from_millis(500),
        100,
    );
    for _ in 0..50 {
        let delay = backoff.next_backoff().unwrap();
        assert!(delay <= Duration::from_millis(500));
    }
}

#[test]
fn test_backoff_max_attempts() {
    let mut backoff =
        ExponentialBackoff::with_params(Duration::from_millis(10), Duration::from_millis(100), 3);
    assert!(backoff.next_backoff().is_some());
    assert_eq!(backoff.attempts(), 1);
    assert!(backoff.next_backoff().is_some());
    assert_eq!(backoff.attempts(), 2);
    assert!(backoff.next_backoff().is_some());
    assert_eq!(backoff.attempts(), 3);
    assert!(backoff.next_backoff().is_none());
    assert!(backoff.is_exhausted());
}

#[test]
fn test_backoff_reset() {
    let mut backoff =
        ExponentialBackoff::with_params(Duration::from_millis(100), Duration::from_secs(1), 5);
    backoff.next_backoff();
    backoff.next_backoff();
    backoff.next_backoff();
    assert_eq!(backoff.attempts(), 3);
    backoff.reset();
    assert_eq!(backoff.attempts(), 0);
    assert!(!backoff.is_exhausted());
}

#[test]
fn test_backoff_jitter_variance() {
    let mut backoff = ExponentialBackoff::with_params(
        Duration::from_millis(100),
        Duration::from_secs(10),
        1000,
    );
    let mut delays = Vec::new();
    for _ in 0..10 {
        backoff.reset();
        delays.push(backoff.next_backoff().unwrap());
    }
    let first = delays[0];
    let has_variance = delays.iter().any(|d| *d != first);
    assert!(has_variance, "Jitter should provide variance in delays");
}

#[test]
fn test_backoff_unlimited_attempts() {
    let mut backoff =
        ExponentialBackoff::with_params(Duration::from_millis(10), Duration::from_millis(100), 0);
    for _ in 0..100 {
        assert!(backoff.next_backoff().is_some());
    }
    assert!(!backoff.is_exhausted());
}

#[test]
fn test_backoff_delay_never_below_base_when_base_within_cap() {
    let mut backoff =
        ExponentialBackoff::with_params(Duration::from_millis(40), Duration::from_millis(90), 0);
    for _ in 0..30 {
        let d = backoff.next_backoff().unwrap();
        assert!(d >= Duration::from_millis(40));
        assert!(d <= Duration::from_millis(90));
    }
}

#[test]
fn test_backoff_base_above_cap_gives_cap() {
    let mut backoff =
        ExponentialBackoff::with_params(Duration::from_millis(500), Duration::from_millis(200), 2);
    assert_eq!(backoff.next_backoff(), Some(Duration::from_millis(200)));
}

// ============================================================
// NodeState
// ============================================================

#[test]
fn test_node_state_is_active() {
    assert!(NodeState::Alive.is_active());
    assert!(NodeState::Suspect.is_active());
    assert!(!NodeState::Dead.is_active());
    assert!(!NodeState::Left.is_active());
}

#[test]
fn test_node_state_as_str() {
    assert_eq!(NodeState::Alive.as_str(), "alive");
    assert_eq!(NodeState::Suspect.as_str(), "suspect");
    assert_eq!(NodeState::Dead.as_str(), "dead");
    assert_eq!(NodeState::Left.as_str(), "left");
}

#[test]
fn test_node_state_priority() {
    assert!(NodeState::Alive.priority() < NodeState::Suspect.priority());
    assert!(NodeState::Suspect.priority() < NodeState::Dead.priority());
    assert!(NodeState::Dead.priority() < NodeState::Left.priority());
}

#[test]
fn test_node_state_display() {
    assert_eq!(NodeState::Alive.as_str().to_string(), "alive");
    assert_eq!(NodeState::Dead.as_str().to_string(), "dead");
}

// ============================================================
// SwimMember
// ============================================================

#[test]
fn test_member_creation() {
    let member = SwimMember::new("node-1".to_string(), "localhost:8001".to_string());
    assert_eq!(member.node_id, "node-1");
    assert_eq!(member.address, "localhost:8001");
    assert_eq!(member.state, NodeState::Alive);
    assert_eq!(member.incarnation, 0);
    assert_eq!(member.failed_probes, 0);
}

#[test]
fn test_member_with_metadata() {
    let mut metadata = HashMap::new();
    metadata.insert("cluster".to_string(), "test-cluster".to_string());
    let member =
        SwimMember::new("node-1".to_string(), "localhost:8001".to_string()).with_metadata(metadata);
    assert_eq!(member.metadata.get("cluster"), Some(&"test-cluster".to_string()));
}

#[test]
fn test_member_state_update_higher_incarnation() {
    let mut member = SwimMember::new("node-1".to_string(), "localhost:8001".to_string());
    member.incarnation = 5;
    member.state = NodeState::Alive;
    let updated = member.update_state(NodeState::Suspect, 10);
    assert!(updated);
    assert_eq!(member.state, NodeState::Suspect);
    assert_eq!(member.incarnation, 10);
}

#[test]
fn test_member_state_update_lower_incarnation_rejected() {
    let mut member = SwimMember::new("node-1".to_string(), "localhost:8001".to_string());
    member.incarnation = 10;
    member.state = NodeState::Alive;
    let updated = member.update_state(NodeState::Dead, 5);
    assert!(!updated);
    assert_eq!(member.state, NodeState::Alive);
    assert_eq!(member.incarnation, 10);
}

#[test]
fn test_member_state_update_same_incarnation_priority() {
    let mut member = SwimMember::new("node-1".to_string(), "localhost:8001".to_string());
    member.incarnation = 5;
    member.state = NodeState::Suspect;
    let updated = member.update_state(NodeState::Dead, 5);
    assert!(updated);
    assert_eq!(member.state, NodeState::Dead);
    let updated = member.update_state(NodeState::Alive, 5);
    assert!(!updated);
    assert_eq!(member.state, NodeState::Dead);
}

#[test]
fn test_member_update_order_does_not_matter() {
    let updates = [(NodeState::Suspect, 3), (NodeState::Alive, 4), (NodeState::Dead, 4), (NodeState::Left, 2)];
    let mut forward = SwimMember::new("n".to_string(), "a".to_string());
    for (s, i) in updates.iter() {
        forward.update_state(*s, *i);
    }
    let mut backward = SwimMember::new("n".to_string(), "a".to_string());
    for (s, i) in updates.iter().rev() {
        backward.update_state(*s, *i);
    }
    assert_eq!(forward.incarnation, backward.incarnation);
    assert_eq!(forward.state, backward.state);
    assert_eq!(forward.incarnation, 4);
    assert_eq!(forward.state, NodeState::Dead);
}

#[test]
fn test_member_update_idempotent() {
    let mut member = SwimMember::new("n".to_string(), "a".to_string());
    assert!(member.update_state(NodeState::Suspect, 7));
    assert!(!member.update_state(NodeState::Suspect, 7));
    assert_eq!(member.incarnation, 7);
    assert_eq!(member.state, NodeState::Suspect);
}

#[test]
fn test_member_refute() {
    let mut member = SwimMember::new("node-1".to_string(), "localhost:8001".to_string());
    member.incarnation = 5;
    member.state = NodeState::Suspect;
    member.failed_probes = 3;
    member.refute();
    assert_eq!(member.state, NodeState::Alive);
    assert_eq!(member.incarnation, 6);
    assert_eq!(member.failed_probes, 0);
}

#[test]
fn test_member_should_reap() {
    let mut member = SwimMember::new("node-1".to_string(), "localhost:8001".to_string());
    assert!(!member.should_reap(Duration::from_secs(1)));
    member.state = NodeState::Dead;
    member.state_changed_at = Instant::now();
    assert!(!member.should_reap(Duration::from_secs(300)));
}

#[test]
fn test_member_should_reap_at_exact_times() {
    let mut member = SwimMember::new_at("n".to_string(), "a".to_string(), Instant::from_millis(1_000));
    member.state = NodeState::Left;
    assert!(!member.should_reap_at(Duration::from_millis(500), Instant::from_millis(1_500)));
    assert!(member.should_reap_at(Duration::from_millis(500), Instant::from_millis(1_501)));
    member.state = NodeState::Suspect;
    assert!(!member.should_reap_at(Duration::from_millis(500), Instant::from_millis(9_000)));
}

#[test]
fn test_member_probe_success_clears_suspect() {
    let mut member = SwimMember::new("node-1".to_string(), "localhost:8001".to_string());
    member.state = NodeState::Suspect;
    member.failed_probes = 5;
    member.record_probe_success();
    assert_eq!(member.state, NodeState::Alive);
    assert_eq!(member.failed_probes, 0);
    assert!(member.last_probe_success.is_some());
}

#[test]
fn test_member_probe_failure_count() {
    let mut member = SwimMember::new("node-1".to_string(), "localhost:8001".to_string());
    for _ in 0..5 {
        member.record_probe_failure();
    }
    assert_eq!(member.failed_probes, 5);
}

#[test]
fn test_member_probe_failure_saturates() {
    let mut member = SwimMember::new("node-1".to_string(), "localhost:8001".to_string());
    member.failed_probes = u32::MAX;
    member.record_probe_failure();
    assert_eq!(member.failed_probes, u32::MAX);
}

#[test]
fn test_member_time_since_last_success() {
    let member = SwimMember::new("node-1".to_string(), "localhost:8001".to_string());
    let elapsed = member.time_since_last_success();
    assert!(elapsed.is_some());
    assert!(elapsed.unwrap() < Duration::from_secs(1));
}

#[test]
fn test_member_time_since_last_success_at() {
    let member = SwimMember::new_at("n".to_string(), "a".to_string(), Instant::from_millis(2_000));
    assert_eq!(member.time_since_last_success_at(Instant::from_millis(2_750)), Some(Duration::from_millis(750)));
    assert_eq!(member.time_since_last_success_at(Instant::from_millis(1_000)), Some(Duration::from_millis(0)));
}

// ============================================================
// MembershipUpdate
// ============================================================

#[test]
fn test_membership_update_creation() {
    let update = MembershipUpdate::new("node-1".to_string(), NodeState::Alive, 5);
    assert_eq!(update.node_id, "node-1");
    assert_eq!(update.state, NodeState::Alive);
    assert_eq!(update.incarnation, 5);
    assert!(update.address.is_none());
    assert_eq!(update.broadcast_count, 0);
}

#[test]
fn test_membership_update_with_address() {
    let update = MembershipUpdate::new("node-1".to_string(), NodeState::Alive, 5)
        .with_address("localhost:8001".to_string());
    assert_eq!(update.address, Some("localhost:8001".to_string()));
}

#[test]
fn test_membership_update_should_drop() {
    let mut update = MembershipUpdate::new("node-1".to_string(), NodeState::Alive, 0);
    assert!(!update.should_drop(5));
    update.broadcast_count = 5;
    assert!(update.should_drop(5));
    update.broadcast_count = 4;
    assert!(!update.should_drop(5));
}

#[test]
fn test_membership_update_age() {
    let update = MembershipUpdate::new("node-1".to_string(), NodeState::Alive, 0);
    let age = update.age();
    assert!(age < Duration::from_secs(1));
}

// ============================================================
// SwimConfig
// ============================================================

#[test]
fn test_config_default_values() {
    let config = SwimConfig::default();
    assert_eq!(config.protocol_period, Duration::from_secs(1));
    assert_eq!(config.probe_timeout, Duration::from_millis(500));
    assert_eq!(config.indirect_ping_nodes, 3);
    assert_eq!(config.suspicion_mult, 4);
}

#[test]
fn test_config_bound_suspicion_timeout() {
    let config = SwimConfig {
        suspicion_min: Duration::from_secs(1),
        suspicion_max: Duration::from_secs(10),
        ..Default::default()
    };
    assert_eq!(config.bound_suspicion_timeout(Duration::from_millis(10)), Duration::from_secs(1));
    assert_eq!(config.bound_suspicion_timeout(Duration::from_millis(4_500)), Duration::from_millis(4_500));
    assert_eq!(config.bound_suspicion_timeout(Duration::from_secs(99)), Duration::from_secs(10));
}

// ============================================================
// SwimStats
// ============================================================

#[test]
fn test_stats_creation() {
    let stats = SwimStats::new();
    assert_eq!(stats.direct_pings, 0);
    assert_eq!(stats.joins, 0);
}

#[test]
fn test_stats_snapshot() {
    let mut stats = SwimStats::new();
    stats.direct_pings = 100;
    stats.joins = 10;
    let snapshot = stats.snapshot();
    assert_eq!(snapshot.direct_pings, 100);
    assert_eq!(snapshot.joins, 10);
}

#[test]
fn test_stats_atomic_increments() {
    let mut stats = SwimStats::new();
    for _ in 0..100 {
        stats.direct_pings += 1;
    }
    assert_eq!(stats.direct_pings, 100);
}
