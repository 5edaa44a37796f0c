use plexspaces_services::node_registry::{
    LocalLookup, NodeRegistry, NodeRegistryConfig, NodeStatus, PingReconciliation,
    ProtoDbBackoffConfig, ProtoNodeRegistryConfig, ProtoSwimConfig, DEFAULT_ACTIVE_NODE_WINDOW_MILLIS,
    DEFAULT_CACHE_TTL_SECONDS, MAX_PROBE_AGE_MILLIS,
};
use plexspaces_services::swim::{NodeState, SwimMember};
use plexspaces_services::time::{Duration, Instant};

// ============================================================
// Configuration messages
// ============================================================

#[test]
fn test_config_from_proto_defaults() {
    let config = NodeRegistry::config_from_proto(None);

    assert_eq!(config.cache_ttl, Duration::from_secs(DEFAULT_CACHE_TTL_SECONDS));
    assert!(config.gossip_enabled);
    assert!(!config.use_shared_db);
    assert_eq!(config.db_max_attempts, 10);
    assert_eq!(
        config.active_node_window,
        Duration::from_millis(DEFAULT_ACTIVE_NODE_WINDOW_MILLIS)
    );
}

#[test]
fn test_config_from_proto_with_values() {
    let proto_config = ProtoNodeRegistryConfig {
        cache_ttl_seconds: 120,
        gossip_enabled: true,
        swim: Some(ProtoSwimConfig {
            protocol_period_ms: 2000,
            probe_timeout_ms: 1000,
            indirect_ping_nodes: 5,
            suspicion_multiplier: 6,
            suspicion_min_ms: 5000,
            suspicion_max_ms: 60000,
            dead_node_reap_seconds: 600,
            max_piggyback_updates: 20,
            broadcast_limit: 10,
            anti_entropy_interval_seconds: 60,
        }),
        use_shared_db: true,
        db_sync_interval_seconds: 60,
        active_node_window_seconds: 7200,
        db_backoff: Some(ProtoDbBackoffConfig {
            base_delay_ms: 200,
            max_delay_ms: 60000,
            max_attempts: 5,
        }),
    };

    let config = NodeRegistry::config_from_proto(Some(&proto_config));

    assert_eq!(config.cache_ttl, Duration::from_secs(120));
    assert!(config.gossip_enabled);
    assert_eq!(config.swim_config.protocol_period, Duration::from_millis(2000));
    assert_eq!(config.swim_config.probe_timeout, Duration::from_millis(1000));
    assert_eq!(config.swim_config.indirect_ping_nodes, 5);
    assert_eq!(config.swim_config.suspicion_mult, 6);
    assert_eq!(config.swim_config.suspicion_min, Duration::from_millis(5000));
    assert_eq!(config.swim_config.suspicion_max, Duration::from_millis(60000));
    assert_eq!(config.swim_config.dead_node_reap_timeout, Duration::from_secs(600));
    assert_eq!(config.swim_config.max_piggyback_updates, 20);
    assert_eq!(config.swim_config.broadcast_limit, 10);
    assert_eq!(config.swim_config.anti_entropy_interval, Duration::from_secs(60));
    assert!(config.use_shared_db);
    assert_eq!(config.db_sync_interval, Duration::from_secs(60));
    assert_eq!(config.active_node_window, Duration::from_secs(7200));
    assert_eq!(config.db_backoff_base, Duration::from_millis(200));
    assert_eq!(config.db_backoff_cap, Duration::from_millis(60000));
    assert_eq!(config.db_max_attempts, 5);
}

#[test]
fn test_config_from_proto_partial() {
    let proto_config = ProtoNodeRegistryConfig {
        cache_ttl_seconds: 30,
        gossip_enabled: false,
        ..Default::default()
    };

    let config = NodeRegistry::config_from_proto(Some(&proto_config));

    assert_eq!(config.cache_ttl, Duration::from_secs(30));
    assert!(!config.gossip_enabled);
    assert!(!config.use_shared_db);
    assert_eq!(config.db_max_attempts, 10);
    assert_eq!(
        config.active_node_window,
        Duration::from_millis(DEFAULT_ACTIVE_NODE_WINDOW_MILLIS)
    );
}

#[test]
fn test_swim_config_from_proto() {
    let proto = ProtoSwimConfig {
        protocol_period_ms: 500,
        probe_timeout_ms: 250,
        indirect_ping_nodes: 2,
        suspicion_multiplier: 3,
        suspicion_min_ms: 1000,
        suspicion_max_ms: 15000,
        dead_node_reap_seconds: 120,
        max_piggyback_updates: 5,
        broadcast_limit: 3,
        anti_entropy_interval_seconds: 15,
    };

    let config = NodeRegistry::swim_config_from_proto(&proto);

    assert_eq!(config.protocol_period, Duration::from_millis(500));
    assert_eq!(config.probe_timeout, Duration::from_millis(250));
    assert_eq!(config.indirect_ping_nodes, 2);
    assert_eq!(config.suspicion_mult, 3);
    assert_eq!(config.suspicion_min, Duration::from_millis(1000));
    assert_eq!(config.suspicion_max, Duration::from_millis(15000));
    assert_eq!(config.dead_node_reap_timeout, Duration::from_secs(120));
    assert_eq!(config.max_piggyback_updates, 5);
    assert_eq!(config.broadcast_limit, 3);
    assert_eq!(config.anti_entropy_interval, Duration::from_secs(15));
}

#[test]
fn test_config_from_proto_active_node_window() {
    let proto_config = ProtoNodeRegistryConfig {
        active_node_window_seconds: 7200,
        ..Default::default()
    };

    let config = NodeRegistry::config_from_proto(Some(&proto_config));
    assert_eq!(config.active_node_window, Duration::from_secs(7200));
}

#[test]
fn backoff_without_attempts_keeps_default_attempts() {
    let proto_config = ProtoNodeRegistryConfig {
        db_backoff: Some(ProtoDbBackoffConfig {
            base_delay_ms: 0,
            max_delay_ms: 900,
            max_attempts: 0,
        }),
        ..Default::default()
    };

    let config = NodeRegistry::config_from_proto(Some(&proto_config));
    assert_eq!(config.db_backoff_base, Duration::from_millis(100));
    assert_eq!(config.db_backoff_cap, Duration::from_millis(900));
    assert_eq!(config.db_max_attempts, 10);
}

#[test]
fn simple_registry_uses_given_gossip_settings() {
    let registry = NodeRegistry::new_simple("n1".to_string(), Some(5), Some(false), Some(250), Some(7));
    let config = registry.config();
    assert_eq!(config.cache_ttl, Duration::from_secs(5));
    assert!(!config.gossip_enabled);
    assert_eq!(config.swim_config.protocol_period, Duration::from_millis(250));
    assert_eq!(config.swim_config.indirect_ping_nodes, 7);
    assert_eq!(registry.swim().local_node_id(), "n1");
    assert_eq!(registry.swim().local_address(), "");
}

#[test]
fn test_gossip_protocol_disabled() {
    let config = NodeRegistryConfig {
        gossip_enabled: false,
        ..Default::default()
    };
    let mut registry = NodeRegistry::new("n1".to_string(), "localhost:1".to_string(), config);
    assert!(!registry.start_gossip_protocol());
    assert!(!registry.is_gossip_running());
    assert!(!registry.swim().is_running());
}

#[test]
fn gossip_starts_and_stops() {
    let mut registry =
        NodeRegistry::new("n1".to_string(), "localhost:1".to_string(), NodeRegistryConfig::default());
    assert!(registry.start_gossip_protocol());
    assert!(registry.is_gossip_running());
    assert!(!registry.start_gossip_protocol());
    registry.swim_mut().start();
    registry.stop_gossip_protocol();
    assert!(!registry.is_gossip_running());
    assert!(!registry.swim().is_running());
}

// ============================================================
// Probing and registrations
// ============================================================

#[test]
fn test_should_probe_member_skips_old_heartbeat() {
    let mut member = SwimMember::new("node-1".to_string(), "http://localhost:8001".to_string());
    let now = Instant::now();
    member.last_probe_success = Some(Instant::from_nanos(
        now.nanos - ((MAX_PROBE_AGE_MILLIS + 1_000) as u128) * 1_000_000,
    ));

    assert!(!NodeRegistry::should_probe_member(&member));
}

#[test]
fn recently_probed_members_are_probed() {
    let mut member = SwimMember::new("node-1".to_string(), "http://localhost:8001".to_string());
    let now = Instant::from_millis(100_000_000);
    assert!(NodeRegistry::should_probe_member_at(&member, now));
    member.last_probe_success = Some(Instant::from_millis(100_000_000 - MAX_PROBE_AGE_MILLIS));
    assert!(NodeRegistry::should_probe_member_at(&member, now));
    member.last_probe_success = Some(Instant::from_millis(100_000_000 - MAX_PROBE_AGE_MILLIS - 1));
    assert!(!NodeRegistry::should_probe_member_at(&member, now));
}

#[test]
fn member_becomes_registration() {
    let mut member = SwimMember::new_at(
        "node-7".to_string(),
        "http://localhost:8007".to_string(),
        Instant::from_millis(1_700_000_000_123),
    );
    member.state = NodeState::Suspect;
    member.failed_probes = 2;
    member.last_probe_success = Some(Instant::from_millis(1_700_000_000_123));

    let registration = NodeRegistry::swim_member_to_node_registration(&member);
    assert_eq!(registration.node_id, "node-7");
    assert_eq!(registration.node_address, "http://localhost:8007");
    assert_eq!(registration.status, NodeStatus::Busy);
    assert_eq!(registration.error_count, 2);
    let heartbeat = registration.last_heartbeat.unwrap();
    assert_eq!(heartbeat.seconds, 1_700_000_000);
    assert_eq!(heartbeat.nanos, 123_000_000);
    assert!(registration.registered_at.is_none());
}

#[test]
fn test_is_unknown_node_id() {
    assert!(NodeRegistry::is_unknown_node_id("_unknown_seed"));
    assert!(!NodeRegistry::is_unknown_node_id("node-1"));
    assert!(!NodeRegistry::is_unknown_node_id("x_unknown_"));
}

#[test]
fn registry_looks_like_address() {
    assert!(NodeRegistry::looks_like_address("localhost:8091"));
    assert!(NodeRegistry::looks_like_address("http://host"));
    assert!(NodeRegistry::looks_like_address("https://host"));
    assert!(!NodeRegistry::looks_like_address("node-1"));
}

// ============================================================
// Ping answers
// ============================================================

#[test]
fn test_reconcile_ping_response_replaces_unknown_node_id() {
    let target = SwimMember::new("_unknown_test".to_string(), "http://localhost:8002".to_string());
    match NodeRegistry::reconcile_ping_decision(&target, "node-2", "http://localhost:8122", "cluster-a", "cluster-a") {
        PingReconciliation::Register { node_id, node_address, cluster_label, drop_placeholder } => {
            assert_eq!(node_id, "node-2");
            assert_eq!(node_address, "http://localhost:8122");
            assert_eq!(cluster_label, "cluster-a");
            assert!(drop_placeholder);
        }
        PingReconciliation::ClusterMismatch => panic!("clusters match"),
    }
}

#[test]
fn test_reconcile_ping_response_removes_cluster_mismatch() {
    let target = SwimMember::new("_unknown_test".to_string(), "http://localhost:8003".to_string());
    let decision =
        NodeRegistry::reconcile_ping_decision(&target, "node-3", "http://localhost:8123", "cluster-b", "cluster-a");
    assert!(matches!(decision, PingReconciliation::ClusterMismatch));
}

#[test]
fn test_reconcile_ping_response_stamps_local_cluster_when_remote_empty() {
    let target = SwimMember::new("_unknown_test".to_string(), "http://localhost:8005".to_string());
    match NodeRegistry::reconcile_ping_decision(&target, "node-without-remote-cluster", "http://localhost:8125", "", "heat") {
        PingReconciliation::Register { node_id, cluster_label, drop_placeholder, .. } => {
            assert_eq!(node_id, "node-without-remote-cluster");
            assert_eq!(cluster_label, "heat");
            assert!(drop_placeholder);
        }
        PingReconciliation::ClusterMismatch => panic!("no remote cluster reported"),
    }
}

#[test]
fn ping_answer_without_identity_keeps_target() {
    let target = SwimMember::new("node-9".to_string(), "http://localhost:8009".to_string());
    match NodeRegistry::reconcile_ping_decision(&target, "", "", "", "") {
        PingReconciliation::Register { node_id, node_address, cluster_label, drop_placeholder } => {
            assert_eq!(node_id, "node-9");
            assert_eq!(node_address, "http://localhost:8009");
            assert_eq!(cluster_label, "");
            assert!(!drop_placeholder);
        }
        PingReconciliation::ClusterMismatch => panic!("no clusters given"),
    }
}

// ============================================================
// Local lookups
// ============================================================

#[test]
fn lookup_local_uses_swim_membership() {
    let mut registry =
        NodeRegistry::new("local".to_string(), "localhost:1".to_string(), NodeRegistryConfig::default());
    registry
        .swim_mut()
        .upsert_member(SwimMember::new("node-a".to_string(), "http://a:1".to_string()));
    let mut dead = SwimMember::new("node-d".to_string(), "http://d:1".to_string());
    dead.state = NodeState::Dead;
    registry.swim_mut().upsert_member(dead);

    match registry.lookup_local("node-a", None) {
        LocalLookup::Found(r) => {
            assert_eq!(r.node_id, "node-a");
            assert_eq!(r.status, NodeStatus::Ready);
        }
        _ => panic!("alive member must be found"),
    }
    assert!(matches!(registry.lookup_local("node-d", None), LocalLookup::Gone));
    assert!(matches!(registry.lookup_local("node-x", None), LocalLookup::Unknown));
}

#[test]
fn lookup_local_prefers_cached_registration() {
    let mut registry =
        NodeRegistry::new("local".to_string(), "localhost:1".to_string(), NodeRegistryConfig::default());
    registry
        .swim_mut()
        .upsert_member(SwimMember::new("node-a".to_string(), "http://a:1".to_string()));
    let mut cached_member = SwimMember::new("node-a".to_string(), "http://cached:1".to_string());
    cached_member.state = NodeState::Dead;
    let cached = NodeRegistry::swim_member_to_node_registration(&cached_member);

    match registry.lookup_local("node-a", Some(cached)) {
        LocalLookup::Found(r) => {
            assert_eq!(r.node_address, "http://cached:1");
            assert_eq!(r.status, NodeStatus::Stopped);
        }
        _ => panic!("cached registration must win"),
    }
}
