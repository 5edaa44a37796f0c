use plexspaces_services::node_directory::{effective_cluster, listing_cluster, registration_from_ping};
use plexspaces_services::node_registry::{NodeRegistryConfig, NodeRegistry};
use std::collections::HashMap;

use plexspaces_services::node_directory::{
    lookup_by_address, object_registration_is_recent, persisted_registration, recent_node_registrations,
    reconcile_registration_aliases, registration_member_at, reports_missing_object, stored_namespace,
    timestamp_within_age, RegistryEntry,
};
use plexspaces_services::node_listing::ListedNode;
use plexspaces_services::node_service::disconnect_error_is_idempotent;
use plexspaces_services::node_registry::{NodeRegistration, NodeRole, NodeStatus, Timestamp};
use plexspaces_services::swim::NodeState;
use plexspaces_services::time::{Duration, Instant};

fn registration(id: &str, address: &str, caps: &[(&str, &str)]) -> NodeRegistration {
    NodeRegistration {
        node_role: NodeRole::Full,
        node_id: id.to_string(),
        node_address: address.to_string(),
        capabilities: caps.iter().map(|(k, v)| (k.to_string(), v.to_string())).collect::<HashMap<_, _>>(),
        status: NodeStatus::Ready,
        last_heartbeat: None,
        error_count: 0,
        registered_at: None,
    }
}

fn known_node(id: &str, key: &str) -> ListedNode {
    ListedNode { registration: registration(id, &format!("http://{}", key), &[]), address_key: key.to_string() }
}

fn ts(seconds: i64) -> Timestamp {
    Timestamp { seconds, nanos: 0 }
}

#[test]
fn heartbeats_within_the_window_are_recent() {
    let now = ts(1_000);
    let window = Duration::from_secs(60);
    assert!(timestamp_within_age(Some(ts(940)), window, now));
    assert!(!timestamp_within_age(Some(Timestamp { seconds: 939, nanos: 999_999_999 }), window, now));
    assert!(timestamp_within_age(Some(ts(2_000)), window, now));
    assert!(!timestamp_within_age(None, window, now));
    assert!(timestamp_within_age(Some(Timestamp { seconds: -5, nanos: -1 }), Duration::from_secs(1_000), now));
}

#[test]
fn stale_registry_entries_are_not_listed() {
    let now = ts(100_000);
    let window = Duration::from_secs(300);
    let fresh = RegistryEntry { node: known_node("fresh-node", "10.0.0.1:9000"), last_heartbeat: Some(ts(99_900)) };
    let stale = RegistryEntry { node: known_node("stale-node", "10.0.0.2:9000"), last_heartbeat: Some(ts(10_000)) };
    let silent = RegistryEntry { node: known_node("silent-node", "10.0.0.3:9000"), last_heartbeat: None };
    assert!(object_registration_is_recent(&fresh, window, now));
    assert!(!object_registration_is_recent(&stale, window, now));
    let nodes = recent_node_registrations(&vec![fresh, stale, silent], window, now, None);
    assert_eq!(nodes.len(), 1);
    assert_eq!(nodes[0].node_id, "fresh-node");
}

#[test]
fn recent_entries_prefer_a_concrete_node_per_address() {
    let now = ts(100);
    let window = Duration::from_secs(60);
    let entries = vec![
        RegistryEntry { node: known_node("_unknown_seed", "localhost:9001"), last_heartbeat: Some(ts(90)) },
        RegistryEntry { node: known_node("node-a", "localhost:9001"), last_heartbeat: Some(ts(95)) },
        RegistryEntry { node: known_node("node-b", "localhost:9002"), last_heartbeat: Some(ts(95)) },
        RegistryEntry { node: known_node("node-c", "localhost:9002"), last_heartbeat: Some(ts(95)) },
    ];
    let nodes = recent_node_registrations(&entries, window, now, None);
    let ids: Vec<&str> = nodes.iter().map(|n| n.node_id.as_str()).collect();
    assert_eq!(ids, vec!["node-a", "node-b"]);
}

#[test]
fn recent_entries_are_filtered_by_cluster() {
    let now = ts(100);
    let window = Duration::from_secs(60);
    let entry = |id: &str, key: &str, cluster: Option<&str>| {
        let caps: Vec<(&str, &str)> = cluster.map(|c| vec![("cluster", c)]).unwrap_or_default();
        RegistryEntry {
            node: ListedNode { registration: registration(id, key, &caps), address_key: key.to_string() },
            last_heartbeat: Some(ts(99)),
        }
    };
    let entries = vec![
        entry("heat-1", "h:1", Some("heat")),
        entry("cold-1", "h:2", Some("cold")),
        entry("none-1", "h:3", None),
    ];
    let heat = recent_node_registrations(&entries, window, now, Some("heat"));
    assert_eq!(heat.len(), 1);
    assert_eq!(heat[0].node_id, "heat-1");
    assert_eq!(recent_node_registrations(&entries, window, now, None).len(), 3);
    assert!(recent_node_registrations(&entries, window, now, Some("warm")).is_empty());
}

#[test]
fn lookups_by_address_prefer_swim_and_concrete_nodes() {
    let swim = vec![known_node("_unknown_a", "k:1"), known_node("node-1", "k:1"), known_node("node-2", "k:2")];
    let cache = vec![known_node("_unknown_c", "k:3"), known_node("node-3", "k:3"), known_node("node-9", "k:1")];
    assert_eq!(lookup_by_address(&swim, &cache, "k:1").unwrap().node_id, "node-1");
    assert_eq!(lookup_by_address(&swim, &cache, "k:3").unwrap().node_id, "node-3");
    let only_placeholder = vec![known_node("_unknown_z", "k:7")];
    assert_eq!(lookup_by_address(&only_placeholder, &vec![], "k:7").unwrap().node_id, "_unknown_z");
    assert!(lookup_by_address(&swim, &cache, "k:404").is_none());
}

#[test]
fn a_concrete_registration_replaces_a_placeholder_at_its_address() {
    let known = vec![known_node("_unknown_seed", "localhost:9001"), known_node("other", "localhost:9002")];
    let r = reconcile_registration_aliases(&known, "node-concrete", "localhost:9001");
    assert!(r.accept);
    assert_eq!(r.remove, vec!["_unknown_seed".to_string()]);
}

#[test]
fn a_second_concrete_node_at_an_address_is_refused() {
    let known = vec![known_node("node-a", "localhost:9001")];
    let r = reconcile_registration_aliases(&known, "node-b", "localhost:9001");
    assert!(!r.accept);
    assert!(r.remove.is_empty());

    let r = reconcile_registration_aliases(&known, "_unknown_new", "localhost:9001");
    assert!(!r.accept);

    let r = reconcile_registration_aliases(&known, "node-a", "localhost:9001");
    assert!(r.accept);
    assert!(r.remove.is_empty());
}

#[test]
fn reconciliation_stops_at_the_first_refusal() {
    let known = vec![
        known_node("_unknown_1", "k:1"),
        known_node("node-x", "k:1"),
        known_node("_unknown_2", "k:1"),
    ];
    let r = reconcile_registration_aliases(&known, "node-y", "k:1");
    assert!(!r.accept);
    assert_eq!(r.remove, vec!["_unknown_1".to_string()]);
}

#[test]
fn thin_registrations_mark_the_swim_member() {
    let mut thin = registration("thin-node-1", "localhost:9001", &[("zone", "z1")]);
    thin.node_role = NodeRole::Thin;
    let m = registration_member_at(&thin, Instant::from_millis(5_000));
    assert_eq!(m.node_id, "thin-node-1");
    assert_eq!(m.state, NodeState::Alive);
    assert_eq!(m.incarnation, 0);
    assert_eq!(m.metadata.get("node_type").map(|s| s.as_str()), Some("thin"));
    assert_eq!(m.metadata.get("zone").map(|s| s.as_str()), Some("z1"));

    let full = registration("full-node-1", "localhost:9002", &[("zone", "z2")]);
    let m = registration_member_at(&full, Instant::from_millis(5_000));
    assert!(m.metadata.get("node_type").is_none());
    assert_eq!(m.metadata.len(), 1);
}

#[test]
fn thin_nodes_without_address_are_stored_under_a_ws_placeholder() {
    let mut thin = registration("thin-7", "", &[]);
    thin.node_role = NodeRole::Thin;
    assert_eq!(persisted_registration(&thin).node_address, "ws://thin-7");
    let full = registration("full-7", "", &[]);
    assert_eq!(persisted_registration(&full).node_address, "");
    let mut thin_with_address = registration("thin-8", "localhost:1", &[]);
    thin_with_address.node_role = NodeRole::Thin;
    assert_eq!(persisted_registration(&thin_with_address).node_address, "localhost:1");
}

#[test]
fn unregistration_finds_the_stored_namespace() {
    let discovered = vec![
        ("node-1".to_string(), "heat".to_string()),
        ("node-2".to_string(), "".to_string()),
        ("node-1".to_string(), "cold".to_string()),
    ];
    assert_eq!(stored_namespace(&discovered, "node-1"), "heat");
    assert_eq!(stored_namespace(&discovered, "node-2"), "");
    assert_eq!(stored_namespace(&discovered, "node-3"), "");
}

#[test]
fn missing_objects_are_recognised_in_failure_messages() {
    assert!(disconnect_error_is_idempotent("object not found"));
    assert!(disconnect_error_is_idempotent("NotFound: node-1"));
    assert!(!disconnect_error_is_idempotent("Not Found"));
    assert!(!disconnect_error_is_idempotent("database locked"));

    assert!(reports_missing_object("Object NOT FOUND"));
    assert!(reports_missing_object("Registration Does Not Exist"));
    assert!(!reports_missing_object("timeout"));
}

#[test]
fn registry_operations_use_the_named_or_local_cluster() {
    assert_eq!(effective_cluster(Some("heat"), "local"), Some("heat".to_string()));
    assert_eq!(effective_cluster(Some(""), "local"), Some("local".to_string()));
    assert_eq!(effective_cluster(None, "local"), Some("local".to_string()));
    assert_eq!(effective_cluster(None, ""), None);
}

#[test]
fn registry_nodes_join_swim_only_when_unknown() {
    let mut registry = NodeRegistry::new("local".to_string(), "l:1".to_string(), NodeRegistryConfig::default());
    let now = Instant::from_millis(1_000);
    let mut thin = registration("thin-1", "t:1", &[]);
    thin.node_role = NodeRole::Thin;
    assert!(registry.adopt_registered_node_at(&thin, now));
    let m = registry.swim().get_member("thin-1").unwrap();
    assert_eq!(m.metadata.get("node_type").map(|s| s.as_str()), Some("thin"));
    assert!(!registry.adopt_registered_node_at(&thin, now));

    registry.register_in_swim_at(&registration("full-1", "f:1", &[("cluster", "heat")]), now);
    let m = registry.swim().get_member("full-1").unwrap();
    assert_eq!(m.metadata.get("cluster").map(|s| s.as_str()), Some("heat"));
}

#[test]
fn retired_placeholders_vanish_and_known_nodes_die() {
    let mut registry = NodeRegistry::new("local".to_string(), "l:1".to_string(), NodeRegistryConfig::default());
    let now = Instant::from_millis(1_000);
    registry.register_in_swim_at(&registration("_unknown_seed", "s:1", &[]), now);
    registry.register_in_swim_at(&registration("node-1", "n:1", &[]), now);
    registry.retire_discovered_node_at("_unknown_seed", now);
    registry.retire_discovered_node_at("node-1", now);
    assert!(registry.swim().get_member("_unknown_seed").is_none());
    assert_eq!(registry.swim().get_member("node-1").unwrap().state, NodeState::Dead);
}

#[test]
fn ping_answers_become_ready_registrations() {
    let hb = Timestamp { seconds: 77, nanos: 1 };
    let r = registration_from_ping("node-9".to_string(), "h:9".to_string(), "heat", hb);
    assert_eq!(r.node_id, "node-9");
    assert_eq!(r.node_address, "h:9");
    assert_eq!(r.status, NodeStatus::Ready);
    assert_eq!(r.last_heartbeat, Some(hb));
    assert_eq!(r.registered_at, Some(hb));
    assert_eq!(r.capabilities.get("cluster").map(|s| s.as_str()), Some("heat"));
    assert_eq!(r.capabilities.len(), 1);
    let r = registration_from_ping("node-9".to_string(), "h:9".to_string(), "", hb);
    assert!(r.capabilities.is_empty());
}

#[test]
fn listings_filter_by_the_asked_or_local_cluster() {
    assert_eq!(listing_cluster(Some(""), "local"), Some(String::new()));
    assert_eq!(listing_cluster(Some("heat"), "local"), Some("heat".to_string()));
    assert_eq!(listing_cluster(None, "local"), Some("local".to_string()));
    assert_eq!(listing_cluster(None, ""), None);
}

#[test]
fn thin_node_excluded_from_swim_indirect_targets() {
    let mut config = NodeRegistryConfig::default();
    config.gossip_enabled = false;
    config.use_shared_db = false;
    let mut registry = NodeRegistry::new("test-node".to_string(), "localhost:8000".to_string(), config);
    let now = Instant::from_millis(1_000);

    let mut full_reg = registration("full-node-1", "localhost:9002", &[]);
    full_reg.node_role = NodeRole::Full;
    let mut thin_reg = registration("thin-node-2", "localhost:9003", &[]);
    thin_reg.node_role = NodeRole::Thin;
    registry.register_in_swim_at(&full_reg, now);
    registry.register_in_swim_at(&thin_reg, now);

    let targets = registry.swim().select_indirect_targets("some-other-node");
    assert!(!targets.iter().any(|m| m.node_id == "thin-node-2"));
    assert!(targets.iter().any(|m| m.node_id == "full-node-1"));
}
