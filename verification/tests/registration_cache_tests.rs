use std::collections::HashMap;

use plexspaces_services::node_registry::{NodeRegistration, NodeRole, NodeStatus, Timestamp};
use plexspaces_services::registration_cache::RegistrationCache;
use plexspaces_services::time::{Duration, Instant};

fn registration(id: &str, address: &str) -> NodeRegistration {
    NodeRegistration {
        node_role: NodeRole::Full,
        node_id: id.to_string(),
        node_address: address.to_string(),
        capabilities: HashMap::new(),
        status: NodeStatus::Ready,
        last_heartbeat: None,
        error_count: 0,
        registered_at: None,
    }
}

#[test]
fn cache_stats_count_entries_and_hits() {
    let mut cache = RegistrationCache::new(Duration::from_secs(60));
    let (size, hits, ttl) = cache.cache_stats();
    assert_eq!(size, 0);
    assert_eq!(hits, 0);
    assert_eq!(ttl, Duration::from_secs(60));

    let t0 = Instant::from_millis(1_000);
    cache.update_at(registration("node-stats", "http://localhost:7777"), t0);
    assert_eq!(cache.cache_stats().0, 1);
    assert!(cache.get_at("node-stats", t0).is_some());
    assert!(cache.get_at("node-other", t0).is_none());
    assert_eq!(cache.cache_stats().1, 1);
}

#[test]
fn cached_registrations_expire_after_their_ttl() {
    let mut cache = RegistrationCache::new(Duration::from_millis(500));
    let t0 = Instant::from_millis(1_000);
    cache.update_at(registration("n1", "h:1"), t0);
    assert_eq!(cache.get_at("n1", Instant::from_millis(1_500)).unwrap().node_address, "h:1");
    assert!(cache.get_at("n1", Instant::from_millis(1_501)).is_none());

    cache.update_at(registration("n1", "h:2"), Instant::from_millis(2_000));
    assert_eq!(cache.cache_stats().0, 1);
    assert_eq!(cache.get_at("n1", Instant::from_millis(2_100)).unwrap().node_address, "h:2");
}

#[test]
fn eviction_and_removal_drop_entries() {
    let mut cache = RegistrationCache::new(Duration::from_millis(100));
    cache.update_at(registration("old", "h:1"), Instant::from_millis(0));
    cache.update_at(registration("new", "h:2"), Instant::from_millis(1_000));
    cache.update_at(registration("gone", "h:3"), Instant::from_millis(1_000));
    let live = cache.live_registrations_at(Instant::from_millis(1_050));
    let ids: Vec<&str> = live.iter().map(|r| r.node_id.as_str()).collect();
    assert_eq!(ids, vec!["new", "gone"]);

    cache.evict_expired_at(Instant::from_millis(1_050));
    assert_eq!(cache.cache_stats().0, 2);
    cache.remove("gone");
    assert_eq!(cache.cache_stats().0, 1);
    assert!(cache.get_at("gone", Instant::from_millis(1_050)).is_none());
    assert!(cache.get_at("new", Instant::from_millis(1_050)).is_some());
}

#[test]
fn heartbeats_stamp_cached_registrations() {
    let mut cache = RegistrationCache::new(Duration::from_secs(60));
    let t0 = Instant::from_millis(0);
    cache.update_at(registration("n1", "h:1"), t0);
    cache.record_heartbeat("n1", Timestamp { seconds: 42, nanos: 0 });
    cache.record_heartbeat("n2", Timestamp { seconds: 43, nanos: 0 });
    assert_eq!(cache.get_at("n1", t0).unwrap().last_heartbeat, Some(Timestamp { seconds: 42, nanos: 0 }));
    assert!(cache.get_at("n2", t0).is_none());
}
