use std::collections::HashMap;

use plexspaces_services::node_directory::{
    listing_source_failure_is_fatal, listing_sources, lookup_after_address_search, lookup_after_local, lookup_after_store,
    lookup_first_step, select_cluster_nodes, ListingSource, NodeLookupStep,
};
use plexspaces_services::node_listing::ListedNode;
use plexspaces_services::node_registry::{LocalLookup, NodeRegistration, NodeRole, NodeStatus};
use plexspaces_services::process_groups::{LeaveError, LocalGroups};
use plexspaces_services::accounts::RequestError;
use plexspaces_services::node_service::{begin_connect, begin_disconnect, unknown_node_id, ConnectEntryPlan};
use plexspaces_services::service_links::{ServiceLink, ServiceLinks};
use plexspaces_services::swim::{NodeState, SwimConfig, SwimMember};
use plexspaces_services::swim_protocol::SwimProtocol;
use plexspaces_services::time::Instant;

fn protocol() -> SwimProtocol {
    SwimProtocol::new("local-node".to_string(), "localhost:8000".to_string(), SwimConfig::default())
}

fn member(id: &str, incarnation: u64, state: NodeState) -> SwimMember {
    let mut m = SwimMember::new_at(id.to_string(), format!("localhost:{}", 9000 + incarnation), Instant::from_millis(10));
    m.incarnation = incarnation;
    m.state = state;
    m
}

fn entries(v: &[&str]) -> Vec<String> {
    v.iter().map(|s| s.to_string()).collect()
}

fn node(id: &str, key: &str, cluster: Option<&str>) -> ListedNode {
    let mut capabilities = HashMap::new();
    if let Some(c) = cluster {
        capabilities.insert("cluster".to_string(), c.to_string());
    }
    ListedNode {
        registration: NodeRegistration {
            node_role: NodeRole::Full,
            node_id: id.to_string(),
            node_address: format!("http://{}", key),
            capabilities,
            status: NodeStatus::Ready,
            last_heartbeat: None,
            error_count: 0,
            registered_at: None,
        },
        address_key: key.to_string(),
    }
}

#[test]
fn merge_takes_a_more_severe_state_at_the_same_incarnation() {
    let mut p = protocol();
    p.upsert_member_at(member("node-1", 3, NodeState::Alive), Instant::from_millis(10));
    p.merge_full_state_at(vec![member("node-1", 3, NodeState::Suspect)], Instant::from_millis(77));
    let m = p.get_member("node-1").unwrap();
    assert_eq!(m.state, NodeState::Suspect);
    assert_eq!(m.incarnation, 3);
    assert_eq!(m.state_changed_at, Instant::from_millis(77));
}

#[test]
fn merge_adds_only_active_unknown_members_and_never_the_local_node() {
    let mut p = protocol();
    let before = p.stats().anti_entropy_syncs;
    p.merge_full_state_at(
        vec![
            member("dead-node", 1, NodeState::Dead),
            member("left-node", 1, NodeState::Left),
            member("local-node", 5, NodeState::Alive),
            member("new-node", 2, NodeState::Suspect),
        ],
        Instant::from_millis(20),
    );
    assert!(p.get_member("dead-node").is_none());
    assert!(p.get_member("left-node").is_none());
    assert!(p.get_member("local-node").is_none());
    assert_eq!(p.get_member("new-node").unwrap().state, NodeState::Suspect);
    assert_eq!(p.stats().anti_entropy_syncs, before + 1);
}

#[test]
fn disconnecting_marks_an_active_member_left() {
    let mut p = protocol();
    p.upsert_member_at(member("node-1", 4, NodeState::Alive), Instant::from_millis(10));
    p.upsert_member_at(member("node-2", 1, NodeState::Alive), Instant::from_millis(10));
    p.mark_left_at("node-1", Instant::from_millis(50));
    let m = p.get_member("node-1").unwrap();
    assert_eq!(m.state, NodeState::Left);
    assert_eq!(m.incarnation, 4);
    assert_eq!(m.state_changed_at, Instant::from_millis(50));
    assert_eq!(p.get_member("node-2").unwrap().state, NodeState::Alive);
    assert_eq!(p.stats().leaves, 1);
}

#[test]
fn disconnecting_leaves_a_dead_member_dead() {
    let mut p = protocol();
    p.upsert_member_at(member("node-1", 4, NodeState::Alive), Instant::from_millis(10));
    p.declare_dead_at("node-1", Instant::from_millis(20));
    p.mark_left_at("node-1", Instant::from_millis(50));
    let m = p.get_member("node-1").unwrap();
    assert_eq!(m.state, NodeState::Dead);
    assert_eq!(m.state_changed_at, Instant::from_millis(20));
    assert_eq!(p.stats().leaves, 0);
}

#[test]
fn an_empty_connect_request_succeeds_without_a_registry() {
    let run = begin_connect(Vec::new(), false).unwrap();
    assert!(run.next_entry().is_none());
    assert!(run.connected.is_empty());
    assert!(run.failed.is_empty());
    assert!(run.to_reconcile.is_empty());
}

#[test]
fn a_connect_request_needs_a_node_registry() {
    let r = begin_connect(entries(&["localhost:9001"]), false);
    assert_eq!(r.err().unwrap(), "NodeRegistry not available");
}

#[test]
fn a_registered_node_is_reported_connected() {
    let mut run = begin_connect(entries(&["localhost:9001", "localhost:9002"]), true).unwrap();
    assert_eq!(run.next_entry().unwrap(), "localhost:9001");
    assert_eq!(run.plan_current("localhost:9001", &vec![]), ConnectEntryPlan::LookupByAddress);
    let register = run.record_lookup(Ok(Some(("node-1".to_string(), "http://localhost:9001".to_string()))));
    assert!(!register);
    assert_eq!(run.connected.get("node-1").unwrap(), "http://localhost:9001");
    assert!(run.failed.is_empty());
    assert!(run.to_reconcile.is_empty());

    assert_eq!(run.plan_current("localhost:9002", &vec![]), ConnectEntryPlan::LookupByAddress);
    let register = run.record_lookup(Ok(Some(("_unknown_abc".to_string(), "http://localhost:9002".to_string()))));
    assert!(!register);
    assert_eq!(run.to_reconcile, vec!["_unknown_abc".to_string()]);
    assert_eq!(run.connected.len(), 2);
    assert!(run.next_entry().is_none());
}

#[test]
fn a_local_address_is_skipped() {
    let mut run = begin_connect(entries(&["127.0.0.1:8000", "node-2"]), true).unwrap();
    let local = vec!["loopback:8000".to_string()];
    assert_eq!(run.plan_current("loopback:8000", &local), ConnectEntryPlan::SkipLocalAlias);
    assert_eq!(run.next_entry().unwrap(), "node-2");
    assert_eq!(run.plan_current("", &local), ConnectEntryPlan::LookupByNodeId);
    assert!(run.connected.is_empty() && run.failed.is_empty());
}

#[test]
fn an_unknown_address_is_registered_as_a_seed() {
    let mut run = begin_connect(entries(&["localhost:9003", "localhost:9004"]), true).unwrap();
    run.plan_current("localhost:9003", &vec![]);
    assert!(run.record_lookup(Ok(None)));
    assert!(run.awaiting_registration);
    assert!(run.connected.is_empty() && run.failed.is_empty());
    run.record_registration("_unknown_x".to_string(), "http://localhost:9003".to_string(), Ok(()));
    assert_eq!(run.connected.get("_unknown_x").unwrap(), "http://localhost:9003");
    assert_eq!(run.to_reconcile, vec!["_unknown_x".to_string()]);

    run.plan_current("localhost:9004", &vec![]);
    assert!(run.record_lookup(Ok(None)));
    run.record_registration("_unknown_y".to_string(), "http://localhost:9004".to_string(), Err("db down".to_string()));
    assert_eq!(run.failed.get("localhost:9004").unwrap(), "registration failed: db down");
    assert_eq!(run.connected.len(), 1);
}

#[test]
fn unknown_node_ids_and_failed_lookups_fail_the_entry() {
    let mut run = begin_connect(entries(&["node-9", "localhost:9005"]), true).unwrap();
    run.plan_current("", &vec![]);
    assert!(!run.record_lookup(Ok(None)));
    assert_eq!(run.failed.get("node-9").unwrap(), "node_id not in registry");
    run.plan_current("localhost:9005", &vec![]);
    assert!(!run.record_lookup(Err("timeout".to_string())));
    assert_eq!(run.failed.get("localhost:9005").unwrap(), "lookup failed: timeout");
    assert!(run.connected.is_empty());
}

#[test]
fn a_disconnect_request_needs_node_ids_and_a_registry() {
    match begin_disconnect(Vec::new(), true) {
        Err(RequestError::InvalidArgument(m)) => assert_eq!(m, "At least one node_id is required"),
        _ => panic!("an empty request must be refused"),
    }
    match begin_disconnect(entries(&["node-1"]), false) {
        Err(RequestError::Internal(m)) => assert_eq!(m, "NodeRegistry not available"),
        _ => panic!("a request without a registry must fail"),
    }
}

#[test]
fn each_disconnected_node_is_reported_once() {
    let mut run = begin_disconnect(entries(&["node-1", "node-2", "node-3"]), true).unwrap();
    assert_eq!(run.next_node().unwrap(), "node-1");
    run.record(Ok(()));
    assert_eq!(run.next_node().unwrap(), "node-2");
    run.record(Err("Node not found: node-2".to_string()));
    run.record(Err("database locked".to_string()));
    assert!(run.next_node().is_none());
    assert_eq!(run.disconnected, entries(&["node-1", "node-2"]));
    assert_eq!(run.failed.len(), 1);
    assert_eq!(run.failed.get("node-3").unwrap(), "database locked");
}

#[test]
fn a_cluster_listing_shows_only_that_cluster() {
    let candidates = vec![
        node("node-b", "10.0.0.2:9000", Some("blue")),
        node("node-a", "10.0.0.1:9000", Some("red")),
        node("node-c", "10.0.0.3:9000", None),
        node("node-d", "10.0.0.4:9000", Some("blue")),
    ];
    let blue: Vec<String> = select_cluster_nodes(&candidates, Some("blue"), 0).iter().map(|r| r.node_id.clone()).collect();
    assert_eq!(blue, vec!["node-b", "node-d"]);
    let all: Vec<String> = select_cluster_nodes(&candidates, None, 3).iter().map(|r| r.node_id.clone()).collect();
    assert_eq!(all, vec!["node-a", "node-b", "node-c"]);
}

#[test]
fn following_page_tokens_lists_every_link_once() {
    let mut svc = ServiceLinks::seeded(Vec::new());
    for name in &["echo", "alpha", "delta", "bravo", "charlie"] {
        svc.add_link(Some(ServiceLink { name: name.to_string(), base_url: "http://svc".to_string(), transport: 0 }))
            .unwrap();
    }
    let mut seen: Vec<String> = Vec::new();
    let mut token = String::new();
    let mut pages = 0;
    loop {
        let (page, next) = svc.list_links(2, &token);
        seen.extend(page.iter().map(|l| l.name.clone()));
        pages += 1;
        if next.is_empty() {
            break;
        }
        token = next;
    }
    assert_eq!(seen, vec!["alpha", "bravo", "charlie", "delta", "echo"]);
    assert_eq!(pages, 3);
}

#[test]
fn reaping_compares_elapsed_time_to_the_nanosecond() {
    let mut m = member("node-1", 1, NodeState::Dead);
    m.state_changed_at = Instant::from_nanos(1_000_000_000);
    let timeout = plexspaces_services::time::Duration::from_millis(50);
    assert!(m.should_reap_at(timeout, Instant::from_nanos(1_050_400_000)));
    assert!(!m.should_reap_at(timeout, Instant::from_nanos(1_050_000_000)));
}

#[test]
fn k_joins_need_k_leaves() {
    let mut groups = LocalGroups::new();
    groups.create_group("t:ns:pg:g");
    for k in 1..=3 {
        assert_eq!(groups.join("t:ns:pg:g", "actor-1", &vec![]), k);
    }
    for remaining in [2, 1] {
        let (ended, count, _) = groups.leave("t:ns:pg:g", "actor-1").unwrap();
        assert!(!ended);
        assert_eq!(count, remaining);
        assert_eq!(groups.local_members("t:ns:pg:g"), vec!["actor-1".to_string()]);
    }
    let (ended, count, _) = groups.leave("t:ns:pg:g", "actor-1").unwrap();
    assert!(ended);
    assert_eq!(count, 0);
    assert!(groups.local_members("t:ns:pg:g").is_empty());
    assert_eq!(groups.leave("t:ns:pg:g", "actor-1").err().unwrap(), LeaveError::NotMember);
}

#[test]
fn placeholder_ids_end_in_a_ulid() {
    let id = unknown_node_id();
    assert!(id.starts_with("_unknown_"));
    let ulid = &id["_unknown_".len()..];
    assert_eq!(ulid.len(), 26);
    assert!(ulid.chars().all(|c| "0123456789ABCDEFGHJKMNPQRSTVWXYZ".contains(c)));
}

#[test]
fn a_lookup_searches_by_address_then_locally_then_in_the_store() {
    assert!(matches!(lookup_first_step("localhost:9000"), NodeLookupStep::SearchByAddress));
    assert!(matches!(lookup_first_step("node-1"), NodeLookupStep::AskLocal));
    assert!(matches!(lookup_after_address_search(None), NodeLookupStep::AskLocal));
    assert!(matches!(lookup_after_local(LocalLookup::Gone), NodeLookupStep::Answer(None)));
    assert!(matches!(lookup_after_local(LocalLookup::Unknown), NodeLookupStep::AskStore));
    assert!(matches!(lookup_after_store(Err("down".to_string())), NodeLookupStep::Answer(None)));
    let r = node("node-1", "10.0.0.1:9000", None).registration;
    match lookup_after_store(Ok(Some(r))) {
        NodeLookupStep::Adopt(x) => assert_eq!(x.node_id, "node-1"),
        _ => panic!("a registration found in the store is adopted"),
    }
}

#[test]
fn a_listing_reads_its_sources_in_order() {
    assert_eq!(listing_sources(true), vec![ListingSource::SyncedStore]);
    assert_eq!(
        listing_sources(false),
        vec![ListingSource::SwimMembers, ListingSource::LiveCache, ListingSource::RecentStore]
    );
    assert!(listing_source_failure_is_fatal(ListingSource::SyncedStore));
    assert!(!listing_source_failure_is_fatal(ListingSource::RecentStore));
}
