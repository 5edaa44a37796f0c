use plexspaces_services::service_invoker::backoff_computable;
use plexspaces_services::node_service::{connected_nodes_query, local_node_address_keys};
use plexspaces_services::accounts::RequestError;
use plexspaces_services::node_service::check_local_node;
use plexspaces_services::node_service::{advertised_address, ping_req_target_alive};
use plexspaces_services::node_service::{local_health, NodeHealth};
use plexspaces_services::node_registry::{NodeRegistry, NodeStatus, Timestamp};
use plexspaces_services::node_service::{
    check_connect_request, check_disconnect_request, connect_entry_step, connect_timeout_secs,
    disconnect_error_is_idempotent, looks_like_address, normalize_node_address, plan_connect_entry,
    registration_failure, request_timeout_secs, seeded_node_registration,
    seeded_node_registration_with, unknown_node_id, ConnectEntryPlan, ConnectEntryStep,
};
use plexspaces_services::service_invoker::{
    after_failed_attempt, backoff_duration, deadline_passed, service_actor_id,
    service_message_type, BackoffStrategy, InvocationError, NodeSelector, RetryStep,
};
use plexspaces_services::time::{Duration, Instant};

// ============================================================
// Node service
// ============================================================

#[test]
fn test_normalize_node_address() {
    assert_eq!(normalize_node_address("localhost:8091"), "http://localhost:8091");
    assert_eq!(normalize_node_address("http://localhost:8091"), "http://localhost:8091");
    assert_eq!(normalize_node_address("https://h:1"), "https://h:1");
}

#[test]
fn test_looks_like_address() {
    assert!(looks_like_address("localhost:8091"));
    assert!(looks_like_address("192.168.1.1:8000"));
    assert!(looks_like_address("http://host:80"));
    assert!(looks_like_address("https://host:443"));
    assert!(!looks_like_address("node-1"));
    assert!(!looks_like_address("my-node"));
}

#[test]
fn test_seeded_node_registration_uses_unknown_node_id() {
    let registration = seeded_node_registration("localhost:8093", "cluster-a");

    assert!(registration.node_id.starts_with("_unknown_"));
    assert!(NodeRegistry::is_unknown_node_id(&registration.node_id));
    assert_eq!(registration.node_address, "http://localhost:8093");
    assert_eq!(registration.capabilities.get("cluster"), Some(&"cluster-a".to_string()));
    assert_eq!(registration.status, NodeStatus::Ready);
    assert_eq!(registration.last_heartbeat, registration.registered_at);
}

#[test]
fn seed_without_cluster_has_no_capabilities() {
    let now = Timestamp { seconds: 1_700_000_000, nanos: 5 };
    let registration = seeded_node_registration_with("_unknown_x".to_string(), "h:1", "", now);
    assert!(registration.capabilities.is_empty());
    assert_eq!(registration.node_id, "_unknown_x");
    assert_eq!(registration.last_heartbeat, Some(now));
    assert_eq!(registration.error_count, 0);
}

#[test]
fn unknown_node_ids_are_fresh() {
    let a = unknown_node_id();
    let b = unknown_node_id();
    assert!(a.starts_with("_unknown_"));
    assert_eq!(a.len(), "_unknown_".len() + 26);
    assert_ne!(a, b);
}

#[test]
fn test_connect_nodes_timeout_configuration() {
    assert_eq!(connect_timeout_secs(0, None), 5);
    assert_eq!(connect_timeout_secs(3, None), 5);
    assert_eq!(connect_timeout_secs(42, None), 42);
    assert_eq!(connect_timeout_secs(1_000, None), 300);
    assert_eq!(connect_timeout_secs(1_000, Some(7)), 7);
    assert_eq!(request_timeout_secs(None), 5);
    assert_eq!(request_timeout_secs(Some((10, 0))), 10);
    assert_eq!(request_timeout_secs(Some((2, 500_000_000))), 2);
}

#[test]
fn test_connect_nodes_request_validation() {
    assert_eq!(
        check_connect_request(&Vec::new()).unwrap_err(),
        "At least one node address is required"
    );
    assert!(check_connect_request(&vec!["h:1".to_string()]).is_ok());
}

#[test]
fn test_disconnect_nodes_request_validation() {
    assert_eq!(
        check_disconnect_request(&Vec::new()).unwrap_err(),
        "At least one node_id is required"
    );
    assert!(check_disconnect_request(&vec!["n".to_string()]).is_ok());
}

#[test]
fn unknown_nodes_disconnect_idempotently() {
    assert!(disconnect_error_is_idempotent("node x not found"));
    assert!(disconnect_error_is_idempotent("NotFound: x"));
    assert!(!disconnect_error_is_idempotent("database locked"));
    assert!(!disconnect_error_is_idempotent(""));
}

#[test]
fn connect_entries_are_planned() {
    let local = vec!["localhost:8090".to_string()];
    assert_eq!(plan_connect_entry("node-1", "", &local), ConnectEntryPlan::LookupByNodeId);
    assert_eq!(
        plan_connect_entry("localhost:8090", "localhost:8090", &local),
        ConnectEntryPlan::SkipLocalAlias
    );
    assert_eq!(
        plan_connect_entry("192.0.2.2:8000", "192.0.2.2:8000", &local),
        ConnectEntryPlan::LookupByAddress
    );
}

#[test]
fn connect_entry_steps() {
    match connect_entry_step(true, Ok(Some(("_unknown_1".to_string(), "http://a:1".to_string())))) {
        ConnectEntryStep::AlreadyConnected { node_id, node_address, reconcile } => {
            assert_eq!(node_id, "_unknown_1");
            assert_eq!(node_address, "http://a:1");
            assert!(reconcile);
        }
        _ => panic!("known node"),
    }
    match connect_entry_step(false, Ok(Some(("peer-1".to_string(), "http://peer1:8000".to_string())))) {
        ConnectEntryStep::AlreadyConnected { reconcile, .. } => assert!(!reconcile),
        _ => panic!("known node"),
    }
    assert!(matches!(connect_entry_step(true, Ok(None)), ConnectEntryStep::RegisterSeed));
    assert!(matches!(
        connect_entry_step(false, Ok(None)),
        ConnectEntryStep::Failed(m) if m == "node_id not in registry"
    ));
    assert!(matches!(
        connect_entry_step(true, Err("boom".to_string())),
        ConnectEntryStep::Failed(m) if m == "lookup failed: boom"
    ));
    assert_eq!(registration_failure("dup"), "registration failed: dup");
}

// ============================================================
// Service invoker
// ============================================================

#[test]
fn test_backoff_none() {
    let d = backoff_duration(&BackoffStrategy::Immediate, 0);
    assert_eq!(d, Duration::zero());
}

#[test]
fn test_backoff_fixed() {
    let d = backoff_duration(&BackoffStrategy::Fixed(Duration::from_millis(500)), 3);
    assert_eq!(d, Duration::from_millis(500));
}

#[test]
fn test_backoff_exponential_capped() {
    let d = backoff_duration(
        &BackoffStrategy::Exponential {
            initial: Duration::from_millis(100),
            max: Duration::from_secs(5),
        },
        10,
    );
    assert!(d <= Duration::from_millis(6250));
    assert!(d >= Duration::from_millis(5000));
}

#[test]
fn exponential_backoff_doubles_below_the_cap() {
    for _ in 0..50 {
        let d = backoff_duration(
            &BackoffStrategy::Exponential {
                initial: Duration::from_millis(100),
                max: Duration::from_secs(5),
            },
            2,
        );
        assert!(d.millis >= 400 && d.millis < 500);
    }
    let d = backoff_duration(
        &BackoffStrategy::Exponential { initial: Duration::zero(), max: Duration::from_secs(5) },
        3,
    );
    assert_eq!(d, Duration::zero());
}

#[test]
fn retries_stop_after_the_limit() {
    assert_eq!(
        after_failed_attempt(0, 2, &BackoffStrategy::Fixed(Duration::from_millis(10))),
        RetryStep::RetryAfter(Duration::from_millis(10))
    );
    assert_eq!(
        after_failed_attempt(2, 2, &BackoffStrategy::Fixed(Duration::from_millis(10))),
        RetryStep::GiveUp
    );
    assert!(deadline_passed(Instant::from_millis(10), Instant::from_millis(10)));
    assert!(!deadline_passed(Instant::from_millis(9), Instant::from_millis(10)));
}

#[test]
fn nodes_are_selected_round_robin() {
    let nodes = vec!["a".to_string(), "b".to_string(), "c".to_string()];
    let mut selector = NodeSelector::new();
    let picks: Vec<String> = (0..4).map(|_| selector.select_node(None, &nodes).unwrap()).collect();
    assert_eq!(picks, vec!["a", "b", "c", "a"]);
    assert_eq!(selector.select_node(Some("z"), &nodes).unwrap(), "z");
    assert_eq!(selector.select_node(None, &nodes).unwrap(), "b");
    assert!(matches!(
        selector.select_node(None, &Vec::new()),
        Err(InvocationError::NoAvailableNodes(m)) if m == "No nodes registered"
    ));
}

#[test]
fn service_call_names() {
    assert_eq!(service_actor_id("billing", "charge"), "__service__:billing:charge");
    assert_eq!(service_message_type("billing", "charge"), "billing:charge");
}

#[test]
fn requests_for_other_nodes_are_not_found() {
    assert!(check_local_node("node-1", "node-1").is_ok());
    match check_local_node("node-2", "node-1") {
        Err(RequestError::NotFound(m)) => assert_eq!(m, "Node not found: node-2"),
        _ => panic!("not found expected"),
    }
}

#[test]
fn health_degrades_while_shutting_down() {
    let (h, m) = local_health(true);
    assert_eq!(h, NodeHealth::Degraded);
    assert_eq!(m, "Node is shutting down");
    let (h, m) = local_health(false);
    assert_eq!(h, NodeHealth::Healthy);
    assert_eq!(m, "Healthy");
}

#[test]
fn pings_advertise_the_grpc_address_first() {
    assert_eq!(advertised_address("http://10.0.0.1:9000", "0.0.0.0:9000"), "http://10.0.0.1:9000");
    assert_eq!(advertised_address("", "0.0.0.0:9000"), "0.0.0.0:9000");
    assert!(ping_req_target_alive("10.0.0.2:9000"));
    assert!(!ping_req_target_alive(""));
}

#[test]
fn local_address_keys_are_sorted_and_distinct() {
    let addresses = vec![
        ("0.0.0.0:9001".to_string(), "localhost:9001".to_string()),
        ("".to_string(), "ignored".to_string()),
        ("http://127.0.0.1:9001".to_string(), "localhost:9001".to_string()),
        ("10.0.0.5:9002".to_string(), "10.0.0.5:9002".to_string()),
    ];
    assert_eq!(
        local_node_address_keys(&addresses),
        vec!["10.0.0.5:9002".to_string(), "localhost:9001".to_string()]
    );
}

#[test]
fn connected_node_listings_default_their_page_size() {
    assert_eq!(connected_nodes_query("", 0), (None, 100));
    assert_eq!(connected_nodes_query("heat", 25), (Some("heat".to_string()), 25));
    assert_eq!(connected_nodes_query("", -3), (None, 100));
}

#[test]
fn backoff_is_computable_while_it_fits() {
    let exp = BackoffStrategy::Exponential { initial: Duration::from_millis(100), max: Duration::from_millis(10_000) };
    assert!(backoff_computable(&exp, 10));
    assert!(!backoff_computable(&exp, 63));
    assert!(backoff_computable(&BackoffStrategy::Immediate, 1_000));
    let huge = BackoffStrategy::Exponential { initial: Duration::from_millis(u64::MAX), max: Duration::from_millis(u64::MAX) };
    assert!(!backoff_computable(&huge, 0));
}
