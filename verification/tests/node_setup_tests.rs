use std::collections::HashMap;

use plexspaces_services::node_setup::{kv_store_location, select_node_config, NodeConfig};

fn config(id: &str) -> NodeConfig {
    NodeConfig {
        id: id.to_string(),
        listen_addr: "0.0.0.0:9000".to_string(),
        cluster_seed_nodes: vec![],
        cluster_name: "heat".to_string(),
        max_connections: 7,
        heartbeat_interval_ms: 100,
        clustering_enabled: false,
        grpc_connection_pool_size: 1,
        metadata: HashMap::new(),
        node_registry: None,
        grpc_address: String::new(),
    }
}

#[test]
fn the_given_node_config_wins_then_the_release_then_a_default() {
    assert_eq!(select_node_config(Some(config("given")), Some(Some(config("release"))), None).id, "given");
    assert_eq!(select_node_config(None, Some(Some(config("release"))), Some("n".to_string())).id, "release");

    let d = select_node_config(None, Some(None), Some("node-7".to_string()));
    assert_eq!(d.id, "node-7");
    assert_eq!(d.listen_addr, "127.0.0.1:0");
    assert_eq!(d.max_connections, 100);
    assert_eq!(d.heartbeat_interval_ms, 5000);
    assert!(d.clustering_enabled);
    assert_eq!(d.grpc_connection_pool_size, 2);
    assert!(d.cluster_name.is_empty() && d.grpc_address.is_empty() && d.cluster_seed_nodes.is_empty());

    assert_eq!(select_node_config(None, None, None).id, "test-node");
}

#[test]
fn database_urls_become_store_paths() {
    assert_eq!(kv_store_location(Some("sqlite:///var/db/kv.db?mode=rwc"), "n"), ("/var/db/kv.db".to_string(), false));
    assert_eq!(kv_store_location(Some("sqlite://kv.db"), "n"), ("kv.db".to_string(), false));
    assert_eq!(kv_store_location(Some("sqlite:data/kv.db?x=1?y"), "n"), ("data/kv.db".to_string(), false));
    assert_eq!(kv_store_location(Some("/plain/path.db"), "n"), ("/plain/path.db".to_string(), false));
    assert_eq!(kv_store_location(Some("sqlite::memory:"), "n"), (":memory:".to_string(), true));
    assert_eq!(kv_store_location(Some("sqlite://file::memory:?cache=shared"), "n"), ("file::memory:".to_string(), true));
}

#[test]
fn without_a_database_url_each_node_gets_its_own_file() {
    assert_eq!(kv_store_location(None, "node@host:9/a\\b"), ("/tmp/plexspaces-kv-node-host-9-a-b.db".to_string(), false));
    assert_eq!(kv_store_location(Some(""), "n1"), ("/tmp/plexspaces-kv-n1.db".to_string(), false));
}
