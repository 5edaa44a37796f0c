use plexspaces_services::node_listing::{build_listing_pool, select_listed_nodes, ListedNode};
use plexspaces_services::node_registry::NodeRegistry;
use plexspaces_services::swim::SwimMember;

fn listed(id: &str, address: &str, key: &str) -> ListedNode {
    let member = SwimMember::new(id.to_string(), address.to_string());
    ListedNode {
        registration: NodeRegistry::swim_member_to_node_registration(&member),
        address_key: key.to_string(),
    }
}

fn ids(nodes: &[plexspaces_services::node_registry::NodeRegistration]) -> Vec<String> {
    nodes.iter().map(|n| n.node_id.clone()).collect()
}

#[test]
fn test_list_nodes() {
    let candidates: Vec<ListedNode> = (0..10)
        .map(|i| listed(&format!("node-{}", i), &format!("http://localhost:800{}", i), &format!("localhost:800{}", i)))
        .collect();
    let nodes = select_listed_nodes(&candidates, 100);
    assert_eq!(nodes.len(), 10);
}

#[test]
fn test_pagination() {
    let candidates: Vec<ListedNode> = (0..10)
        .rev()
        .map(|i| {
            listed(
                &format!("paginated-node-{:02}", i),
                &format!("http://localhost:{}", 9000 + i),
                &format!("localhost:{}", 9000 + i),
            )
        })
        .collect();
    let nodes = select_listed_nodes(&candidates, 5);
    assert_eq!(
        ids(&nodes),
        vec!["paginated-node-00", "paginated-node-01", "paginated-node-02", "paginated-node-03", "paginated-node-04"]
    );
    assert_eq!(select_listed_nodes(&candidates, 0).len(), 10);
}

#[test]
fn test_list_nodes_prefers_concrete_node_id_over_unknown_loopback_alias() {
    let candidates = vec![
        listed("_unknown_loopback", "http://localhost:8114", "loopback:8114"),
        listed("db-node-concrete", "http://0.0.0.0:8114", "loopback:8114"),
    ];
    let nodes = select_listed_nodes(&candidates, 100);
    assert_eq!(ids(&nodes), vec!["db-node-concrete"]);
    assert_eq!(nodes[0].node_address, "http://0.0.0.0:8114");
}

#[test]
fn concrete_node_is_not_replaced_by_a_placeholder() {
    let candidates = vec![
        listed("node-a", "http://localhost:8115", "k8115"),
        listed("_unknown_x", "http://0.0.0.0:8115", "k8115"),
        listed("node-b", "http://127.0.0.1:8115", "k8115"),
    ];
    assert_eq!(ids(&select_listed_nodes(&candidates, 100)), vec!["node-a"]);
}

#[test]
fn first_registration_of_a_node_wins() {
    let candidates = vec![
        listed("node-1", "http://a:1", "a:1"),
        listed("node-1", "http://b:1", "b:1"),
        listed("node-0", "http://c:1", "c:1"),
    ];
    let pool = build_listing_pool(&candidates);
    assert_eq!(pool.len(), 2);
    assert_eq!(pool[0].registration.node_address, "http://a:1");
    let nodes = select_listed_nodes(&candidates, 100);
    assert_eq!(ids(&nodes), vec!["node-0", "node-1"]);
    assert_eq!(nodes[1].node_address, "http://a:1");
}

#[test]
fn empty_listing() {
    assert!(select_listed_nodes(&Vec::new(), 10).is_empty());
}
