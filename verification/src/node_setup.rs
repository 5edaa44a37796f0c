//! Node setup: which node configuration a node starts with, and where its
//! key-value store lives.

use std::collections::HashMap;
use vstd::prelude::*;

use crate::node_registry::ProtoNodeRegistryConfig;
use crate::service_config::{file_safe, file_safe_name};
use crate::text::{contains_str, contains_seq, has_prefix, owned, starts_with};

verus! {

/// The configuration of a node.
pub struct NodeConfig {
    pub id: String,
    pub listen_addr: String,
    pub cluster_seed_nodes: Vec<String>,
    pub cluster_name: String,
    pub max_connections: u32,
    pub heartbeat_interval_ms: u64,
    pub clustering_enabled: bool,
    pub grpc_connection_pool_size: u32,
    pub metadata: HashMap<String, String>,
    pub node_registry: Option<ProtoNodeRegistryConfig>,
    pub grpc_address: String,
}

/// `c` is the default configuration of node `id`: listening on
/// `127.0.0.1:0`, no seed nodes and no cluster, 100 connections, a
/// heartbeat every 5000 ms, clustering on, a gRPC pool of 2, no metadata,
/// no registry settings and no gRPC address.
pub open spec fn is_default_config(c: NodeConfig, id: Seq<char>) -> bool {
    &&& c.id@ == id
    &&& c.listen_addr@ == "127.0.0.1:0"@
    &&& c.cluster_seed_nodes@.len() == 0
    &&& c.cluster_name@.len() == 0
    &&& c.max_connections == 100
    &&& c.heartbeat_interval_ms == 5000
    &&& c.clustering_enabled
    &&& c.grpc_connection_pool_size == 2
    &&& c.metadata@ == Map::<String, String>::empty()
    &&& c.node_registry is None
    &&& c.grpc_address@.len() == 0
}

/// The ID of a default configuration: the given node ID, else `test-node`.
pub open spec fn default_node_id(node_id: Option<String>) -> Seq<char> {
    match node_id {
        Some(id) => id@,
        None => "test-node"@,
    }
}

/// The default configuration of node `id`.
fn default_node_config(id: String) -> (c: NodeConfig)
    ensures
        is_default_config(c, id@),
{
    let c = NodeConfig {
        id,
        listen_addr: owned("127.0.0.1:0"),
        cluster_seed_nodes: Vec::new(),
        cluster_name: String::new(),
        max_connections: 100,
        heartbeat_interval_ms: 5000,
        clustering_enabled: true,
        grpc_connection_pool_size: 2,
        metadata: HashMap::new(),
        node_registry: None,
        grpc_address: String::new(),
    };
    assert(c.cluster_seed_nodes@ =~= Seq::<String>::empty());
    c
}

/// The configuration a node starts with: the one passed in; else, when there
/// is a release specification (`release_node` is `Some`), its node
/// configuration if it has one; else the default configuration of `node_id`
/// (or of `test-node`).
pub fn select_node_config(
    node_config: Option<NodeConfig>,
    release_node: Option<Option<NodeConfig>>,
    node_id: Option<String>,
) -> (c: NodeConfig)
    ensures
        node_config matches Some(n) ==> c == n,
        node_config is None ==> (release_node matches Some(Some(n)) ==> c == n),
        node_config is None && !(release_node matches Some(Some(_))) ==> is_default_config(c, default_node_id(node_id)),
{
    if let Some(n) = node_config {
        return n;
    }
    if let Some(Some(n)) = release_node {
        return n;
    }
    let id = match node_id {
        Some(id) => id,
        None => owned("test-node"),
    };
    default_node_config(id)
}

/// A database URL without its `sqlite://` or `sqlite:` scheme (`sqlite:///p`
/// keeps the leading `/` of `/p`).
pub open spec fn without_sqlite_scheme(u: Seq<char>) -> Seq<char> {
    if has_prefix(u, "sqlite://"@) {
        u.subrange(9, u.len() as int)
    } else if has_prefix(u, "sqlite:"@) {
        u.subrange(7, u.len() as int)
    } else {
        u
    }
}

/// `r` is `s` cut before its first `?`: a prefix of `s` without `?`, that is
/// all of `s` or is followed by a `?`.
pub open spec fn cut_before_query(s: Seq<char>, r: Seq<char>) -> bool {
    &&& r.len() <= s.len()
    &&& r == s.take(r.len() as int)
    &&& !r.contains('?')
    &&& (r.len() == s.len() || s[r.len() as int] == '?')
}

/// The default store file of node `node_id`.
pub open spec fn default_kv_path(node_id: Seq<char>) -> Seq<char> {
    "/tmp/plexspaces-kv-"@ + file_safe(node_id) + ".db"@
}

/// `s` up to its first `?`.
fn before_query(s: &str) -> (r: String)
    ensures
        cut_before_query(s@, r@),
{
    let n = s.unicode_len();
    let mut i: usize = 0;
    while i < n && s.get_char(i) != '?'
        invariant
            n == s@.len(),
            i <= n,
            forall|k: int| 0 <= k < i ==> s@[k] != '?',
        decreases n - i,
    {
        i = i + 1;
    }
    let r = owned(s.substring_char(0, i));
    proof {
        assert(r@ =~= s@.take(i as int));
        assert(!r@.contains('?')) by {
            if r@.contains('?') {
                let k = choose|k: int| 0 <= k < r@.len() && r@[k] == '?';
                assert(s@[k] == '?');
            }
        }
    }
    r
}

/// Where the node's key-value store lives, and whether it is kept in
/// memory. An empty URL counts as none. With a URL, the path is the URL
/// without its `sqlite://` or `sqlite:` scheme and without its query; with
/// none, a file named after the node under `/tmp`. The store is in memory
/// (and opened as `:memory:`) exactly when the URL contains `:memory:`.
pub fn kv_store_location(db_url: Option<&str>, node_id: &str) -> (r: (String, bool))
    ensures
        match db_url {
            Some(u) if u@.len() > 0 => cut_before_query(without_sqlite_scheme(u@), r.0@)
                && (r.1 <==> contains_seq(u@, ":memory:"@)),
            _ => r.0@ == default_kv_path(node_id@) && !r.1,
        },
{
    match db_url {
        Some(u) if u.unicode_len() > 0 => {
            let n = u.unicode_len();
            let path = if starts_with(u, "sqlite://") {
                proof {
                    reveal_strlit("sqlite://");
                }
                u.substring_char(9, n)
            } else if starts_with(u, "sqlite:") {
                proof {
                    reveal_strlit("sqlite:");
                }
                u.substring_char(7, n)
            } else {
                u
            };
            (before_query(path), contains_str(u, ":memory:"))
        },
        _ => {
            let mut p = owned("/tmp/plexspaces-kv-");
            p.append(file_safe_name(node_id).as_str());
            p.append(".db");
            (p, false)
        },
    }
}

} // verus!
