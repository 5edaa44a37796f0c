//! Node-registry rules: the registry configuration and how it is read from
//! the node's configuration message, the local cache of node registrations,
//! and the decisions taken when a node is looked up or answers a ping.

use std::collections::HashMap;
use vstd::prelude::*;

use crate::swim::{MemberView, NodeState, SwimConfig, SwimMember, default_swim_config};
use crate::swim_protocol::{ProtocolView, SwimProtocol, initial_protocol, lookup, protocol_wf};
use crate::text::{contains_char, has_prefix, starts_with, str_eq};
use crate::time::{Duration, Instant, longer_than};

verus! {

/// Default cache TTL in seconds.
pub const DEFAULT_CACHE_TTL_SECONDS: u64 = 60;

/// Default gossip interval in milliseconds.
pub const DEFAULT_GOSSIP_INTERVAL_MS: u64 = 1000;

/// Default gossip fanout (nodes used for indirect pings).
pub const DEFAULT_GOSSIP_FANOUT: usize = 3;

/// Members not probed successfully for longer than this (one day, in
/// milliseconds) are no longer probed.
pub const MAX_PROBE_AGE_MILLIS: u64 = 86400000;

/// Default window (one day, in milliseconds) for registrations to count as active.
pub const DEFAULT_ACTIVE_NODE_WINDOW_MILLIS: u64 = 86400000;

/// Node registry configuration.
#[derive(Debug, Clone, Copy)]
pub struct NodeRegistryConfig {
    /// Cache TTL for node entries.
    pub cache_ttl: Duration,
    /// Enable the SWIM gossip protocol.
    pub gossip_enabled: bool,
    /// SWIM protocol configuration.
    pub swim_config: SwimConfig,
    /// Use the shared database as source of truth.
    pub use_shared_db: bool,
    /// DB operation backoff base delay.
    pub db_backoff_base: Duration,
    /// DB operation backoff max delay.
    pub db_backoff_cap: Duration,
    /// DB operation max retry attempts.
    pub db_max_attempts: u32,
    /// Anti-entropy sync with DB interval.
    pub db_sync_interval: Duration,
    /// Maximum age for registrations considered active.
    pub active_node_window: Duration,
}

/// The default registry configuration.
pub open spec fn default_registry_config() -> NodeRegistryConfig {
    NodeRegistryConfig {
        cache_ttl: Duration { millis: 60000 },
        gossip_enabled: true,
        swim_config: default_swim_config(),
        use_shared_db: false,
        db_backoff_base: Duration { millis: 100 },
        db_backoff_cap: Duration { millis: 30000 },
        db_max_attempts: 10,
        db_sync_interval: Duration { millis: 30000 },
        active_node_window: Duration { millis: 86400000 },
    }
}

impl Default for NodeRegistryConfig {
    fn default() -> (c: Self)
        ensures
            c == default_registry_config(),
    {
        NodeRegistryConfig {
            cache_ttl: Duration::from_secs(DEFAULT_CACHE_TTL_SECONDS),
            gossip_enabled: true,
            swim_config: SwimConfig::default(),
            use_shared_db: false,
            db_backoff_base: Duration::from_millis(100),
            db_backoff_cap: Duration::from_secs(30),
            db_max_attempts: 10,
            db_sync_interval: Duration::from_secs(30),
            active_node_window: Duration::from_millis(DEFAULT_ACTIVE_NODE_WINDOW_MILLIS),
        }
    }
}

// ============================================================================
// Configuration messages
// ============================================================================

/// The SWIM settings of the node configuration message; zero means "unset".
#[derive(Debug, Clone, Copy, PartialEq, Eq, Structural)]
pub struct ProtoSwimConfig {
    pub protocol_period_ms: u32,
    pub probe_timeout_ms: u32,
    pub indirect_ping_nodes: u32,
    pub suspicion_multiplier: u32,
    pub suspicion_min_ms: u32,
    pub suspicion_max_ms: u32,
    pub dead_node_reap_seconds: u32,
    pub max_piggyback_updates: u32,
    pub broadcast_limit: u32,
    pub anti_entropy_interval_seconds: u32,
}

/// The DB backoff settings of the node configuration message; zero means "unset".
#[derive(Debug, Clone, Copy, PartialEq, Eq, Structural)]
pub struct ProtoDbBackoffConfig {
    pub base_delay_ms: u32,
    pub max_delay_ms: u32,
    pub max_attempts: u32,
}

/// The node-registry settings of the node configuration message; zero means "unset".
#[derive(Debug, Clone, Copy, PartialEq, Eq, Structural)]
pub struct ProtoNodeRegistryConfig {
    pub cache_ttl_seconds: u32,
    pub gossip_enabled: bool,
    pub swim: Option<ProtoSwimConfig>,
    pub use_shared_db: bool,
    pub db_sync_interval_seconds: u32,
    pub active_node_window_seconds: u32,
    pub db_backoff: Option<ProtoDbBackoffConfig>,
}

/// All SWIM settings unset.
pub open spec fn empty_proto_swim() -> ProtoSwimConfig {
    ProtoSwimConfig {
        protocol_period_ms: 0,
        probe_timeout_ms: 0,
        indirect_ping_nodes: 0,
        suspicion_multiplier: 0,
        suspicion_min_ms: 0,
        suspicion_max_ms: 0,
        dead_node_reap_seconds: 0,
        max_piggyback_updates: 0,
        broadcast_limit: 0,
        anti_entropy_interval_seconds: 0,
    }
}

impl Default for ProtoSwimConfig {
    fn default() -> (c: Self)
        ensures
            c == empty_proto_swim(),
    {
        ProtoSwimConfig {
            protocol_period_ms: 0,
            probe_timeout_ms: 0,
            indirect_ping_nodes: 0,
            suspicion_multiplier: 0,
            suspicion_min_ms: 0,
            suspicion_max_ms: 0,
            dead_node_reap_seconds: 0,
            max_piggyback_updates: 0,
            broadcast_limit: 0,
            anti_entropy_interval_seconds: 0,
        }
    }
}

impl Default for ProtoDbBackoffConfig {
    fn default() -> (c: Self)
        ensures
            c == (ProtoDbBackoffConfig { base_delay_ms: 0, max_delay_ms: 0, max_attempts: 0 }),
    {
        ProtoDbBackoffConfig { base_delay_ms: 0, max_delay_ms: 0, max_attempts: 0 }
    }
}

/// All registry settings unset.
pub open spec fn empty_proto_registry() -> ProtoNodeRegistryConfig {
    ProtoNodeRegistryConfig {
        cache_ttl_seconds: 0,
        gossip_enabled: false,
        swim: None,
        use_shared_db: false,
        db_sync_interval_seconds: 0,
        active_node_window_seconds: 0,
        db_backoff: None,
    }
}

impl Default for ProtoNodeRegistryConfig {
    fn default() -> (c: Self)
        ensures
            c == empty_proto_registry(),
    {
        ProtoNodeRegistryConfig {
            cache_ttl_seconds: 0,
            gossip_enabled: false,
            swim: None,
            use_shared_db: false,
            db_sync_interval_seconds: 0,
            active_node_window_seconds: 0,
            db_backoff: None,
        }
    }
}

/// A set value (non-zero) in milliseconds, else the default.
pub open spec fn ms_or(v: u32, d: Duration) -> Duration {
    if v > 0 { Duration { millis: v as u64 } } else { d }
}

/// A set value (non-zero) in seconds, else the default.
pub open spec fn secs_or(v: u32, d: Duration) -> Duration {
    if v > 0 { Duration { millis: (v * 1000) as u64 } } else { d }
}

/// A set count (non-zero), else the default.
pub open spec fn count_or(v: u32, d: u32) -> u32 {
    if v > 0 { v } else { d }
}

/// The SWIM configuration described by a configuration message: each set
/// field replaces the default.
pub open spec fn swim_config_of(p: ProtoSwimConfig) -> SwimConfig {
    let d = default_swim_config();
    SwimConfig {
        protocol_period: ms_or(p.protocol_period_ms, d.protocol_period),
        probe_timeout: ms_or(p.probe_timeout_ms, d.probe_timeout),
        indirect_ping_nodes: if p.indirect_ping_nodes > 0 { p.indirect_ping_nodes as usize } else { d.indirect_ping_nodes },
        suspicion_mult: count_or(p.suspicion_multiplier, d.suspicion_mult),
        suspicion_min: ms_or(p.suspicion_min_ms, d.suspicion_min),
        suspicion_max: ms_or(p.suspicion_max_ms, d.suspicion_max),
        dead_node_reap_timeout: secs_or(p.dead_node_reap_seconds, d.dead_node_reap_timeout),
        max_piggyback_updates: if p.max_piggyback_updates > 0 { p.max_piggyback_updates as usize } else { d.max_piggyback_updates },
        broadcast_limit: count_or(p.broadcast_limit, d.broadcast_limit),
        anti_entropy_interval: secs_or(p.anti_entropy_interval_seconds, d.anti_entropy_interval),
        ..d
    }
}

/// The registry configuration described by an optional configuration
/// message: each set field replaces the default; gossip and the shared DB
/// flags are taken as given.
pub open spec fn registry_config_of(p: Option<ProtoNodeRegistryConfig>) -> NodeRegistryConfig {
    let d = default_registry_config();
    match p {
        None => d,
        Some(p) => {
            let with_backoff = match p.db_backoff {
                Some(b) => NodeRegistryConfig {
                    db_backoff_base: ms_or(b.base_delay_ms, d.db_backoff_base),
                    db_backoff_cap: ms_or(b.max_delay_ms, d.db_backoff_cap),
                    db_max_attempts: count_or(b.max_attempts, d.db_max_attempts),
                    ..d
                },
                None => d,
            };
            NodeRegistryConfig {
                cache_ttl: secs_or(p.cache_ttl_seconds, d.cache_ttl),
                gossip_enabled: p.gossip_enabled,
                swim_config: match p.swim {
                    Some(s) => swim_config_of(s),
                    None => d.swim_config,
                },
                use_shared_db: p.use_shared_db,
                db_sync_interval: secs_or(p.db_sync_interval_seconds, d.db_sync_interval),
                active_node_window: secs_or(p.active_node_window_seconds, d.active_node_window),
                ..with_backoff
            }
        },
    }
}

/// Milliseconds of a set value, else the default.
fn millis_or(v: u32, d: Duration) -> (r: Duration)
    ensures
        r == ms_or(v, d),
{
    if v > 0 { Duration::from_millis(v as u64) } else { d }
}

/// Seconds of a set value, else the default.
fn seconds_or(v: u32, d: Duration) -> (r: Duration)
    ensures
        r == secs_or(v, d),
{
    if v > 0 { Duration::from_secs(v as u64) } else { d }
}

// ============================================================================
// Registrations
// ============================================================================

/// A point in time as seconds and nanoseconds since the UNIX epoch.
#[derive(Debug, Clone, Copy, PartialEq, Eq, Structural)]
pub struct Timestamp {
    pub seconds: i64,
    pub nanos: i32,
}

/// The status a registration reports for a node.
#[derive(Debug, Clone, Copy, PartialEq, Eq, Structural)]
pub enum NodeStatus {
    Ready,
    Busy,
    Stopped,
}

/// The role a node plays: a thin node has no inbound gRPC endpoint.
#[derive(Debug, Clone, Copy, PartialEq, Eq, Structural)]
pub enum NodeRole {
    Unspecified,
    Full,
    Thin,
}

/// A node registration as the registry hands it out.
#[derive(Debug)]
pub struct NodeRegistration {
    pub node_role: NodeRole,
    pub node_id: String,
    pub node_address: String,
    pub capabilities: HashMap<String, String>,
    pub status: NodeStatus,
    pub last_heartbeat: Option<Timestamp>,
    pub error_count: u64,
    pub registered_at: Option<Timestamp>,
}

/// The value of a [`NodeRegistration`].
pub struct RegistrationView {
    pub node_role: NodeRole,
    pub node_id: Seq<char>,
    pub node_address: Seq<char>,
    pub capabilities: Map<String, String>,
    pub status: NodeStatus,
    pub last_heartbeat: Option<Timestamp>,
    pub error_count: u64,
    pub registered_at: Option<Timestamp>,
}

impl View for NodeRegistration {
    type V = RegistrationView;

    open spec fn view(&self) -> RegistrationView {
        RegistrationView {
            node_role: self.node_role,
            node_id: self.node_id@,
            node_address: self.node_address@,
            capabilities: self.capabilities@,
            status: self.status,
            last_heartbeat: self.last_heartbeat,
            error_count: self.error_count,
            registered_at: self.registered_at,
        }
    }
}

impl Clone for NodeRegistration {
    fn clone(&self) -> (r: Self)
        ensures
            r@ == self@,
    {
        NodeRegistration {
            node_role: self.node_role,
            node_id: self.node_id.clone(),
            node_address: self.node_address.clone(),
            capabilities: self.capabilities.clone(),
            status: self.status,
            last_heartbeat: self.last_heartbeat,
            error_count: self.error_count,
            registered_at: self.registered_at,
        }
    }
}

/// The status reported for a member in a SWIM state.
pub open spec fn status_of(s: NodeState) -> NodeStatus {
    match s {
        NodeState::Alive => NodeStatus::Ready,
        NodeState::Suspect => NodeStatus::Busy,
        NodeState::Dead | NodeState::Left => NodeStatus::Stopped,
    }
}

/// The timestamp of an instant.
pub open spec fn timestamp_of(i: Instant) -> Timestamp {
    Timestamp { seconds: (i.nanos / 1_000_000_000) as i64, nanos: (i.nanos % 1_000_000_000) as i32 }
}

/// The registration synthesized from a SWIM member.
pub open spec fn registration_of_member(m: MemberView) -> RegistrationView {
    RegistrationView {
        node_role: NodeRole::Unspecified,
        node_id: m.node_id,
        node_address: m.address,
        capabilities: m.metadata,
        status: status_of(m.state),
        last_heartbeat: match m.last_probe_success {
            Some(t) => Some(timestamp_of(t)),
            None => None,
        },
        error_count: m.failed_probes as u64,
        registered_at: None,
    }
}

/// A ping answer never drops a target with a concrete node ID: the target's
/// entry is dropped exactly when it is a seed placeholder (its ID begins with
/// `_unknown_`) and the answer resolves it to another ID.  The resolved ID
/// and address are the reported ones when given, else the target's own; the
/// cluster label is the remote cluster when reported, else the local one;
/// the answer is refused as a mismatch exactly when both clusters are named
/// and differ.
pub proof fn lemma_only_placeholders_are_dropped(
    target_id: Seq<char>,
    target_address: Seq<char>,
    reported_id: Seq<char>,
    reported_address: Seq<char>,
    remote_cluster: Seq<char>,
    local_cluster: Seq<char>,
)
    ensures
        ({
            let d = ping_decision(target_id, target_address, reported_id, reported_address, remote_cluster, local_cluster);
            &&& d.4 <==> (d.1 != target_id && target_id.len() >= 9 && target_id.subrange(0, 9) == "_unknown_"@)
            &&& !(target_id.len() >= 9 && target_id.subrange(0, 9) == "_unknown_"@) ==> !d.4
            &&& d.1 == (if reported_id.len() > 0 { reported_id } else { target_id })
            &&& d.2 == (if reported_address.len() > 0 { reported_address } else { target_address })
            &&& d.3 == (if remote_cluster.len() > 0 { remote_cluster } else { local_cluster })
            &&& d.0 <==> (local_cluster.len() > 0 && remote_cluster.len() > 0 && local_cluster != remote_cluster)
            &&& reported_id.len() == 0 ==> !d.4
            &&& reported_id == target_id ==> !d.4
        }),
{
    reveal_strlit("_unknown_");
    let p = unknown_prefix();
    assert(p.len() == 9);
    if target_id.len() >= 9 {
        assert(has_prefix(target_id, p) <==> target_id.subrange(0, 9) == "_unknown_"@) by {
            if target_id.subrange(0, 9) == "_unknown_"@ {
                assert(target_id.subrange(0, p.len() as int) =~= p);
            }
        }
    }
}

/// A member is reported ready exactly when it is alive; a suspect is
/// reported busy, and a member that is dead or has left is reported
/// stopped.  The registration keeps the member's node ID and address.
pub proof fn lemma_member_status(m: MemberView)
    ensures
        (registration_of_member(m).status == NodeStatus::Ready) <==> (m.state == NodeState::Alive),
        m.state == NodeState::Suspect ==> registration_of_member(m).status == NodeStatus::Busy,
        (m.state == NodeState::Dead || m.state == NodeState::Left) ==> registration_of_member(m).status == NodeStatus::Stopped,
        !crate::swim::active(m.state) ==> registration_of_member(m).status != NodeStatus::Ready,
        registration_of_member(m).node_id == m.node_id,
        registration_of_member(m).node_address == m.address,
{
}

/// The node-ID prefix of seed placeholders whose real identity is not yet known.
pub open spec fn unknown_prefix() -> Seq<char> {
    "_unknown_"@
}

/// `s` begins with `p`, over characters.
pub open spec fn begins_with(s: Seq<char>, p: Seq<char>) -> bool {
    has_prefix(s, p)
}

/// A target names a node address (URL or `host:port`) rather than a node ID.
pub open spec fn addressy(t: Seq<char>) -> bool {
    has_prefix(t, "http://"@) || has_prefix(t, "https://"@) || t.contains(':')
}

/// A member whose last successful probe was at `last_success` is probed at
/// `now`: never probed successfully, or at most one day ago.
pub open spec fn probe_wanted(last_success: Option<Instant>, now: Instant) -> bool {
    match last_success {
        Some(t) => !longer_than(t, now, Duration { millis: MAX_PROBE_AGE_MILLIS }),
        None => true,
    }
}

/// A cached registration with its expiry time.
#[derive(Debug)]
pub struct CachedNodeRegistration {
    pub registration: NodeRegistration,
    pub expires_at: Instant,
}

impl CachedNodeRegistration {
    /// An entry cached at `now` for `ttl`.
    pub fn new_at(registration: NodeRegistration, ttl: Duration, now: Instant) -> (c: CachedNodeRegistration)
        ensures
            c.registration@ == registration@,
            c.expires_at.nanos == if now.nanos + ttl.millis * 1_000_000 <= u128::MAX {
                now.nanos + ttl.millis * 1_000_000
            } else {
                u128::MAX as int
            },
    {
        CachedNodeRegistration { registration, expires_at: now.saturating_add(ttl) }
    }

    /// A copy of the entry.
    pub fn clone_entry(&self) -> (c: CachedNodeRegistration)
        ensures
            c.registration@ == self.registration@,
            c.expires_at == self.expires_at,
    {
        CachedNodeRegistration { registration: self.registration.clone(), expires_at: self.expires_at }
    }

    /// The entry has expired at `now`.
    pub fn is_expired_at(&self, now: Instant) -> (b: bool)
        ensures
            b == (now.nanos > self.expires_at.nanos),
    {
        now.nanos > self.expires_at.nanos
    }
}

// ============================================================================
// The registry
// ============================================================================

/// The local part of a node registry: its configuration, the SWIM protocol
/// instance and the gossip flag.
pub struct NodeRegistry {
    config: NodeRegistryConfig,
    swim: SwimProtocol,
    running: bool,
}

/// The value of a [`NodeRegistry`].
pub struct RegistryView {
    pub config: NodeRegistryConfig,
    pub swim: ProtocolView,
    pub running: bool,
}

impl View for NodeRegistry {
    type V = RegistryView;

    closed spec fn view(&self) -> RegistryView {
        RegistryView { config: self.config, swim: self.swim@, running: self.running }
    }
}

/// What the registry does with a successful ping answer.
#[derive(Debug)]
pub enum PingReconciliation {
    /// The peer belongs to another cluster: forget the target and fail.
    ClusterMismatch,
    /// Register the peer under its reported identity.  When `drop_placeholder`
    /// is set, the target was a seed placeholder whose identity is now known
    /// and its entry is removed first.
    Register {
        node_id: String,
        node_address: String,
        cluster_label: String,
        drop_placeholder: bool,
    },
}

/// The reported value when non-empty, else the known one.
pub open spec fn reported_or(reported: Seq<char>, known: Seq<char>) -> Seq<char> {
    if reported.len() == 0 { known } else { reported }
}

/// The decision on a ping answer from `target` reporting cluster `remote_cluster`,
/// node ID `reported_id` and address `reported_address`, when the local
/// cluster is `local_cluster`.
pub open spec fn ping_decision(
    target_id: Seq<char>,
    target_address: Seq<char>,
    reported_id: Seq<char>,
    reported_address: Seq<char>,
    remote_cluster: Seq<char>,
    local_cluster: Seq<char>,
) -> (bool, Seq<char>, Seq<char>, Seq<char>, bool) {
    let mismatch = local_cluster.len() > 0 && remote_cluster.len() > 0 && local_cluster != remote_cluster;
    let id = reported_or(reported_id, target_id);
    let address = reported_or(reported_address, target_address);
    let label = if remote_cluster.len() > 0 { remote_cluster } else { local_cluster };
    let drop = id != target_id && begins_with(target_id, unknown_prefix());
    (mismatch, id, address, label, drop)
}

/// The view of a reconciliation decision, in the shape of [`ping_decision`].
pub open spec fn reconciliation_view(r: PingReconciliation) -> (bool, Seq<char>, Seq<char>, Seq<char>, bool) {
    match r {
        PingReconciliation::ClusterMismatch => (true, Seq::empty(), Seq::empty(), Seq::empty(), false),
        PingReconciliation::Register { node_id, node_address, cluster_label, drop_placeholder } =>
            (false, node_id@, node_address@, cluster_label@, drop_placeholder),
    }
}

/// Whether the outcome of a lookup is known locally.
#[derive(Debug)]
pub enum LocalLookup {
    /// A registration was found in the cache or synthesized from SWIM.
    Found(NodeRegistration),
    /// SWIM knows the node as dead or departed: it must not be resurrected.
    Gone,
    /// Nothing is known locally; the object registry has to be asked.
    Unknown,
}

impl NodeRegistry {
    /// A registry for the local node with the given configuration.
    pub fn new(local_node_id: String, local_address: String, config: NodeRegistryConfig) -> (r: NodeRegistry)
        requires
            config.swim_config.max_piggyback_updates * 2 <= usize::MAX,
        ensures
            r@ == (RegistryView {
                config,
                swim: initial_protocol(local_node_id@, local_address@, config.swim_config),
                running: false,
            }),
            protocol_wf(r@.swim),
    {
        NodeRegistry {
            config,
            swim: SwimProtocol::new(local_node_id, local_address, config.swim_config),
            running: false,
        }
    }

    /// A registry from simple parameters; the address is set later (empty).
    pub fn new_simple(
        local_node_id: String,
        cache_ttl_seconds: Option<u64>,
        gossip_enabled: Option<bool>,
        gossip_interval_ms: Option<u64>,
        gossip_fanout: Option<usize>,
    ) -> (r: NodeRegistry)
        requires
            cache_ttl_seconds matches Some(s) ==> s * 1000 <= u64::MAX,
        ensures
            r@.config == (NodeRegistryConfig {
                cache_ttl: Duration { millis: (match cache_ttl_seconds { Some(s) => s, None => 60 } * 1000) as u64 },
                gossip_enabled: match gossip_enabled { Some(g) => g, None => true },
                swim_config: SwimConfig {
                    protocol_period: Duration { millis: match gossip_interval_ms { Some(m) => m, None => 1000 } },
                    indirect_ping_nodes: match gossip_fanout { Some(f) => f, None => 3 },
                    ..default_swim_config()
                },
                ..default_registry_config()
            }),
            r@.swim == initial_protocol(local_node_id@, Seq::empty(), r@.config.swim_config),
            !r@.running,
            protocol_wf(r@.swim),
    {
        let mut config = NodeRegistryConfig::default();
        config.cache_ttl = Duration::from_secs(match cache_ttl_seconds {
            Some(s) => s,
            None => DEFAULT_CACHE_TTL_SECONDS,
        });
        config.gossip_enabled = match gossip_enabled {
            Some(g) => g,
            None => true,
        };
        config.swim_config.protocol_period = Duration::from_millis(match gossip_interval_ms {
            Some(m) => m,
            None => DEFAULT_GOSSIP_INTERVAL_MS,
        });
        config.swim_config.indirect_ping_nodes = match gossip_fanout {
            Some(f) => f,
            None => DEFAULT_GOSSIP_FANOUT,
        };
        NodeRegistry::new(local_node_id, String::new(), config)
    }

    /// The registry configuration described by an optional configuration
    /// message; unset (zero) fields keep their defaults.
    pub fn config_from_proto(proto_config: Option<&ProtoNodeRegistryConfig>) -> (c: NodeRegistryConfig)
        ensures
            c == registry_config_of(match proto_config { Some(p) => Some(*p), None => None }),
    {
        let mut config = NodeRegistryConfig::default();
        if let Some(proto) = proto_config {
            config.cache_ttl = seconds_or(proto.cache_ttl_seconds, config.cache_ttl);
            config.gossip_enabled = proto.gossip_enabled;
            if let Some(swim_proto) = &proto.swim {
                config.swim_config = NodeRegistry::swim_config_from_proto(swim_proto);
            }
            config.use_shared_db = proto.use_shared_db;
            config.db_sync_interval = seconds_or(proto.db_sync_interval_seconds, config.db_sync_interval);
            config.active_node_window = seconds_or(proto.active_node_window_seconds, config.active_node_window);
            if let Some(backoff_proto) = &proto.db_backoff {
                config.db_backoff_base = millis_or(backoff_proto.base_delay_ms, config.db_backoff_base);
                config.db_backoff_cap = millis_or(backoff_proto.max_delay_ms, config.db_backoff_cap);
                if backoff_proto.max_attempts > 0 {
                    config.db_max_attempts = backoff_proto.max_attempts;
                }
            }
        }
        config
    }

    /// The SWIM configuration described by a configuration message; unset
    /// (zero) fields keep their defaults.
    pub fn swim_config_from_proto(proto: &ProtoSwimConfig) -> (c: SwimConfig)
        ensures
            c == swim_config_of(*proto),
    {
        let mut config = SwimConfig::default();
        config.protocol_period = millis_or(proto.protocol_period_ms, config.protocol_period);
        config.probe_timeout = millis_or(proto.probe_timeout_ms, config.probe_timeout);
        if proto.indirect_ping_nodes > 0 {
            config.indirect_ping_nodes = proto.indirect_ping_nodes as usize;
        }
        if proto.suspicion_multiplier > 0 {
            config.suspicion_mult = proto.suspicion_multiplier;
        }
        config.suspicion_min = millis_or(proto.suspicion_min_ms, config.suspicion_min);
        config.suspicion_max = millis_or(proto.suspicion_max_ms, config.suspicion_max);
        config.dead_node_reap_timeout = seconds_or(proto.dead_node_reap_seconds, config.dead_node_reap_timeout);
        if proto.max_piggyback_updates > 0 {
            config.max_piggyback_updates = proto.max_piggyback_updates as usize;
        }
        if proto.broadcast_limit > 0 {
            config.broadcast_limit = proto.broadcast_limit;
        }
        config.anti_entropy_interval = seconds_or(proto.anti_entropy_interval_seconds, config.anti_entropy_interval);
        config
    }

    /// The registry configuration.
    pub fn config(&self) -> (c: &NodeRegistryConfig)
        ensures
            *c == self@.config,
    {
        &self.config
    }

    /// The SWIM protocol instance.
    pub fn swim(&self) -> (s: &SwimProtocol)
        ensures
            s@ == self@.swim,
    {
        &self.swim
    }

    /// The SWIM protocol instance, for updates.
    pub fn swim_mut(&mut self) -> (s: &mut SwimProtocol)
        ensures
            (*s)@ == old(self)@.swim,
            final(self)@ == (RegistryView { swim: final(s)@, ..old(self)@ }),
    {
        &mut self.swim
    }

    /// Starts gossip unless disabled or already running; returns whether it
    /// was started now.
    pub fn start_gossip_protocol(&mut self) -> (started: bool)
        ensures
            started == (old(self)@.config.gossip_enabled && !old(self)@.running),
            final(self)@ == (RegistryView { running: old(self)@.running || started, ..old(self)@ }),
    {
        if !self.config.gossip_enabled {
            return false;
        }
        if self.running {
            return false;
        }
        self.running = true;
        true
    }

    /// Stops gossip if it was running (the SWIM protocol stops too).
    pub fn stop_gossip_protocol(&mut self)
        ensures
            final(self)@ == if old(self)@.running {
                RegistryView { running: false, swim: ProtocolView { running: false, ..old(self)@.swim }, ..old(self)@ }
            } else {
                old(self)@
            },
    {
        if self.running {
            self.running = false;
            self.swim.stop();
        }
    }

    /// Gossip is running.
    pub fn is_gossip_running(&self) -> (b: bool)
        ensures
            b == self@.running,
    {
        self.running
    }

    /// The node ID is a seed placeholder (`_unknown_...`).
    pub fn is_unknown_node_id(node_id: &str) -> (b: bool)
        ensures
            b == begins_with(node_id@, unknown_prefix()),
    {
        starts_with(node_id, "_unknown_")
    }

    /// The target looks like an address (URL or `host:port`), not a node ID.
    pub fn looks_like_address(target: &str) -> (b: bool)
        ensures
            b == addressy(target@),
    {
        starts_with(target, "http://") || starts_with(target, "https://") || contains_char(target, ':')
    }

    /// A member is probed unless its last successful probe is older than one
    /// day at `now`.
    pub fn should_probe_member_at(member: &SwimMember, now: Instant) -> (b: bool)
        ensures
            b == match member.last_probe_success {
                Some(t) => !longer_than(t, now, Duration { millis: MAX_PROBE_AGE_MILLIS }),
                None => true,
            },
    {
        match member.last_probe_success {
            Some(t) => !t.elapsed_exceeds(now, Duration::from_millis(MAX_PROBE_AGE_MILLIS)),
            None => true,
        }
    }

    /// A member is probed unless its last successful probe is older than one
    /// day by the current clock.
    pub fn should_probe_member(member: &SwimMember) -> (b: bool)
        ensures
            member.last_probe_success.is_none() ==> b,
            exists|now: Instant| b == #[trigger] probe_wanted(member.last_probe_success, now),
    {
        let now = Instant::now();
        let b = NodeRegistry::should_probe_member_at(member, now);
        assert(b == probe_wanted(member.last_probe_success, now));
        b
    }

    /// The registration synthesized from a SWIM member.
    pub fn swim_member_to_node_registration(member: &SwimMember) -> (r: NodeRegistration)
        ensures
            r@ == registration_of_member(member@),
            (r.status == NodeStatus::Ready) <==> (member.state == NodeState::Alive),
            member.state == NodeState::Suspect ==> r.status == NodeStatus::Busy,
            (member.state == NodeState::Dead || member.state == NodeState::Left) ==> r.status == NodeStatus::Stopped,
            r.node_id@ == member.node_id@,
            r.node_address@ == member.address@,
    {
        proof {
            lemma_member_status(member@);
        }
        let status = match member.state {
            NodeState::Alive => NodeStatus::Ready,
            NodeState::Suspect => NodeStatus::Busy,
            NodeState::Dead | NodeState::Left => NodeStatus::Stopped,
        };
        NodeRegistration {
            node_role: NodeRole::Unspecified,
            node_id: member.node_id.clone(),
            node_address: member.address.clone(),
            capabilities: member.metadata.clone(),
            status,
            last_heartbeat: match member.last_probe_success {
                Some(t) => Some(Timestamp {
                    seconds: (t.nanos / 1_000_000_000) as i64,
                    nanos: (t.nanos % 1_000_000_000) as i32,
                }),
                None => None,
            },
            error_count: member.failed_probes as u64,
            registered_at: None,
        }
    }

    /// Decides what to do with a successful ping answer from `target`.
    pub fn reconcile_ping_decision(
        target: &SwimMember,
        reported_node_id: &str,
        reported_address: &str,
        remote_cluster: &str,
        local_cluster: &str,
    ) -> (r: PingReconciliation)
        ensures
            ({
                let d = ping_decision(target.node_id@, target.address@, reported_node_id@, reported_address@, remote_cluster@, local_cluster@);
                &&& (r is ClusterMismatch) == d.0
                &&& !d.0 ==> reconciliation_view(r) == d
            }),
            r matches PingReconciliation::Register { node_id, drop_placeholder, .. } ==> (drop_placeholder <==> (
                node_id@ != target.node_id@ && target.node_id@.len() >= 9 && target.node_id@.subrange(0, 9) == "_unknown_"@)),
    {
        proof {
            lemma_only_placeholders_are_dropped(target.node_id@, target.address@, reported_node_id@, reported_address@, remote_cluster@, local_cluster@);
        }
        let mismatch = local_cluster.unicode_len() > 0 && remote_cluster.unicode_len() > 0
            && !str_eq(local_cluster, remote_cluster);
        if mismatch {
            return PingReconciliation::ClusterMismatch;
        }
        let node_id = if reported_node_id.unicode_len() == 0 {
            target.node_id.clone()
        } else {
            crate::text::owned(reported_node_id)
        };
        let node_address = if reported_address.unicode_len() == 0 {
            target.address.clone()
        } else {
            crate::text::owned(reported_address)
        };
        let cluster_label = if remote_cluster.unicode_len() > 0 {
            crate::text::owned(remote_cluster)
        } else {
            crate::text::owned(local_cluster)
        };
        let drop_placeholder = !str_eq(node_id.as_str(), target.node_id.as_str())
            && NodeRegistry::is_unknown_node_id(target.node_id.as_str());
        PingReconciliation::Register { node_id, node_address, cluster_label, drop_placeholder }
    }

    /// The part of a node lookup answered from local knowledge: a cached
    /// registration (if any) wins; else an active SWIM member is turned into a
    /// registration; a member known as dead or departed is not resurrected;
    /// otherwise the lookup must go to the object registry.
    pub fn lookup_local(&self, target: &str, cached: Option<NodeRegistration>) -> (r: LocalLookup)
        requires
            protocol_wf(self@.swim),
        ensures
            ({
                let m = lookup(self@.swim, target@);
                match cached {
                    Some(c) => r matches LocalLookup::Found(x) && x@ == c@,
                    None => match m {
                        Some(mv) => if crate::swim::active(mv.state) {
                            r matches LocalLookup::Found(x) && x@ == registration_of_member(mv)
                        } else {
                            r is Gone
                        },
                        None => r is Unknown,
                    },
                }
            }),
    {
        if let Some(c) = cached {
            return LocalLookup::Found(c);
        }
        match self.swim.get_member(target) {
            Some(m) => {
                if m.state.is_active() {
                    LocalLookup::Found(NodeRegistry::swim_member_to_node_registration(&m))
                } else {
                    LocalLookup::Gone
                }
            },
            None => LocalLookup::Unknown,
        }
    }
}

} // verus!
