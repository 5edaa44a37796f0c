//! Node-service rules for joining and leaving a cluster: how seed addresses
//! are normalized and registered, how long a connect may take, and what is
//! done with each entry of a connect or disconnect request.

use std::collections::HashMap;
use vstd::prelude::*;

use crate::node_registry::{NodeRegistration, NodeRole, NodeStatus, Timestamp, addressy, unknown_prefix};
use crate::accounts::RequestError;
use crate::process_groups::{insert_sorted_unique, strictly_sorted};
use crate::ids::is_ulid_text;
use crate::labels::{label_insert, label_value};
use crate::text::{concat, contains_char, contains_seq, contains_str, has_prefix, owned, starts_with, str_eq, string_views};

verus! {

/// A node address as a URL: unchanged when it has an HTTP(S) scheme, else
/// with `http://` in front.
pub open spec fn normalized_address(address: Seq<char>) -> Seq<char> {
    if has_prefix(address, "http://"@) || has_prefix(address, "https://"@) {
        address
    } else {
        "http://"@ + address
    }
}

/// A node address as a URL.
pub fn normalize_node_address(address: &str) -> (s: String)
    ensures
        s@ == normalized_address(address@),
{
    if starts_with(address, "http://") || starts_with(address, "https://") {
        owned(address)
    } else {
        concat("http://", address)
    }
}

/// An entry of a connect request names an address (URL or `host:port`)
/// rather than a node ID.
pub fn looks_like_address(s: &str) -> (b: bool)
    ensures
        b == addressy(s@),
{
    contains_char(s, ':') || starts_with(s, "http://") || starts_with(s, "https://")
}

/// A placeholder node ID for a seed whose identity is not known yet: the
/// unknown-node prefix followed by a fresh ULID.
pub fn unknown_node_id() -> (s: String)
    ensures
        has_prefix(s@, unknown_prefix()),
        is_ulid_text(s@.subrange(unknown_prefix().len() as int, s@.len() as int)),
{
    let id = crate::ids::new_ulid_string();
    let s = concat("_unknown_", id.as_str());
    proof {
        reveal_strlit("_unknown_");
        assert(s@.subrange(0, unknown_prefix().len() as int) =~= unknown_prefix());
        assert(s@.subrange(unknown_prefix().len() as int, s@.len() as int) =~= id@);
    }
    s
}

/// A map with one entry: `HashMap::from([(key, value)])`, which holds
/// exactly that entry.
#[verifier::external_body]
fn single_entry_map(key: String, value: String) -> (m: HashMap<String,String>)
    ensures
        m@ == Map::empty().insert(key, value),
{
    HashMap::from([(key, value)])
}

/// The registration of a seed address registered at `now` under the
/// placeholder ID `node_id`, for cluster `cluster_name`.
pub fn seeded_node_registration_with(
    node_id: String,
    address: &str,
    cluster_name: &str,
    now: Timestamp,
) -> (r: NodeRegistration)
    ensures
        r@.node_id == node_id@,
        r@.node_address == normalized_address(address@),
        cluster_name@.len() == 0 ==> r@.capabilities == Map::<String, String>::empty(),
        cluster_name@.len() > 0 ==> exists|k: String, v: String|
            k@ == "cluster"@ && v@ == cluster_name@ && r@.capabilities == Map::<String, String>::empty().insert(k, v),
        r@.status == NodeStatus::Ready,
        r@.last_heartbeat == Some(now),
        r@.registered_at == Some(now),
        r@.error_count == 0,
        r@.node_role == NodeRole::Unspecified,
{
    let capabilities = if cluster_name.unicode_len() == 0 {
        HashMap::new()
    } else {
        single_entry_map(owned("cluster"), owned(cluster_name))
    };
    NodeRegistration {
        node_role: NodeRole::Unspecified,
        node_id,
        node_address: normalize_node_address(address),
        capabilities,
        status: NodeStatus::Ready,
        last_heartbeat: Some(now),
        error_count: 0,
        registered_at: Some(now),
    }
}

/// The registration of a seed address under a fresh placeholder ID, stamped
/// with the current time.
pub fn seeded_node_registration(address: &str, cluster_name: &str) -> (r: NodeRegistration)
    ensures
        has_prefix(r@.node_id, unknown_prefix()),
        is_ulid_text(r@.node_id.subrange(unknown_prefix().len() as int, r@.node_id.len() as int)),
        r@.node_address == normalized_address(address@),
        cluster_name@.len() == 0 ==> r@.capabilities == Map::<String, String>::empty(),
        cluster_name@.len() > 0 ==> exists|k: String, v: String|
            k@ == "cluster"@ && v@ == cluster_name@ && r@.capabilities == Map::<String, String>::empty().insert(k, v),
        r@.status == NodeStatus::Ready,
        r@.last_heartbeat == r@.registered_at,
        r@.last_heartbeat is Some,
        r@.error_count == 0,
{
    let now = crate::time::current_timestamp();
    seeded_node_registration_with(unknown_node_id(), address, cluster_name, now)
}

// ============================================================================
// Connect and disconnect requests
// ============================================================================

/// Shortest time given to a connect, in seconds.
pub const CONNECT_TIMEOUT_MIN_SECS: u64 = 5;

/// Longest time given to a connect, in seconds.
pub const CONNECT_TIMEOUT_MAX_SECS: u64 = 300;

/// Time given to a connect per address, in seconds.
pub const CONNECT_TIMEOUT_SECS_PER_ADDRESS: u64 = 1;

/// The time given to connecting `n` addresses: one second each, at least
/// the minimum and at most the maximum.
pub open spec fn connect_timeout_of(n: nat) -> u64 {
    let t = n * CONNECT_TIMEOUT_SECS_PER_ADDRESS;
    if t < CONNECT_TIMEOUT_MIN_SECS {
        CONNECT_TIMEOUT_MIN_SECS
    } else if t > CONNECT_TIMEOUT_MAX_SECS {
        CONNECT_TIMEOUT_MAX_SECS
    } else {
        t as u64
    }
}

/// The timeout of a connect to `n_addresses` addresses: the given one, else
/// one second per address within the bounds.
pub fn connect_timeout_secs(n_addresses: usize, timeout_secs: Option<u64>) -> (t: u64)
    ensures
        t == match timeout_secs {
            Some(s) => s,
            None => connect_timeout_of(n_addresses as nat),
        },
{
    match timeout_secs {
        Some(s) => s,
        None => {
            let n = n_addresses as u64;
            if n < CONNECT_TIMEOUT_MIN_SECS {
                CONNECT_TIMEOUT_MIN_SECS
            } else if n > CONNECT_TIMEOUT_MAX_SECS {
                CONNECT_TIMEOUT_MAX_SECS
            } else {
                n
            }
        },
    }
}

/// The timeout of a connect request, in whole seconds: the request's
/// duration (seconds, plus whole seconds of its nanoseconds), else 5.
pub fn request_timeout_secs(timeout: Option<(i64, i32)>) -> (t: u64)
    requires
        timeout matches Some((s, n)) ==> (s as u64) + (n as u64) / 1_000_000_000 <= u64::MAX,
    ensures
        t == match timeout {
            Some((s, n)) => ((s as u64) + (n as u64) / 1_000_000_000) as u64,
            None => 5,
        },
{
    match timeout {
        Some((s, n)) => (s as u64) + (n as u64) / 1_000_000_000,
        None => 5,
    }
}

/// A connect request needs at least one address.
pub fn check_connect_request(node_addresses: &Vec<String>) -> (r: Result<(), String>)
    ensures
        node_addresses@.len() == 0 ==> (r matches Err(m) && m@ == "At least one node address is required"@),
        node_addresses@.len() > 0 ==> r is Ok,
{
    if node_addresses.len() == 0 {
        Err(owned("At least one node address is required"))
    } else {
        Ok(())
    }
}

/// A disconnect request needs at least one node ID.
pub fn check_disconnect_request(node_ids: &Vec<String>) -> (r: Result<(), String>)
    ensures
        node_ids@.len() == 0 ==> (r matches Err(m) && m@ == "At least one node_id is required"@),
        node_ids@.len() > 0 ==> r is Ok,
{
    if node_ids.len() == 0 {
        Err(owned("At least one node_id is required"))
    } else {
        Ok(())
    }
}

/// An unregistration that failed because the node was not known counts as a
/// disconnect: disconnecting is idempotent.
pub fn disconnect_error_is_idempotent(error: &str) -> (b: bool)
    ensures
        b == (contains_seq(error@, "not found"@) || contains_seq(error@, "NotFound"@)),
{
    contains_str(error, "not found") || contains_str(error, "NotFound")
}

/// How an entry of a connect request is looked up.
#[derive(Debug, PartialEq, Eq, Structural)]
pub enum ConnectEntryPlan {
    /// The entry is an address of the local node: nothing to do.
    SkipLocalAlias,
    /// The entry is an address: look the node up by its normalized address.
    LookupByAddress,
    /// The entry is a node ID: look the node up by ID.
    LookupByNodeId,
}

/// How to handle a connect entry whose canonical address key (for an
/// address) is `entry_key`, given the keys of the local node's addresses.
pub fn plan_connect_entry(entry: &str, entry_key: &str, local_address_keys: &Vec<String>) -> (p: ConnectEntryPlan)
    ensures
        p == if !addressy(entry@) {
            ConnectEntryPlan::LookupByNodeId
        } else if exists|i: int| 0 <= i < local_address_keys@.len() && local_address_keys@[i]@ == entry_key@ {
            ConnectEntryPlan::SkipLocalAlias
        } else {
            ConnectEntryPlan::LookupByAddress
        },
{
    if !looks_like_address(entry) {
        return ConnectEntryPlan::LookupByNodeId;
    }
    let mut i: usize = 0;
    while i < local_address_keys.len()
        invariant
            addressy(entry@),
            i <= local_address_keys@.len(),
            forall|j: int| 0 <= j < i ==> local_address_keys@[j]@ != entry_key@,
        decreases local_address_keys.len() - i,
    {
        if str_eq(local_address_keys[i].as_str(), entry_key) {
            assert(local_address_keys@[i as int]@ == entry_key@);
            return ConnectEntryPlan::SkipLocalAlias;
        }
        i = i + 1;
    }
    ConnectEntryPlan::LookupByAddress
}

/// What is done with a connect entry once it has been looked up.
#[derive(Debug)]
pub enum ConnectEntryStep {
    /// The node is known: report it connected.  When `reconcile` is set, it
    /// is still a seed placeholder and a reconciling ping is started.
    AlreadyConnected { node_id: String, node_address: String, reconcile: bool },
    /// An unknown address: register it as a seed.
    RegisterSeed,
    /// The entry failed with the given reason.
    Failed(String),
}

/// The step for a connect entry after its lookup (`Ok(Some((id, address)))`
/// for a known node, `Ok(None)` for an unknown one, `Err` with the lookup
/// error's message).
pub fn connect_entry_step(is_address: bool, lookup: Result<Option<(String, String)>, String>) -> (s: ConnectEntryStep)
    ensures
        match lookup {
            Ok(Some((id, address))) => s matches ConnectEntryStep::AlreadyConnected { node_id, node_address, reconcile }
                && node_id@ == id@ && node_address@ == address@ && reconcile == has_prefix(id@, unknown_prefix()),
            Ok(None) => if is_address {
                s is RegisterSeed
            } else {
                s matches ConnectEntryStep::Failed(m) && m@ == "node_id not in registry"@
            },
            Err(e) => s matches ConnectEntryStep::Failed(m) && m@ == "lookup failed: "@ + e@,
        },
{
    match lookup {
        Ok(Some((id, address))) => {
            let reconcile = crate::node_registry::NodeRegistry::is_unknown_node_id(id.as_str());
            ConnectEntryStep::AlreadyConnected { node_id: id, node_address: address, reconcile }
        },
        Ok(None) => {
            if is_address {
                ConnectEntryStep::RegisterSeed
            } else {
                ConnectEntryStep::Failed(owned("node_id not in registry"))
            }
        },
        Err(e) => ConnectEntryStep::Failed(concat("lookup failed: ", e.as_str())),
    }
}

/// The failure reason of a seed registration that failed with `error`.
pub fn registration_failure(error: &str) -> (m: String)
    ensures
        m@ == "registration failed: "@ + error@,
{
    concat("registration failed: ", error)
}

/// Node requests are answered for the local node only; any other node ID is
/// answered `Node not found: <id>`.
pub fn check_local_node(requested_node_id: &str, local_node_id: &str) -> (r: Result<(), RequestError>)
    ensures
        requested_node_id@ == local_node_id@ ==> r is Ok,
        requested_node_id@ != local_node_id@ ==> (r matches Err(RequestError::NotFound(m))
            && m@ == "Node not found: "@ + requested_node_id@),
{
    if str_eq(requested_node_id, local_node_id) {
        Ok(())
    } else {
        Err(RequestError::NotFound(concat("Node not found: ", requested_node_id)))
    }
}

/// The health a node reports.
#[derive(Debug, Clone, Copy, PartialEq, Eq, Structural)]
pub enum NodeHealth {
    Healthy,
    Degraded,
}

/// The local node's health and message: degraded while it shuts down.
pub fn local_health(shutting_down: bool) -> (r: (NodeHealth, String))
    ensures
        shutting_down ==> r.0 == NodeHealth::Degraded && r.1@ == "Node is shutting down"@,
        !shutting_down ==> r.0 == NodeHealth::Healthy && r.1@ == "Healthy"@,
{
    if shutting_down {
        (NodeHealth::Degraded, owned("Node is shutting down"))
    } else {
        (NodeHealth::Healthy, owned("Healthy"))
    }
}

/// The address a node answers pings with, before it is made dialable: its
/// gRPC address when one is configured, else its listen address.
pub fn advertised_address<'a>(grpc_address: &'a str, listen_addr: &'a str) -> (r: &'a str)
    ensures
        r@ == if grpc_address@.len() > 0 { grpc_address@ } else { listen_addr@ },
{
    if grpc_address.unicode_len() > 0 {
        grpc_address
    } else {
        listen_addr
    }
}

/// An indirect ping reports its target alive when the request names the
/// target's address.
pub fn ping_req_target_alive(target_address: &str) -> (b: bool)
    ensures
        b == (target_address@.len() > 0),
{
    target_address.unicode_len() > 0
}

/// The address keys of the local node, given its addresses with their keys:
/// the keys of the non-empty addresses, sorted, each once.
pub fn local_node_address_keys(addresses: &Vec<(String, String)>) -> (keys: Vec<String>)
    ensures
        strictly_sorted(string_views(keys@)),
        forall|y: Seq<char>| string_views(keys@).contains(y) <==> exists|i: int|
            0 <= i < addresses@.len() && addresses@[i].0@.len() > 0 && #[trigger] addresses@[i].1@ == y,
{
    let mut keys: Vec<String> = Vec::new();
    let mut k: usize = 0;
    assert(string_views(keys@) =~= Seq::<Seq<char>>::empty());
    while k < addresses.len()
        invariant
            k <= addresses@.len(),
            strictly_sorted(string_views(keys@)),
            forall|y: Seq<char>| string_views(keys@).contains(y) <==> exists|i: int|
                0 <= i < k && addresses@[i].0@.len() > 0 && #[trigger] addresses@[i].1@ == y,
        decreases addresses.len() - k,
    {
        let ghost before = string_views(keys@);
        if addresses[k].0.unicode_len() > 0 {
            insert_sorted_unique(&mut keys, addresses[k].1.clone());
        }
        proof {
            assert forall|y: Seq<char>| string_views(keys@).contains(y) <==> exists|i: int|
                0 <= i < k + 1 && addresses@[i].0@.len() > 0 && #[trigger] addresses@[i].1@ == y by {
                if exists|i: int| 0 <= i < k + 1 && addresses@[i].0@.len() > 0 && #[trigger] addresses@[i].1@ == y {
                    let i = choose|i: int| 0 <= i < k + 1 && addresses@[i].0@.len() > 0 && #[trigger] addresses@[i].1@ == y;
                    if i < k {
                        assert(before.contains(y));
                    }
                }
                if string_views(keys@).contains(y) && !before.contains(y) {
                    assert(addresses@[k as int].1@ == y);
                }
            }
        }
        k = k + 1;
    }
    keys
}

/// The filter and page size of a connected-nodes listing: no cluster filter
/// for an empty cluster name; 100 nodes for a page size that is not positive.
pub fn connected_nodes_query(cluster: &str, page_size: i32) -> (r: (Option<String>, u32))
    ensures
        cluster@.len() == 0 ==> r.0 is None,
        cluster@.len() > 0 ==> (r.0 matches Some(c) && c@ == cluster@),
        r.1 == if page_size > 0 { page_size as u32 } else { 100 },
{
    let filter = if cluster.unicode_len() == 0 { None } else { Some(owned(cluster)) };
    let size: u32 = if page_size > 0 { page_size as u32 } else { 100 };
    (filter, size)
}


/// What became of one entry of a connect request.
pub enum EntryOutcome {
    /// The entry is an address of the local node.
    Skipped,
    /// The entry's node is reported connected under `node_id` at `address`.
    Connected { node_id: Seq<char>, address: Seq<char> },
    /// The entry failed for `reason`.
    Failed { reason: Seq<char> },
}

/// The address reported for node `t`: that of the last outcome connecting
/// it, if any.
pub open spec fn connected_value(outs: Seq<EntryOutcome>, t: Seq<char>) -> Option<Seq<char>>
    decreases outs.len(),
{
    if outs.len() == 0 {
        None
    } else {
        match outs.last() {
            EntryOutcome::Connected { node_id, address } if node_id == t => Some(address),
            _ => connected_value(outs.drop_last(), t),
        }
    }
}

/// The reason reported for entry `t`: that of the last failure of an entry
/// with that text, if any.
pub open spec fn failed_value(entries: Seq<Seq<char>>, outs: Seq<EntryOutcome>, t: Seq<char>) -> Option<Seq<char>>
    decreases outs.len(),
{
    if outs.len() == 0 || entries.len() != outs.len() {
        None
    } else {
        match outs.last() {
            EntryOutcome::Failed { reason } if entries.last() == t => Some(reason),
            _ => failed_value(entries.drop_last(), outs.drop_last(), t),
        }
    }
}

/// The progress of a connect request: the entries (addresses or node IDs),
/// how many have been handled and what became of each, whether the current
/// entry waits for its seed registration, the nodes reported connected (node
/// ID to address), the entries that failed (entry to reason), and the seed
/// placeholders a reconciling probe is started for.  The caller performs
/// the lookups and registrations and hands their outcomes to the run, entry
/// by entry, in request order.
pub struct ConnectRun {
    pub entries: Vec<String>,
    pub handled: usize,
    pub awaiting_registration: bool,
    pub outcomes: Ghost<Seq<EntryOutcome>>,
    pub connected: HashMap<String, String>,
    pub failed: HashMap<String, String>,
    pub to_reconcile: Vec<String>,
}

/// The run's reports are those of the outcomes of the entries handled so far.
pub open spec fn connect_run_wf(run: ConnectRun) -> bool {
    let es = string_views(run.entries@).take(run.handled as int);
    &&& run.handled <= run.entries@.len()
    &&& run.awaiting_registration ==> run.handled < run.entries@.len()
    &&& run.outcomes@.len() == run.handled
    &&& forall|t: Seq<char>| #[trigger] label_value(run.connected@, t) == connected_value(run.outcomes@, t)
    &&& forall|t: Seq<char>| #[trigger] label_value(run.failed@, t) == failed_value(es, run.outcomes@, t)
}

/// The run has a current entry to handle.
pub open spec fn connect_run_open(run: ConnectRun) -> bool {
    connect_run_wf(run) && run.handled < run.entries@.len() && !run.awaiting_registration
}

/// `w` is `v` with one more entry handled, ending in `o`; the entries stay.
pub open spec fn handled_one_more(v: ConnectRun, w: ConnectRun, o: EntryOutcome) -> bool {
    &&& w.entries@ == v.entries@
    &&& w.handled == v.handled + 1
    &&& !w.awaiting_registration
    &&& w.outcomes@ == v.outcomes@.push(o)
}

/// The current entry of the run.
pub open spec fn current_entry(run: ConnectRun) -> Seq<char> {
    run.entries@[run.handled as int]@
}

/// Starts a connect request for `entries`.  An empty request succeeds with
/// nothing to do, whether a node registry is available or not; a request
/// with entries fails with `NodeRegistry not available` when there is no
/// registry, and otherwise starts with nothing handled.
pub fn begin_connect(entries: Vec<String>, registry_available: bool) -> (r: Result<ConnectRun, String>)
    ensures
        entries@.len() == 0 ==> (r matches Ok(run) && connect_run_wf(run) && run.entries@.len() == 0
            && run.connected@ == Map::<String, String>::empty() && run.failed@ == Map::<String, String>::empty()),
        entries@.len() > 0 && !registry_available ==> (r matches Err(m) && m@ == "NodeRegistry not available"@),
        entries@.len() > 0 && registry_available ==> (r matches Ok(run) && connect_run_wf(run)
            && run.entries@ == entries@ && run.handled == 0 && !run.awaiting_registration
            && run.to_reconcile@.len() == 0),
{
    if entries.len() > 0 && !registry_available {
        return Err(owned("NodeRegistry not available"));
    }
    Ok(ConnectRun {
        entries,
        handled: 0,
        awaiting_registration: false,
        outcomes: Ghost(Seq::empty()),
        connected: HashMap::new(),
        failed: HashMap::new(),
        to_reconcile: Vec::new(),
    })
}

impl ConnectRun {
    /// The entry to handle next, if any is left.
    pub fn next_entry(&self) -> (r: Option<String>)
        requires
            connect_run_wf(*self),
        ensures
            self.handled < self.entries@.len() ==> (r matches Some(e) && e@ == current_entry(*self)),
            self.handled >= self.entries@.len() ==> r is None,
    {
        if self.handled < self.entries.len() {
            Some(self.entries[self.handled].clone())
        } else {
            None
        }
    }

    /// Plans the current entry, whose canonical address key (for an
    /// address) is `entry_key`, given the keys of the local node's
    /// addresses.  An address of the local node is skipped: it is handled
    /// with nothing reported.
    pub fn plan_current(&mut self, entry_key: &str, local_address_keys: &Vec<String>) -> (p: ConnectEntryPlan)
        requires
            connect_run_open(*old(self)),
        ensures
            p == if !addressy(current_entry(*old(self))) {
                ConnectEntryPlan::LookupByNodeId
            } else if exists|i: int| 0 <= i < local_address_keys@.len() && local_address_keys@[i]@ == entry_key@ {
                ConnectEntryPlan::SkipLocalAlias
            } else {
                ConnectEntryPlan::LookupByAddress
            },
            connect_run_wf(*final(self)),
            p == ConnectEntryPlan::SkipLocalAlias ==> handled_one_more(*old(self), *final(self), EntryOutcome::Skipped)
                && final(self).connected@ == old(self).connected@ && final(self).failed@ == old(self).failed@
                && final(self).to_reconcile@ == old(self).to_reconcile@,
            p != ConnectEntryPlan::SkipLocalAlias ==> *final(self) == *old(self),
    {
        let h = self.handled;
        let n = self.entries.len();
        let p = plan_connect_entry(self.entries[h].as_str(), entry_key, local_address_keys);
        if p == ConnectEntryPlan::SkipLocalAlias {
            let ghost es0 = string_views(self.entries@).take(h as int);
            let ghost outs0 = self.outcomes@;
            proof {
                self.outcomes@ = self.outcomes@.push(EntryOutcome::Skipped);
            }
            assert(h < n);
        self.handled = h + 1;
            proof {
                let es1 = string_views(self.entries@).take(self.handled as int);
                assert(es1.drop_last() =~= es0);
                assert(self.outcomes@.drop_last() =~= outs0);
                assert forall|t: Seq<char>| #[trigger] label_value(self.connected@, t) == connected_value(self.outcomes@, t) by {}
                assert forall|t: Seq<char>| #[trigger] label_value(self.failed@, t) == failed_value(es1, self.outcomes@, t) by {}
            }
        }
        p
    }

    /// Records the lookup of the current entry (`Ok(Some((id, address)))` for
    /// a node already registered, `Ok(None)` for an unknown one, `Err` with
    /// the lookup error's message).  A registered node is reported connected
    /// under its ID (and, when it is still a seed placeholder, queued for
    /// reconciliation); an unknown address asks the caller to register it as
    /// a seed (the result is `true`, and the entry waits for
    /// [`ConnectRun::record_registration`]); an unknown node ID or a failed
    /// lookup fails the entry.
    pub fn record_lookup(&mut self, lookup: Result<Option<(String, String)>, String>) -> (register: bool)
        requires
            connect_run_open(*old(self)),
        ensures
            connect_run_wf(*final(self)),
            match lookup {
                Ok(Some((id, address))) => {
                    &&& !register
                    &&& handled_one_more(*old(self), *final(self), EntryOutcome::Connected { node_id: id@, address: address@ })
                    &&& string_views(final(self).to_reconcile@) == if has_prefix(id@, unknown_prefix()) {
                        string_views(old(self).to_reconcile@).push(id@)
                    } else {
                        string_views(old(self).to_reconcile@)
                    }
                },
                Ok(None) => if addressy(current_entry(*old(self))) {
                    &&& register
                    &&& final(self).awaiting_registration
                    &&& *final(self) == (ConnectRun { awaiting_registration: true, ..*old(self) })
                } else {
                    &&& !register
                    &&& handled_one_more(*old(self), *final(self), EntryOutcome::Failed { reason: "node_id not in registry"@ })
                    &&& final(self).to_reconcile@ == old(self).to_reconcile@
                },
                Err(e) => {
                    &&& !register
                    &&& handled_one_more(*old(self), *final(self), EntryOutcome::Failed { reason: "lookup failed: "@ + e@ })
                    &&& final(self).to_reconcile@ == old(self).to_reconcile@
                },
            },
    {
        let h = self.handled;
        let n = self.entries.len();
        let ghost es0 = string_views(self.entries@).take(h as int);
        let ghost outs0 = self.outcomes@;
        let ghost connected0 = self.connected@;
        let ghost failed0 = self.failed@;
        let is_address = looks_like_address(self.entries[h].as_str());
        match connect_entry_step(is_address, lookup) {
            ConnectEntryStep::AlreadyConnected { node_id, node_address, reconcile } => {
                let ghost before = string_views(self.to_reconcile@);
                let ghost o = EntryOutcome::Connected { node_id: node_id@, address: node_address@ };
                if reconcile {
                    self.to_reconcile.push(node_id.clone());
                    proof {
                        assert(string_views(self.to_reconcile@) =~= before.push(node_id@));
                    }
                }
                label_insert(&mut self.connected, node_id, node_address);
                proof {
                    self.outcomes@ = self.outcomes@.push(o);
                }
                assert(h < n);
        self.handled = h + 1;
                proof {
                    let es1 = string_views(self.entries@).take(self.handled as int);
                    assert(es1.drop_last() =~= es0);
                    assert(self.outcomes@.drop_last() =~= outs0);
                    assert forall|t: Seq<char>| #[trigger] label_value(self.connected@, t) == connected_value(self.outcomes@, t) by {}
                    assert forall|t: Seq<char>| #[trigger] label_value(self.failed@, t) == failed_value(es1, self.outcomes@, t) by {}
                }
                false
            },
            ConnectEntryStep::RegisterSeed => {
                self.awaiting_registration = true;
                true
            },
            ConnectEntryStep::Failed(reason) => {
                let ghost o = EntryOutcome::Failed { reason: reason@ };
                let entry = self.entries[h].clone();
                label_insert(&mut self.failed, entry, reason);
                proof {
                    self.outcomes@ = self.outcomes@.push(o);
                }
                assert(h < n);
        self.handled = h + 1;
                proof {
                    let es1 = string_views(self.entries@).take(self.handled as int);
                    assert(es1.drop_last() =~= es0);
                    assert(es1.last() == self.entries@[h as int]@);
                    assert(self.outcomes@.drop_last() =~= outs0);
                    assert forall|t: Seq<char>| #[trigger] label_value(self.connected@, t) == connected_value(self.outcomes@, t) by {}
                    assert forall|t: Seq<char>| #[trigger] label_value(self.failed@, t) == failed_value(es1, self.outcomes@, t) by {
                        if t != es1.last() {
                            assert(label_value(self.failed@, t) == label_value(failed0, t));
                        }
                    }
                }
                false
            },
        }
    }

    /// Records the registration of the seed `(node_id, node_address)` made
    /// for the current entry: on success the seed is reported connected and
    /// queued for reconciliation; on failure the entry fails with
    /// `registration failed: <error>`.
    pub fn record_registration(&mut self, node_id: String, node_address: String, outcome: Result<(), String>)
        requires
            connect_run_wf(*old(self)),
            old(self).awaiting_registration,
        ensures
            connect_run_wf(*final(self)),
            match outcome {
                Ok(()) => {
                    &&& handled_one_more(*old(self), *final(self), EntryOutcome::Connected { node_id: node_id@, address: node_address@ })
                    &&& string_views(final(self).to_reconcile@) == string_views(old(self).to_reconcile@).push(node_id@)
                },
                Err(e) => {
                    &&& handled_one_more(*old(self), *final(self), EntryOutcome::Failed { reason: "registration failed: "@ + e@ })
                    &&& final(self).to_reconcile@ == old(self).to_reconcile@
                },
            },
    {
        let h = self.handled;
        let n = self.entries.len();
        let ghost es0 = string_views(self.entries@).take(h as int);
        let ghost outs0 = self.outcomes@;
        let ghost failed0 = self.failed@;
        match outcome {
            Ok(()) => {
                let ghost o = EntryOutcome::Connected { node_id: node_id@, address: node_address@ };
                let ghost before = string_views(self.to_reconcile@);
                self.to_reconcile.push(node_id.clone());
                proof {
                    assert(string_views(self.to_reconcile@) =~= before.push(node_id@));
                }
                label_insert(&mut self.connected, node_id, node_address);
                proof {
                    self.outcomes@ = self.outcomes@.push(o);
                }
                assert(h < n);
        self.handled = h + 1;
                self.awaiting_registration = false;
                proof {
                    let es1 = string_views(self.entries@).take(self.handled as int);
                    assert(es1.drop_last() =~= es0);
                    assert(self.outcomes@.drop_last() =~= outs0);
                    assert forall|t: Seq<char>| #[trigger] label_value(self.connected@, t) == connected_value(self.outcomes@, t) by {}
                    assert forall|t: Seq<char>| #[trigger] label_value(self.failed@, t) == failed_value(es1, self.outcomes@, t) by {}
                }
            },
            Err(e) => {
                let reason = registration_failure(e.as_str());
                let ghost o = EntryOutcome::Failed { reason: reason@ };
                let entry = self.entries[h].clone();
                label_insert(&mut self.failed, entry, reason);
                proof {
                    self.outcomes@ = self.outcomes@.push(o);
                }
                assert(h < n);
        self.handled = h + 1;
                self.awaiting_registration = false;
                proof {
                    let es1 = string_views(self.entries@).take(self.handled as int);
                    assert(es1.drop_last() =~= es0);
                    assert(es1.last() == self.entries@[h as int]@);
                    assert(self.outcomes@.drop_last() =~= outs0);
                    assert forall|t: Seq<char>| #[trigger] label_value(self.connected@, t) == connected_value(self.outcomes@, t) by {}
                    assert forall|t: Seq<char>| #[trigger] label_value(self.failed@, t) == failed_value(es1, self.outcomes@, t) by {
                        if t != es1.last() {
                            assert(label_value(self.failed@, t) == label_value(failed0, t));
                        }
                    }
                }
            },
        }
    }
}

/// The outcome connects node `t`.
pub open spec fn connects(o: EntryOutcome, t: Seq<char>) -> bool {
    o matches EntryOutcome::Connected { node_id, .. } && node_id == t
}

/// The last connection of node `t` among the outcomes decides its address.
proof fn lemma_connected_value(outs: Seq<EntryOutcome>, t: Seq<char>)
    ensures
        forall|k: int| 0 <= k < outs.len() && connects(#[trigger] outs[k], t)
            && (forall|j: int| k < j < outs.len() ==> !connects(outs[j], t))
            ==> connected_value(outs, t) == Some(outs[k]->address),
        connected_value(outs, t) is Some ==> exists|k: int| 0 <= k < outs.len() && connects(#[trigger] outs[k], t),
    decreases outs.len(),
{
    if outs.len() > 0 {
        let r = outs.drop_last();
        lemma_connected_value(r, t);
        let n = outs.len() - 1;
        assert(outs.last() == outs[n]);
        assert forall|k: int| 0 <= k < outs.len() && connects(#[trigger] outs[k], t)
            && (forall|j: int| k < j < outs.len() ==> !connects(outs[j], t))
            implies connected_value(outs, t) == Some(outs[k]->address) by {
            if k < n {
                assert(!connects(outs[n], t));
                assert(r[k] == outs[k]);
                assert forall|j: int| k < j < r.len() implies !connects(r[j], t) by {
                    assert(r[j] == outs[j]);
                }
            }
        }
        if connected_value(outs, t) is Some && !connects(outs[n], t) {
            assert(connected_value(r, t) is Some);
            let k = choose|k: int| 0 <= k < r.len() && connects(#[trigger] r[k], t);
            assert(outs[k] == r[k]);
        }
    }
}

/// The last failure of an entry with text `t` decides its reason.
proof fn lemma_failed_value(es: Seq<Seq<char>>, outs: Seq<EntryOutcome>, t: Seq<char>)
    requires
        es.len() == outs.len(),
    ensures
        forall|k: int| 0 <= k < outs.len() && (#[trigger] outs[k]) is Failed && es[k] == t
            && (forall|j: int| k < j < outs.len() ==> !(outs[j] is Failed && es[j] == t))
            ==> failed_value(es, outs, t) == Some(outs[k]->reason),
        failed_value(es, outs, t) is Some ==> exists|k: int| 0 <= k < outs.len() && (#[trigger] outs[k]) is Failed && es[k] == t,
    decreases outs.len(),
{
    if outs.len() > 0 {
        let r = outs.drop_last();
        let re = es.drop_last();
        lemma_failed_value(re, r, t);
        let n = outs.len() - 1;
        assert(outs.last() == outs[n] && es.last() == es[n]);
        assert forall|k: int| 0 <= k < outs.len() && (#[trigger] outs[k]) is Failed && es[k] == t
            && (forall|j: int| k < j < outs.len() ==> !(outs[j] is Failed && es[j] == t))
            implies failed_value(es, outs, t) == Some(outs[k]->reason) by {
            if k < n {
                assert(!(outs[n] is Failed && es[n] == t));
                assert(r[k] == outs[k] && re[k] == es[k]);
                assert forall|j: int| k < j < r.len() implies !(r[j] is Failed && re[j] == t) by {
                    assert(r[j] == outs[j] && re[j] == es[j]);
                }
            }
        }
        if failed_value(es, outs, t) is Some && !(outs[n] is Failed && es[n] == t) {
            assert(failed_value(re, r, t) is Some);
            let k = choose|k: int| 0 <= k < r.len() && (#[trigger] r[k]) is Failed && re[k] == t;
            assert(outs[k] == r[k] && es[k] == re[k]);
        }
    }
}

/// A finished connect run (every entry handled) has one outcome per entry,
/// in request order: skipped (a local address), connected, or failed.  Its
/// reports are exactly those of the outcomes: a node is reported connected at
/// the address of its last connection, an entry failed with the reason of
/// its last failure, and nothing is reported that no outcome gave.
pub proof fn lemma_finished_connect_run(run: ConnectRun)
    requires
        connect_run_wf(run),
        run.handled == run.entries@.len(),
    ensures
        run.outcomes@.len() == run.entries@.len(),
        forall|k: int, t: Seq<char>| 0 <= k < run.outcomes@.len() && #[trigger] connects(run.outcomes@[k], t)
            && (forall|j: int| k < j < run.outcomes@.len() ==> !connects(run.outcomes@[j], t))
            ==> label_value(run.connected@, t) == Some(run.outcomes@[k]->address),
        forall|k: int| 0 <= k < run.outcomes@.len() && (#[trigger] run.outcomes@[k]) is Failed
            && (forall|j: int| k < j < run.outcomes@.len() ==> !(run.outcomes@[j] is Failed && run.entries@[j]@ == run.entries@[k]@))
            ==> label_value(run.failed@, run.entries@[k]@) == Some(run.outcomes@[k]->reason),
        forall|t: Seq<char>| #[trigger] label_value(run.connected@, t) is Some
            ==> exists|k: int| 0 <= k < run.outcomes@.len() && connects(#[trigger] run.outcomes@[k], t),
        forall|t: Seq<char>| #[trigger] label_value(run.failed@, t) is Some
            ==> exists|k: int| 0 <= k < run.outcomes@.len() && (#[trigger] run.outcomes@[k]) is Failed && run.entries@[k]@ == t,
{
    let es = string_views(run.entries@);
    let outs = run.outcomes@;
    assert(es.take(run.handled as int) =~= es);
    assert forall|k: int, t: Seq<char>| 0 <= k < outs.len() && #[trigger] connects(outs[k], t)
        && (forall|j: int| k < j < outs.len() ==> !connects(outs[j], t))
        implies label_value(run.connected@, t) == Some(outs[k]->address) by {
        lemma_connected_value(outs, t);
    }
    assert forall|k: int| 0 <= k < outs.len() && (#[trigger] outs[k]) is Failed
        && (forall|j: int| k < j < outs.len() ==> !(outs[j] is Failed && run.entries@[j]@ == run.entries@[k]@))
        implies label_value(run.failed@, run.entries@[k]@) == Some(outs[k]->reason) by {
        let t = run.entries@[k]@;
        lemma_failed_value(es, outs, t);
        assert(es[k] == t);
        assert forall|j: int| k < j < outs.len() implies !(outs[j] is Failed && es[j] == t) by {
            assert(es[j] == run.entries@[j]@);
        }
    }
    assert forall|t: Seq<char>| #[trigger] label_value(run.connected@, t) is Some
        implies exists|k: int| 0 <= k < outs.len() && connects(#[trigger] outs[k], t) by {
        lemma_connected_value(outs, t);
    }
    assert forall|t: Seq<char>| #[trigger] label_value(run.failed@, t) is Some
        implies exists|k: int| 0 <= k < outs.len() && (#[trigger] outs[k]) is Failed && run.entries@[k]@ == t by {
        lemma_failed_value(es, outs, t);
        let k = choose|k: int| 0 <= k < outs.len() && (#[trigger] outs[k]) is Failed && es[k] == t;
        assert(es[k] == run.entries@[k]@);
    }
}

// ============================================================================
// Disconnect requests
// ============================================================================

/// An unregistration outcome counts as a disconnect: it succeeded, or it
/// failed because the node was not known (disconnecting is idempotent).
pub open spec fn counts_as_disconnected(o: Result<(), Seq<char>>) -> bool {
    match o {
        Ok(()) => true,
        Err(e) => contains_seq(e, "not found"@) || contains_seq(e, "NotFound"@),
    }
}

/// The node IDs reported disconnected, in request order, given the
/// unregistration outcome of each.
pub open spec fn disconnected_of(ids: Seq<Seq<char>>, outs: Seq<Result<(), Seq<char>>>) -> Seq<Seq<char>>
    decreases ids.len(),
{
    if ids.len() == 0 || outs.len() != ids.len() {
        Seq::empty()
    } else {
        let rest = disconnected_of(ids.drop_last(), outs.drop_last());
        if counts_as_disconnected(outs.last()) { rest.push(ids.last()) } else { rest }
    }
}

/// The failure reported for node `t`: the error of its last unregistration
/// that does not count as a disconnect, if any.
pub open spec fn failure_of(ids: Seq<Seq<char>>, outs: Seq<Result<(), Seq<char>>>, t: Seq<char>) -> Option<Seq<char>>
    decreases ids.len(),
{
    if ids.len() == 0 || outs.len() != ids.len() {
        None
    } else if ids.last() == t && !counts_as_disconnected(outs.last()) {
        match outs.last() {
            Err(e) => Some(e),
            Ok(()) => None,
        }
    } else {
        failure_of(ids.drop_last(), outs.drop_last(), t)
    }
}

/// The views of unregistration outcomes.
pub open spec fn outcome_views(outs: Seq<Result<(), String>>) -> Seq<Result<(), Seq<char>>> {
    outs.map_values(|o: Result<(), String>| match o {
        Ok(()) => Ok(()),
        Err(e) => Err(e@),
    })
}

/// The progress of a disconnect request: the node IDs to disconnect, how
/// many of them have been handled, the unregistration outcome of each
/// handled one, the nodes reported disconnected and the failed ones with
/// their errors.  The caller unregisters the nodes (and notifies them when
/// asked to) in request order and hands each outcome to
/// [`DisconnectRun::record`].
pub struct DisconnectRun {
    pub node_ids: Vec<String>,
    pub handled: usize,
    pub outcomes: Ghost<Seq<Result<(), Seq<char>>>>,
    pub disconnected: Vec<String>,
    pub failed: HashMap<String, String>,
}

/// The run's reports are those of the outcomes of the nodes handled so far.
pub open spec fn disconnect_run_wf(run: DisconnectRun) -> bool {
    let ids = string_views(run.node_ids@).take(run.handled as int);
    &&& run.handled <= run.node_ids@.len()
    &&& run.outcomes@.len() == run.handled
    &&& string_views(run.disconnected@) == disconnected_of(ids, run.outcomes@)
    &&& forall|t: Seq<char>| #[trigger] label_value(run.failed@, t) == failure_of(ids, run.outcomes@, t)
}

/// Starts a disconnect request for `node_ids`: it needs at least one node ID
/// and a node registry; it starts with nothing handled.
pub fn begin_disconnect(node_ids: Vec<String>, registry_available: bool) -> (r: Result<DisconnectRun, RequestError>)
    ensures
        node_ids@.len() == 0 ==> (r matches Err(RequestError::InvalidArgument(m)) && m@ == "At least one node_id is required"@),
        node_ids@.len() > 0 && !registry_available ==> (r matches Err(RequestError::Internal(m)) && m@ == "NodeRegistry not available"@),
        node_ids@.len() > 0 && registry_available ==> (r matches Ok(run) && disconnect_run_wf(run) && run.handled == 0
            && run.node_ids@ == node_ids@),
{
    if node_ids.len() == 0 {
        return Err(RequestError::InvalidArgument(owned("At least one node_id is required")));
    }
    if !registry_available {
        return Err(RequestError::Internal(owned("NodeRegistry not available")));
    }
    let run = DisconnectRun {
        node_ids,
        handled: 0,
        outcomes: Ghost(Seq::empty()),
        disconnected: Vec::new(),
        failed: HashMap::new(),
    };
    proof {
        assert(string_views(run.disconnected@) =~= Seq::<Seq<char>>::empty());
    }
    run
        .into_ok()
}

impl DisconnectRun {
    /// Wraps the run as a success.
    fn into_ok(self) -> (r: Result<DisconnectRun, RequestError>)
        ensures
            r == Ok::<DisconnectRun, RequestError>(self),
    {
        Ok(self)
    }

    /// The next node to unregister, if any is left.
    pub fn next_node(&self) -> (r: Option<String>)
        requires
            disconnect_run_wf(*self),
        ensures
            self.handled < self.node_ids@.len() ==> (r matches Some(id) && id@ == self.node_ids@[self.handled as int]@),
            self.handled >= self.node_ids@.len() ==> r is None,
    {
        if self.handled < self.node_ids.len() {
            Some(self.node_ids[self.handled].clone())
        } else {
            None
        }
    }

    /// Records the unregistration outcome of the next node: a success, or a
    /// failure because the node was not known, reports it disconnected; any
    /// other failure reports it failed with the error's message.
    pub fn record(&mut self, outcome: Result<(), String>)
        requires
            disconnect_run_wf(*old(self)),
            old(self).handled < old(self).node_ids@.len(),
        ensures
            disconnect_run_wf(*final(self)),
            final(self).node_ids@ == old(self).node_ids@,
            final(self).handled == old(self).handled + 1,
            final(self).outcomes@ == old(self).outcomes@.push(match outcome {
                Ok(()) => Ok(()),
                Err(e) => Err(e@),
            }),
    {
        let h = self.handled;
        let n = self.node_ids.len();
        let ghost ids0 = string_views(self.node_ids@).take(self.handled as int);
        let ghost outs0 = self.outcomes@;
        let ghost failed0 = self.failed@;
        let ghost o = match &outcome {
            Ok(()) => Ok::<(), Seq<char>>(()),
            Err(e) => Err(e@),
        };
        let id = self.node_ids[self.handled].clone();
        let ghost before = string_views(self.disconnected@);
        let counts = match &outcome {
            Ok(()) => true,
            Err(e) => disconnect_error_is_idempotent(e.as_str()),
        };
        assert(counts == counts_as_disconnected(o));
        if counts {
            self.disconnected.push(id);
            proof {
                assert(string_views(self.disconnected@) =~= before.push(id@));
            }
        } else {
            match outcome {
                Err(e) => {
                    label_insert(&mut self.failed, id, e);
                },
                Ok(()) => {},
            }
        }
        proof {
            self.outcomes@ = self.outcomes@.push(o);
        }
        assert(h < n);
        self.handled = h + 1;
        proof {
            let ids1 = string_views(self.node_ids@).take(self.handled as int);
            let outs1 = self.outcomes@;
            assert(ids1.drop_last() =~= ids0);
            assert(ids1.last() == self.node_ids@[h as int]@);
            assert(outs1.drop_last() =~= outs0);
            assert(outs1.last() == o);
            assert(string_views(self.disconnected@) == disconnected_of(ids1, outs1));
            assert forall|t: Seq<char>| #[trigger] label_value(self.failed@, t) == failure_of(ids1, outs1, t) by {
                if !counts {
                    if t != ids1.last() {
                        assert(label_value(self.failed@, t) == label_value(failed0, t));
                    }
                } else {
                    assert(self.failed@ == failed0);
                }
            }
        }
    }
}

/// Each node of a disconnect request with distinct node IDs is reported
/// exactly once: disconnected when its unregistration succeeded or failed
/// because the node was not known, and otherwise failed with the error.
pub proof fn lemma_disconnect_reports_each_node_once(ids: Seq<Seq<char>>, outs: Seq<Result<(), Seq<char>>>)
    requires
        outs.len() == ids.len(),
        forall|i: int, j: int| 0 <= i < ids.len() && 0 <= j < ids.len() && i != j ==> ids[i] != ids[j],
    ensures
        forall|k: int| 0 <= k < ids.len() ==> {
            &&& counts_as_disconnected(outs[k]) ==> disconnected_of(ids, outs).contains(#[trigger] ids[k])
                && failure_of(ids, outs, ids[k]) is None
            &&& !counts_as_disconnected(outs[k]) ==> !disconnected_of(ids, outs).contains(ids[k])
                && failure_of(ids, outs, ids[k]) == (match outs[k] { Err(e) => Some(e), Ok(()) => None::<Seq<char>> })
        },
        forall|t: Seq<char>| disconnected_of(ids, outs).contains(t) ==> ids.contains(t),
    decreases ids.len(),
{
    if ids.len() > 0 {
        let ri = ids.drop_last();
        let ro = outs.drop_last();
        lemma_disconnect_reports_each_node_once(ri, ro);
        let n = ids.len() - 1;
        assert forall|k: int| 0 <= k < ids.len() implies {
            &&& counts_as_disconnected(outs[k]) ==> disconnected_of(ids, outs).contains(#[trigger] ids[k])
                && failure_of(ids, outs, ids[k]) is None
            &&& !counts_as_disconnected(outs[k]) ==> !disconnected_of(ids, outs).contains(ids[k])
                && failure_of(ids, outs, ids[k]) == (match outs[k] { Err(e) => Some(e), Ok(()) => None::<Seq<char>> })
        } by {
            let d = disconnected_of(ri, ro);
            if k < n {
                assert(ids[k] == ri[k] && outs[k] == ro[k]);
                assert(ids[k] != ids[n]);
                if counts_as_disconnected(outs[n]) {
                    assert(disconnected_of(ids, outs) == d.push(ids[n]));
                    if d.contains(ids[k]) {
                        let w = choose|w: int| 0 <= w < d.len() && d[w] == ids[k];
                        assert(disconnected_of(ids, outs)[w] == ids[k]);
                    }
                    if disconnected_of(ids, outs).contains(ids[k]) {
                        let w = choose|w: int| 0 <= w < d.len() + 1 && disconnected_of(ids, outs)[w] == ids[k];
                        assert(w < d.len());
                        assert(d[w] == ids[k]);
                    }
                }
            } else {
                assert(!ri.contains(ids[n])) by {
                    if ri.contains(ids[n]) {
                        let w = choose|w: int| 0 <= w < ri.len() && ri[w] == ids[n];
                        assert(ids[w] == ids[n]);
                    }
                }
                assert(!d.contains(ids[n]));
                if counts_as_disconnected(outs[n]) {
                    assert(disconnected_of(ids, outs)[d.len() as int] == ids[n]);
                }
                assert(failure_of(ri, ro, ids[n]) is None) by {
                    lemma_failure_of_absent(ri, ro, ids[n]);
                }
            }
        }
        assert forall|t: Seq<char>| disconnected_of(ids, outs).contains(t) implies ids.contains(t) by {
            let d = disconnected_of(ri, ro);
            let all = disconnected_of(ids, outs);
            assert(all == if counts_as_disconnected(outs[n]) { d.push(ids[n]) } else { d });
            let w = choose|w: int| 0 <= w < all.len() && all[w] == t;
            if w < d.len() {
                assert(d[w] == t);
                assert(d.contains(t));
                assert(ri.contains(t));
                let v = choose|v: int| 0 <= v < ri.len() && ri[v] == t;
                assert(ids[v] == ri[v]);
            } else {
                assert(ids[n] == t);
            }
        }
    }
}

/// When a disconnect run with distinct node IDs has handled every node, each
/// node is reported exactly once: in `disconnected` when its unregistration
/// counts as a disconnect, otherwise in `failed` with its error.
pub proof fn lemma_finished_disconnect_run(run: DisconnectRun)
    requires
        disconnect_run_wf(run),
        run.handled == run.node_ids@.len(),
        forall|i: int, j: int| 0 <= i < run.node_ids@.len() && 0 <= j < run.node_ids@.len() && i != j
            ==> run.node_ids@[i]@ != run.node_ids@[j]@,
    ensures
        forall|k: int| 0 <= k < run.node_ids@.len() ==> {
            let id = #[trigger] run.node_ids@[k]@;
            let o = run.outcomes@[k];
            &&& counts_as_disconnected(o) ==> string_views(run.disconnected@).contains(id)
                && label_value(run.failed@, id) is None
            &&& !counts_as_disconnected(o) ==> !string_views(run.disconnected@).contains(id)
                && label_value(run.failed@, id) == (match o { Err(e) => Some(e), Ok(()) => None::<Seq<char>> })
        },
{
    let ids = string_views(run.node_ids@);
    assert(ids.take(run.handled as int) =~= ids);
    assert forall|i: int, j: int| 0 <= i < ids.len() && 0 <= j < ids.len() && i != j implies ids[i] != ids[j] by {
        assert(ids[i] == run.node_ids@[i]@ && ids[j] == run.node_ids@[j]@);
    }
    lemma_disconnect_reports_each_node_once(ids, run.outcomes@);
    assert forall|k: int| 0 <= k < run.node_ids@.len() implies {
        let id = #[trigger] run.node_ids@[k]@;
        let o = run.outcomes@[k];
        &&& counts_as_disconnected(o) ==> string_views(run.disconnected@).contains(id)
            && label_value(run.failed@, id) is None
        &&& !counts_as_disconnected(o) ==> !string_views(run.disconnected@).contains(id)
            && label_value(run.failed@, id) == (match o { Err(e) => Some(e), Ok(()) => None::<Seq<char>> })
    } by {
        assert(ids[k] == run.node_ids@[k]@);
    }
}

/// A node ID that does not occur has no failure reported.
proof fn lemma_failure_of_absent(ids: Seq<Seq<char>>, outs: Seq<Result<(), Seq<char>>>, t: Seq<char>)
    requires
        !ids.contains(t),
    ensures
        failure_of(ids, outs, t) is None,
    decreases ids.len(),
{
    if ids.len() > 0 && outs.len() == ids.len() {
        assert(ids[ids.len() - 1] == ids.last());
        assert(!ids.drop_last().contains(t)) by {
            if ids.drop_last().contains(t) {
                let w = choose|w: int| 0 <= w < ids.drop_last().len() && ids.drop_last()[w] == t;
                assert(ids[w] == t);
            }
        }
        lemma_failure_of_absent(ids.drop_last(), outs.drop_last(), t);
    }
}

} // verus!
