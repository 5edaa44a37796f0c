//! What the node registry reads and writes beyond its SWIM view: which
//! object-registry entries count as recent, one entry per address and the
//! cluster filter, lookups by address, how a new registration is reconciled
//! with others under the same address, the SWIM member and the stored entry
//! a registration creates, and which failures of the object registry mean
//! that the object was already gone.

use std::collections::HashMap;
use vstd::prelude::*;

use crate::labels::{label_insert, label_lookup, label_value};
use crate::node_listing::{
    ListedNode, ListedView, copy_listed, first_per_id, id_of, ids_distinct, ids_increasing, keys_distinct, is_placeholder, lemma_listing_pool_rules, listed_views, listing_pool,
    one_per_address, one_per_address_of, page_limit, registrations_of, select_listed_nodes,
};
use crate::process_groups::lex_lt;
use crate::node_registry::{LocalLookup, NodeRegistration, NodeRegistry, addressy, NodeRole, NodeStatus, RegistrationView, RegistryView, Timestamp, begins_with, unknown_prefix};
use crate::swim_protocol::{after_declare_dead, after_silent_removal, after_upsert, lookup, protocol_wf};
use crate::service_config::{contains_lowered, lower_text};
use crate::swim::{MemberView, SwimMember, fresh_member};
use crate::text::{concat, contains_seq, owned, str_eq};
use crate::time::{Duration, Instant};

verus! {

// ============================================================================
// Recent entries
// ============================================================================

/// The instant a stored timestamp denotes, in nanoseconds since the epoch;
/// negative parts count as zero.
pub open spec fn stored_instant_nanos(t: Timestamp) -> int {
    (if t.seconds < 0 { 0 } else { t.seconds as int }) * 1_000_000_000 + (if t.nanos < 0 { 0 } else { t.nanos as int })
}

/// A clock reading in nanoseconds since the epoch.
pub open spec fn clock_nanos(t: Timestamp) -> int {
    t.seconds * 1_000_000_000 + t.nanos
}

/// The system clock can hold the instant a stored timestamp denotes.
pub open spec fn representable(t: Option<Timestamp>) -> bool {
    match t {
        Some(ts) => (if ts.seconds < 0 { 0 } else { ts.seconds as int })
            + (if ts.nanos < 0 { 0 } else { ts.nanos as int }) / 1_000_000_000 <= i64::MAX,
        None => true,
    }
}

/// A timestamp is present and, at `now`, not older than `max_age`; a
/// timestamp in the future counts as recent.
pub open spec fn within_age(t: Option<Timestamp>, max_age: Duration, now: Timestamp) -> bool {
    match t {
        None => false,
        Some(ts) => clock_nanos(now) < stored_instant_nanos(ts)
            || clock_nanos(now) - stored_instant_nanos(ts) <= max_age.millis * 1_000_000,
    }
}

/// Whether `timestamp` is present and, at `now`, at most `max_age` old.
pub fn timestamp_within_age(timestamp: Option<Timestamp>, max_age: Duration, now: Timestamp) -> (b: bool)
    requires
        representable(timestamp),
    ensures
        b == within_age(timestamp, max_age, now),
{
    match timestamp {
        None => false,
        Some(ts) => {
            let seconds: i128 = if ts.seconds < 0 { 0 } else { ts.seconds as i128 };
            let nanos: i128 = if ts.nanos < 0 { 0 } else { ts.nanos as i128 };
            let instant: i128 = seconds * 1_000_000_000 + nanos;
            let current: i128 = (now.seconds as i128) * 1_000_000_000 + (now.nanos as i128);
            current < instant || current - instant <= (max_age.millis as i128) * 1_000_000
        },
    }
}

/// What the node registry reads of an object-registry entry for a node: the
/// registration it stands for with the key of its address, and its last
/// heartbeat.
pub struct RegistryEntry {
    pub node: ListedNode,
    pub last_heartbeat: Option<Timestamp>,
}

/// The value of a [`RegistryEntry`].
pub struct EntryView {
    pub node: ListedView,
    pub last_heartbeat: Option<Timestamp>,
}

impl View for RegistryEntry {
    type V = EntryView;

    open spec fn view(&self) -> EntryView {
        EntryView { node: self.node@, last_heartbeat: self.last_heartbeat }
    }
}

/// The views of a list of entries.
pub open spec fn entry_views(v: Seq<RegistryEntry>) -> Seq<EntryView> {
    v.map_values(|e: RegistryEntry| e@)
}

/// An entry is recent: its last heartbeat lies within the active window.
/// Only the heartbeat counts: the time an entry was last written says
/// nothing of whether its node is alive.
pub fn object_registration_is_recent(entry: &RegistryEntry, active_node_window: Duration, now: Timestamp) -> (b: bool)
    requires
        representable(entry.last_heartbeat),
    ensures
        b == within_age(entry.last_heartbeat, active_node_window, now),
{
    timestamp_within_age(entry.last_heartbeat, active_node_window, now)
}

/// The recent entries of `s`, in order.
pub open spec fn recent_nodes(s: Seq<EntryView>, window: Duration, now: Timestamp) -> Seq<ListedView>
    decreases s.len(),
{
    if s.len() == 0 {
        Seq::empty()
    } else {
        let r = recent_nodes(s.drop_last(), window, now);
        if within_age(s.last().last_heartbeat, window, now) { r.push(s.last().node) } else { r }
    }
}

/// The text of an optional cluster name.
pub open spec fn text_of(o: Option<&str>) -> Option<Seq<char>> {
    match o {
        Some(c) => Some(c@),
        None => None,
    }
}

/// A registration belongs to `cluster`: any registration when no cluster is
/// asked for, else one whose `cluster` capability names it.
pub open spec fn in_cluster(r: RegistrationView, cluster: Option<Seq<char>>) -> bool {
    match cluster {
        None => true,
        Some(c) => label_value(r.capabilities, "cluster"@) == Some(c),
    }
}

/// The registrations of `s` that belong to `cluster`, in order.
pub open spec fn cluster_members(s: Seq<ListedView>, cluster: Option<Seq<char>>) -> Seq<RegistrationView>
    decreases s.len(),
{
    if s.len() == 0 {
        Seq::empty()
    } else {
        let r = cluster_members(s.drop_last(), cluster);
        if in_cluster(s.last().registration, cluster) { r.push(s.last().registration) } else { r }
    }
}

/// The registrations of the recent object-registry entries: one per
/// address (a concrete node ID replacing a placeholder), of the cluster
/// asked for.
pub open spec fn recent_registrations(
    s: Seq<EntryView>,
    window: Duration,
    now: Timestamp,
    cluster: Option<Seq<char>>,
) -> Seq<RegistrationView> {
    cluster_members(one_per_address(recent_nodes(s, window, now)), cluster)
}

/// Whether a registration belongs to `cluster`.
pub fn belongs_to_cluster(r: &NodeRegistration, cluster: Option<&str>) -> (b: bool)
    ensures
        b == in_cluster(r@, text_of(cluster)),
{
    match cluster {
        None => true,
        Some(c) => match label_lookup(&r.capabilities, "cluster") {
            Some(v) => str_eq(v.as_str(), c),
            None => false,
        },
    }
}

/// The registrations that the object registry's recent node entries stand
/// for: entries whose last heartbeat lies outside the active window are
/// left out, one entry is kept per address (a concrete node ID replaces a
/// placeholder), and only those of `cluster` are kept when one is named.
pub fn recent_node_registrations(
    entries: &Vec<RegistryEntry>,
    active_node_window: Duration,
    now: Timestamp,
    cluster: Option<&str>,
) -> (r: Vec<NodeRegistration>)
    requires
        forall|i: int| 0 <= i < entries@.len() ==> representable(#[trigger] entries@[i].last_heartbeat),
    ensures
        r@.map_values(|x: NodeRegistration| x@)
            == recent_registrations(entry_views(entries@), active_node_window, now, text_of(cluster)),
{
    let ghost ev = entry_views(entries@);
    let mut recent: Vec<ListedNode> = Vec::new();
    let mut i: usize = 0;
    assert(ev.take(0) =~= Seq::<EntryView>::empty());
    assert(listed_views(recent@) =~= Seq::<ListedView>::empty());
    while i < entries.len()
        invariant
            ev == entry_views(entries@),
            i <= entries@.len(),
            forall|k: int| 0 <= k < entries@.len() ==> representable(#[trigger] entries@[k].last_heartbeat),
            listed_views(recent@) == recent_nodes(ev.take(i as int), active_node_window, now),
        decreases entries.len() - i,
    {
        proof {
            assert(ev.take(i + 1).drop_last() =~= ev.take(i as int));
            assert(ev.take(i + 1).last() == ev[i as int]);
        }
        if object_registration_is_recent(&entries[i], active_node_window, now) {
            let ghost before = listed_views(recent@);
            recent.push(copy_listed(&entries[i].node));
            assert(listed_views(recent@) =~= before.push(ev[i as int].node));
        }
        i = i + 1;
    }
    assert(ev.take(ev.len() as int) =~= ev);
    let pool = one_per_address_of(&recent);
    let ghost pv = listed_views(pool@);
    let mut out: Vec<NodeRegistration> = Vec::new();
    let mut j: usize = 0;
    assert(pv.take(0) =~= Seq::<ListedView>::empty());
    assert(out@.map_values(|x: NodeRegistration| x@) =~= Seq::<RegistrationView>::empty());
    while j < pool.len()
        invariant
            pv == listed_views(pool@),
            j <= pool@.len(),
            out@.map_values(|x: NodeRegistration| x@) == cluster_members(pv.take(j as int), text_of(cluster)),
        decreases pool.len() - j,
    {
        proof {
            assert(pv.take(j + 1).drop_last() =~= pv.take(j as int));
            assert(pv.take(j + 1).last() == pv[j as int]);
        }
        if belongs_to_cluster(&pool[j].registration, cluster) {
            let ghost before = out@.map_values(|x: NodeRegistration| x@);
            out.push(pool[j].registration.clone());
            assert(out@.map_values(|x: NodeRegistration| x@) =~= before.push(pv[j as int].registration));
        }
        j = j + 1;
    }
    assert(pv.take(pv.len() as int) =~= pv);
    out
}

/// Offered registrations of `cluster`.
pub open spec fn listed_in_cluster(cluster: Option<Seq<char>>) -> spec_fn(ListedView) -> bool {
    |n: ListedView| in_cluster(n.registration, cluster)
}

/// The registrations a node listing of `cluster` shows: the offered
/// registrations of that cluster (all of them for none), made into the
/// listing pool, ordered by node ID and cut to `page_size` (all for 0).
/// Every listed registration belongs to the cluster.
pub fn select_cluster_nodes(candidates: &Vec<ListedNode>, cluster: Option<&str>, page_size: u32) -> (r: Vec<NodeRegistration>)
    ensures
        ({
            let kept = listed_views(candidates@).filter(listed_in_cluster(text_of(cluster)));
            let pool = registrations_of(listing_pool(kept));
            let rv = r@.map_values(|x: NodeRegistration| x@);
            &&& ids_increasing(rv)
            &&& rv.len() == page_limit(page_size, pool.len())
            &&& forall|i: int| 0 <= i < rv.len() ==> pool.contains(#[trigger] rv[i])
            &&& forall|x: RegistrationView| pool.contains(x) && !rv.contains(x) ==>
                    forall|i: int| 0 <= i < rv.len() ==> lex_lt(#[trigger] rv[i].node_id, x.node_id)
            &&& forall|i: int| 0 <= i < rv.len() ==> in_cluster(#[trigger] rv[i], text_of(cluster))
            &&& ids_distinct(listing_pool(kept))
            &&& keys_distinct(listing_pool(kept))
            &&& forall|i: int, j: int| 0 <= i < listing_pool(kept).len() && 0 <= j < first_per_id(kept).len()
                && is_placeholder(#[trigger] listing_pool(kept)[i])
                && (#[trigger] first_per_id(kept)[j]).address_key == listing_pool(kept)[i].address_key
                ==> is_placeholder(first_per_id(kept)[j])
        }),
{
    let ghost lv = listed_views(candidates@);
    let ghost f = listed_in_cluster(text_of(cluster));
    let mut kept: Vec<ListedNode> = Vec::new();
    let mut i: usize = 0;
    assert(lv.take(0) =~= Seq::<ListedView>::empty());
    assert(listed_views(kept@) =~= Seq::<ListedView>::empty());
    assert(lv.take(0).filter(f) =~= Seq::<ListedView>::empty()) by {
        reveal(Seq::filter);
    }
    while i < candidates.len()
        invariant
            lv == listed_views(candidates@),
            f == listed_in_cluster(text_of(cluster)),
            i <= candidates@.len(),
            listed_views(kept@) == lv.take(i as int).filter(f),
        decreases candidates.len() - i,
    {
        proof {
            assert(lv.take(i + 1).drop_last() =~= lv.take(i as int));
            assert(lv.take(i + 1).last() == lv[i as int]);
            assert(lv[i as int].registration == candidates@[i as int].registration@);
            assert(lv.take(i + 1).filter(f) == if f(lv[i as int]) {
                lv.take(i as int).filter(f).push(lv[i as int])
            } else {
                lv.take(i as int).filter(f)
            }) by {
                reveal(Seq::filter);
            }
        }
        if belongs_to_cluster(&candidates[i].registration, cluster) {
            let ghost before = listed_views(kept@);
            kept.push(copy_listed(&candidates[i]));
            assert(listed_views(kept@) =~= before.push(lv[i as int]));
        }
        i = i + 1;
    }
    assert(lv.take(lv.len() as int) =~= lv);
    let ghost kv = listed_views(kept@);
    let r = select_listed_nodes(&kept, page_size);
    proof {
        let pool = registrations_of(listing_pool(kv));
        let rv = r@.map_values(|x: NodeRegistration| x@);
        lemma_listing_pool_rules(kv);
        broadcast use vstd::seq_lib::group_filter_ensures;
        assert forall|i: int| 0 <= i < rv.len() implies in_cluster(#[trigger] rv[i], text_of(cluster)) by {
            assert(pool.contains(rv[i]));
            let k = choose|k: int| 0 <= k < pool.len() && pool[k] == rv[i];
            let n = listing_pool(kv)[k];
            assert(kv.contains(n));
            let m = choose|m: int| 0 <= m < kv.len() && kv[m] == n;
            assert(f(kv[m]));
        }
    }
    r
}

// ============================================================================
// Lookups by address
// ============================================================================

/// `n` answers a lookup of address key `key`; with `concrete`, only when its
/// node ID is known.
pub open spec fn answers(n: ListedView, key: Seq<char>, concrete: bool) -> bool {
    n.address_key == key && (!concrete || !is_placeholder(n))
}

/// The first registration of `s` that answers a lookup of `key`.
pub open spec fn first_answer(s: Seq<ListedView>, key: Seq<char>, concrete: bool) -> Option<ListedView>
    decreases s.len(),
{
    if s.len() == 0 {
        None
    } else {
        match first_answer(s.drop_last(), key, concrete) {
            Some(x) => Some(x),
            None => if answers(s.last(), key, concrete) { Some(s.last()) } else { None },
        }
    }
}

/// The registration a lookup of address key `key` finds: in the SWIM view a
/// concrete node first, then any; then in the cache a concrete node first,
/// then any.
pub open spec fn address_lookup(swim: Seq<ListedView>, cache: Seq<ListedView>, key: Seq<char>) -> Option<RegistrationView> {
    let found = match first_answer(swim, key, true) {
        Some(x) => Some(x),
        None => match first_answer(swim, key, false) {
            Some(x) => Some(x),
            None => match first_answer(cache, key, true) {
                Some(x) => Some(x),
                None => first_answer(cache, key, false),
            },
        },
    };
    match found {
        Some(x) => Some(x.registration),
        None => None,
    }
}

/// Once a prefix of `s` holds an answer, that answer is the first of `s`.
proof fn lemma_first_answer_stays(s: Seq<ListedView>, i: int, key: Seq<char>, concrete: bool)
    requires
        0 <= i <= s.len(),
        first_answer(s.take(i), key, concrete) is Some,
    ensures
        first_answer(s, key, concrete) == first_answer(s.take(i), key, concrete),
    decreases s.len(),
{
    if s.len() == i {
        assert(s.take(i) =~= s);
    } else {
        assert(s.drop_last().take(i) =~= s.take(i));
        lemma_first_answer_stays(s.drop_last(), i, key, concrete);
    }
}

/// The position of the first registration of `nodes` that answers a lookup
/// of `key`.
fn find_first(nodes: &Vec<ListedNode>, key: &str, concrete: bool) -> (r: Option<usize>)
    ensures
        match r {
            Some(i) => i < nodes@.len() && first_answer(listed_views(nodes@), key@, concrete) == Some(listed_views(nodes@)[i as int]),
            None => first_answer(listed_views(nodes@), key@, concrete) is None,
        },
{
    let ghost v = listed_views(nodes@);
    let mut i: usize = 0;
    assert(v.take(0) =~= Seq::<ListedView>::empty());
    while i < nodes.len()
        invariant
            v == listed_views(nodes@),
            i <= nodes@.len(),
            first_answer(v.take(i as int), key@, concrete) is None,
        decreases nodes.len() - i,
    {
        proof {
            assert(v.take(i + 1).drop_last() =~= v.take(i as int));
            assert(v.take(i + 1).last() == v[i as int]);
        }
        let hit = str_eq(nodes[i].address_key.as_str(), key)
            && (!concrete || !NodeRegistry::is_unknown_node_id(nodes[i].registration.node_id.as_str()));
        if hit {
            proof {
                lemma_first_answer_stays(v, i + 1, key@, concrete);
            }
            return Some(i);
        }
        i = i + 1;
    }
    assert(v.take(v.len() as int) =~= v);
    None
}

/// The registration a lookup of address key `target_key` finds among the
/// active SWIM members and then the live cache entries (both given with
/// their address keys): a node with a known ID is preferred over a
/// placeholder in each.
pub fn lookup_by_address(swim: &Vec<ListedNode>, cache: &Vec<ListedNode>, target_key: &str) -> (r: Option<NodeRegistration>)
    ensures
        match r {
            Some(x) => address_lookup(listed_views(swim@), listed_views(cache@), target_key@) == Some(x@),
            None => address_lookup(listed_views(swim@), listed_views(cache@), target_key@) is None,
        },
{
    if let Some(i) = find_first(swim, target_key, true) {
        return Some(swim[i].registration.clone());
    }
    if let Some(i) = find_first(swim, target_key, false) {
        return Some(swim[i].registration.clone());
    }
    if let Some(i) = find_first(cache, target_key, true) {
        return Some(cache[i].registration.clone());
    }
    if let Some(i) = find_first(cache, target_key, false) {
        return Some(cache[i].registration.clone());
    }
    None
}

// ============================================================================
// Registrations under an address that is already known
// ============================================================================

/// What reconciling a registration with those already known under its
/// address decides: which known node IDs give way, and whether the new
/// registration is taken.
pub struct AliasReconciliation {
    pub remove: Vec<String>,
    pub accept: bool,
}

/// Going through the known registrations `s` in order: one with another node
/// ID under the same address key gives way when it is a placeholder and the
/// new registration is concrete; any other such registration makes the new
/// one refused, and nothing after it is looked at.
pub open spec fn alias_outcome(s: Seq<ListedView>, id: Seq<char>, key: Seq<char>) -> (Seq<Seq<char>>, bool)
    decreases s.len(),
{
    if s.len() == 0 {
        (Seq::empty(), true)
    } else {
        let (r, ok) = alias_outcome(s.drop_last(), id, key);
        let x = s.last();
        if !ok || id_of(x) == id || x.address_key != key {
            (r, ok)
        } else if is_placeholder(x) && !begins_with(id, unknown_prefix()) {
            (r.push(id_of(x)), true)
        } else {
            (r, false)
        }
    }
}

/// Once a prefix of `s` refuses, so does `s`, with the same removals.
proof fn lemma_refusal_stays(s: Seq<ListedView>, i: int, id: Seq<char>, key: Seq<char>)
    requires
        0 <= i <= s.len(),
        !alias_outcome(s.take(i), id, key).1,
    ensures
        alias_outcome(s, id, key) == alias_outcome(s.take(i), id, key),
    decreases s.len(),
{
    if s.len() == i {
        assert(s.take(i) =~= s);
    } else {
        assert(s.drop_last().take(i) =~= s.take(i));
        lemma_refusal_stays(s.drop_last(), i, id, key);
    }
}

/// Reconciles a registration of `registration_id` at address key
/// `target_key` with the registrations `known` under their address keys.
pub fn reconcile_registration_aliases(known: &Vec<ListedNode>, registration_id: &str, target_key: &str) -> (r: AliasReconciliation)
    ensures
        ({
            let (removed, ok) = alias_outcome(listed_views(known@), registration_id@, target_key@);
            &&& r.remove@.map_values(|s: String| s@) == removed
            &&& r.accept == ok
        }),
{
    let ghost v = listed_views(known@);
    let registration_unknown = NodeRegistry::is_unknown_node_id(registration_id);
    let mut remove: Vec<String> = Vec::new();
    let mut accept = true;
    let mut i: usize = 0;
    assert(v.take(0) =~= Seq::<ListedView>::empty());
    assert(remove@.map_values(|s: String| s@) =~= Seq::<Seq<char>>::empty());
    while accept && i < known.len()
        invariant
            v == listed_views(known@),
            i <= known@.len(),
            registration_unknown == begins_with(registration_id@, unknown_prefix()),
            (remove@.map_values(|s: String| s@), accept) == alias_outcome(v.take(i as int), registration_id@, target_key@),
        decreases known.len() - i,
    {
        proof {
            assert(v.take(i + 1).drop_last() =~= v.take(i as int));
            assert(v.take(i + 1).last() == v[i as int]);
        }
        let existing = &known[i];
        if !str_eq(existing.registration.node_id.as_str(), registration_id)
            && str_eq(existing.address_key.as_str(), target_key) {
            let existing_unknown = NodeRegistry::is_unknown_node_id(existing.registration.node_id.as_str());
            if existing_unknown && !registration_unknown {
                let ghost before = remove@.map_values(|s: String| s@);
                remove.push(existing.registration.node_id.clone());
                assert(remove@.map_values(|s: String| s@) =~= before.push(id_of(v[i as int])));
            } else {
                accept = false;
            }
        }
        i = i + 1;
    }
    proof {
        if accept {
            assert(v.take(v.len() as int) =~= v);
        } else {
            lemma_refusal_stays(v, i as int, registration_id@, target_key@);
        }
    }
    AliasReconciliation { remove, accept }
}

// ============================================================================
// What a registration creates
// ============================================================================

/// The metadata `meta` is `caps` with the thin-node marker
/// (`node_type` = `thin`) set.
pub open spec fn thin_marked(meta: Map<String, String>, caps: Map<String, String>) -> bool {
    forall|t: Seq<char>| #[trigger] label_value(meta, t) == if t == "node_type"@ {
        Some("thin"@)
    } else {
        label_value(caps, t)
    }
}

/// `m` is the SWIM member registration `r` creates at `now`: alive at
/// incarnation 0, with the registration's capabilities as metadata; a thin
/// node, which cannot relay pings, is marked `node_type` = `thin` so that it
/// is not chosen as an intermediary.
pub open spec fn member_of_registration(m: MemberView, r: RegistrationView, now: Instant) -> bool {
    &&& (MemberView { metadata: Map::empty(), ..m }) == fresh_member(r.node_id, r.node_address, now)
    &&& r.node_role != NodeRole::Thin ==> m.metadata == r.capabilities
    &&& r.node_role == NodeRole::Thin ==> thin_marked(m.metadata, r.capabilities)
}

/// The SWIM member a registration creates at `now`.
pub fn registration_member_at(registration: &NodeRegistration, now: Instant) -> (m: SwimMember)
    ensures
        member_of_registration(m@, registration@, now),
{
    let member = SwimMember::new_at(registration.node_id.clone(), registration.node_address.clone(), now);
    let mut metadata = registration.capabilities.clone();
    if registration.node_role == NodeRole::Thin {
        let ghost caps = metadata@;
        label_insert(&mut metadata, owned("node_type"), owned("thin"));
        assert forall|t: Seq<char>| #[trigger] label_value(metadata@, t) == if t == "node_type"@ {
            Some("thin"@)
        } else {
            label_value(caps, t)
        } by {}
    }
    member.with_metadata(metadata)
}

/// The registration a ping answer stands for: the resolved node ID and
/// address, ready, heartbeat and registration time `heartbeat`, and a
/// `cluster` capability naming `cluster_label` when that is not empty.
pub fn registration_from_ping(node_id: String, node_address: String, cluster_label: &str, heartbeat: Timestamp) -> (r: NodeRegistration)
    ensures
        r@.node_role == NodeRole::Unspecified,
        r@.node_id == node_id@,
        r@.node_address == node_address@,
        r@.status == NodeStatus::Ready,
        r@.last_heartbeat == Some(heartbeat),
        r@.registered_at == Some(heartbeat),
        r@.error_count == 0,
        cluster_label@.len() == 0 ==> r@.capabilities == Map::<String, String>::empty(),
        cluster_label@.len() > 0 ==> forall|t: Seq<char>| #[trigger] label_value(r@.capabilities, t)
            == if t == "cluster"@ { Some(cluster_label@) } else { None },
{
    let mut capabilities: HashMap<String, String> = HashMap::new();
    if cluster_label.unicode_len() > 0 {
        let ghost before = capabilities@;
        assert forall|t: Seq<char>| label_value(before, t) is None by {}
        label_insert(&mut capabilities, owned("cluster"), owned(cluster_label));
    }
    NodeRegistration {
        node_role: NodeRole::Unspecified,
        node_id,
        node_address,
        capabilities,
        status: NodeStatus::Ready,
        last_heartbeat: Some(heartbeat),
        error_count: 0,
        registered_at: Some(heartbeat),
    }
}

/// The entry stored for a registration: a thin node without an address is
/// given the placeholder address `ws://<node ID>`, which is never dialed.
pub open spec fn persisted_view(r: RegistrationView) -> RegistrationView {
    if r.node_role == NodeRole::Thin && r.node_address.len() == 0 {
        RegistrationView { node_address: "ws://"@ + r.node_id, ..r }
    } else {
        r
    }
}

/// The registration that is written to the object registry.
pub fn persisted_registration(registration: &NodeRegistration) -> (r: NodeRegistration)
    ensures
        r@ == persisted_view(registration@),
{
    let mut r = registration.clone();
    if registration.node_role == NodeRole::Thin && registration.node_address.unicode_len() == 0 {
        r.node_address = concat("ws://", registration.node_id.as_str());
    }
    r
}

// ============================================================================
// Unregistering
// ============================================================================

/// The namespace an object-registry node entry was stored under: that of the
/// first entry (object ID, namespace) of the node, or the empty one.
pub open spec fn namespace_of(entries: Seq<(Seq<char>, Seq<char>)>, node_id: Seq<char>) -> Seq<char>
    decreases entries.len(),
{
    if entries.len() == 0 {
        Seq::empty()
    } else if entries[0].0 == node_id {
        entries[0].1
    } else {
        namespace_of(entries.drop_first(), node_id)
    }
}

/// The views of a list of (object ID, namespace) pairs.
pub open spec fn pair_views(v: Seq<(String, String)>) -> Seq<(Seq<char>, Seq<char>)> {
    v.map_values(|p: (String, String)| (p.0@, p.1@))
}

/// The namespace under which node `node_id` is stored, found among the
/// discovered (object ID, namespace) entries.
pub fn stored_namespace(discovered: &Vec<(String, String)>, node_id: &str) -> (ns: String)
    ensures
        ns@ == namespace_of(pair_views(discovered@), node_id@),
{
    let ghost v = pair_views(discovered@);
    let mut i: usize = 0;
    assert(v.subrange(0, v.len() as int) =~= v);
    while i < discovered.len()
        invariant
            v == pair_views(discovered@),
            i <= discovered@.len(),
            namespace_of(v, node_id@) == namespace_of(v.subrange(i as int, v.len() as int), node_id@),
        decreases discovered.len() - i,
    {
        let ghost rest = v.subrange(i as int, v.len() as int);
        assert(rest[0] == v[i as int]);
        if str_eq(discovered[i].0.as_str(), node_id) {
            return owned(discovered[i].1.as_str());
        }
        assert(rest.drop_first() =~= v.subrange(i + 1, v.len() as int));
        i = i + 1;
    }
    assert(v.subrange(i as int, v.len() as int) =~= Seq::<(Seq<char>, Seq<char>)>::empty());
    String::new()
}

/// A failure message that, ignoring case, says the object does not exist
/// (`not found` or `does not exist`). Letters outside ASCII cannot form these
/// words, so ASCII case folding decides as full case folding does.
pub open spec fn reports_missing(msg: Seq<char>) -> bool {
    contains_seq(lower_text(msg), "not found"@) || contains_seq(lower_text(msg), "does not exist"@)
}

/// Whether a failure of the object registry says the object does not exist:
/// a heartbeat for it is then answered as not accepted, and its removal
/// needs no warning.
pub fn reports_missing_object(message: &str) -> (b: bool)
    ensures
        b == reports_missing(message@),
{
    contains_lowered(message, "not found") || contains_lowered(message, "does not exist")
}

// ============================================================================
// The SWIM side of registering and retiring nodes
// ============================================================================

impl NodeRegistry {
    /// Enters a registration into the SWIM view at `now`: its member joins,
    /// or refreshes a known member only with a higher incarnation.
    pub fn register_in_swim_at(&mut self, registration: &NodeRegistration, now: Instant)
        requires
            protocol_wf(old(self)@.swim),
        ensures
            protocol_wf(final(self)@.swim),
            exists|m: MemberView| member_of_registration(m, registration@, now)
                && final(self)@ == (RegistryView { swim: after_upsert(old(self)@.swim, m, now), ..old(self)@ }),
    {
        let member = registration_member_at(registration, now);
        let ghost mv = member@;
        let swim = self.swim_mut();
        swim.upsert_member_at(member, now);
        assert(member_of_registration(mv, registration@, now));
    }

    /// Takes a registration read from the object registry into the SWIM view
    /// at `now`, unless SWIM already knows the node: the object registry keeps
    /// no incarnation that could overrule SWIM. Returns whether it was taken.
    pub fn adopt_registered_node_at(&mut self, registration: &NodeRegistration, now: Instant) -> (adopted: bool)
        requires
            protocol_wf(old(self)@.swim),
        ensures
            protocol_wf(final(self)@.swim),
            adopted == lookup(old(self)@.swim, registration@.node_id).is_none(),
            !adopted ==> final(self)@ == old(self)@,
            adopted ==> exists|m: MemberView| member_of_registration(m, registration@, now)
                && final(self)@ == (RegistryView { swim: after_upsert(old(self)@.swim, m, now), ..old(self)@ }),
    {
        if self.swim().get_member(registration.node_id.as_str()).is_some() {
            return false;
        }
        self.register_in_swim_at(registration, now);
        true
    }

    /// Retires a node found gone while reconciling probes, at `now`: a seed
    /// placeholder is dropped without announcement, a known node is declared
    /// dead.
    pub fn retire_discovered_node_at(&mut self, node_id: &str, now: Instant)
        requires
            protocol_wf(old(self)@.swim),
        ensures
            protocol_wf(final(self)@.swim),
            final(self)@ == (RegistryView {
                swim: if begins_with(node_id@, unknown_prefix()) {
                    after_silent_removal(old(self)@.swim, node_id@)
                } else {
                    after_declare_dead(old(self)@.swim, node_id@, now)
                },
                ..old(self)@
            }),
    {
        let unknown = NodeRegistry::is_unknown_node_id(node_id);
        let swim = self.swim_mut();
        if unknown {
            swim.remove_member_silently(node_id);
        } else {
            swim.declare_dead_at(node_id, now);
        }
    }
}

/// The cluster whose namespace the registry's own operations use: the one
/// asked for when it is named, else the local node's cluster when it has
/// one, else none.
pub open spec fn effective_cluster_of(cluster: Option<Seq<char>>, local_cluster: Seq<char>) -> Option<Seq<char>> {
    let fallback = if local_cluster.len() > 0 { Some(local_cluster) } else { None };
    match cluster {
        Some(c) => if c.len() > 0 { Some(c) } else { fallback },
        None => fallback,
    }
}

/// The cluster for the registry's own operations.
pub fn effective_cluster(cluster: Option<&str>, local_cluster: &str) -> (r: Option<String>)
    ensures
        match r {
            Some(c) => effective_cluster_of(text_of(cluster), local_cluster@) == Some(c@),
            None => effective_cluster_of(text_of(cluster), local_cluster@) is None,
        },
{
    if let Some(c) = cluster {
        if c.unicode_len() > 0 {
            return Some(owned(c));
        }
    }
    if local_cluster.unicode_len() > 0 {
        Some(owned(local_cluster))
    } else {
        None
    }
}

/// The cluster a node listing is filtered by: the one asked for, even when
/// empty; else the local node's cluster when it has one; else none.
pub fn listing_cluster(cluster: Option<&str>, local_cluster: &str) -> (r: Option<String>)
    ensures
        match cluster {
            Some(c) => r matches Some(x) && x@ == c@,
            None => if local_cluster@.len() > 0 {
                r matches Some(x) && x@ == local_cluster@
            } else {
                r is None
            },
        },
{
    match cluster {
        Some(c) => Some(owned(c)),
        None => if local_cluster.unicode_len() > 0 { Some(owned(local_cluster)) } else { None },
    }
}


// ============================================================================
// The order of a lookup and of a listing
// ============================================================================

/// What a node lookup does next.
#[derive(Debug)]
pub enum NodeLookupStep {
    /// Search the active SWIM members and the live cache by address.
    SearchByAddress,
    /// Ask local knowledge (the cache, then SWIM) by node ID.
    AskLocal,
    /// Ask the object registry.
    AskStore,
    /// Take the registration into the cache and SWIM, then answer with it.
    Adopt(NodeRegistration),
    /// The lookup's answer.
    Answer(Option<NodeRegistration>),
}

/// The first step of looking up `target`: an address is searched for by
/// address first; a node ID goes to local knowledge.
pub fn lookup_first_step(target: &str) -> (s: NodeLookupStep)
    ensures
        addressy(target@) ==> s is SearchByAddress,
        !addressy(target@) ==> s is AskLocal,
{
    if NodeRegistry::looks_like_address(target) {
        NodeLookupStep::SearchByAddress
    } else {
        NodeLookupStep::AskLocal
    }
}

/// After the search by address: a node found there is the answer;
/// otherwise local knowledge is asked.
pub fn lookup_after_address_search(found: Option<NodeRegistration>) -> (s: NodeLookupStep)
    ensures
        match found {
            Some(r) => s matches NodeLookupStep::Answer(Some(x)) && x@ == r@,
            None => s is AskLocal,
        },
{
    match found {
        Some(r) => NodeLookupStep::Answer(Some(r)),
        None => NodeLookupStep::AskLocal,
    }
}

/// After asking local knowledge: a registration found is the answer; a node
/// SWIM knows as gone is answered with none; otherwise the object registry
/// is asked.
pub fn lookup_after_local(local: LocalLookup) -> (s: NodeLookupStep)
    ensures
        match local {
            LocalLookup::Found(r) => s matches NodeLookupStep::Answer(Some(x)) && x@ == r@,
            LocalLookup::Gone => s matches NodeLookupStep::Answer(None),
            LocalLookup::Unknown => s is AskStore,
        },
{
    match local {
        LocalLookup::Found(r) => NodeLookupStep::Answer(Some(r)),
        LocalLookup::Gone => NodeLookupStep::Answer(None),
        LocalLookup::Unknown => NodeLookupStep::AskStore,
    }
}

/// After asking the object registry: a registration found there is adopted
/// (cached and taken into SWIM) and answered; nothing found, or a failing
/// registry, is answered with none.
pub fn lookup_after_store(result: Result<Option<NodeRegistration>, String>) -> (s: NodeLookupStep)
    ensures
        match result {
            Ok(Some(r)) => s matches NodeLookupStep::Adopt(x) && x@ == r@,
            _ => s matches NodeLookupStep::Answer(None),
        },
{
    match result {
        Ok(Some(r)) => NodeLookupStep::Adopt(r),
        _ => NodeLookupStep::Answer(None),
    }
}

/// A source of the registrations a node listing chooses from.
#[derive(Debug, Clone, Copy, PartialEq, Eq, Structural)]
pub enum ListingSource {
    /// The object registry after a sync with it; its failure fails the listing.
    SyncedStore,
    /// The active SWIM members.
    SwimMembers,
    /// The live cache entries.
    LiveCache,
    /// The object registry's recent entries; its failure is passed over.
    RecentStore,
}

/// The sources of a node listing, in order of precedence: in shared-database
/// mode the object registry alone, after a sync; otherwise the active SWIM
/// members, then the live cache entries, then the object registry.
pub fn listing_sources(shared_db: bool) -> (r: Vec<ListingSource>)
    ensures
        shared_db ==> r@ == seq![ListingSource::SyncedStore],
        !shared_db ==> r@ == seq![ListingSource::SwimMembers, ListingSource::LiveCache, ListingSource::RecentStore],
{
    if shared_db {
        vec![ListingSource::SyncedStore]
    } else {
        vec![ListingSource::SwimMembers, ListingSource::LiveCache, ListingSource::RecentStore]
    }
}

/// Whether a failure of the source fails the whole listing.
pub fn listing_source_failure_is_fatal(s: ListingSource) -> (b: bool)
    ensures
        b == (s == ListingSource::SyncedStore),
{
    match s {
        ListingSource::SyncedStore => true,
        _ => false,
    }
}

} // verus!
