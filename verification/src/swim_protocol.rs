//! The SWIM protocol state machine.
//!
//! The protocol keeps the known members (at most one per node ID), a queue of
//! membership updates to piggyback on outgoing messages (at most one per node
//! ID, bounded by twice the piggyback limit), the local incarnation number and
//! activity counters.  Every operation is specified as a function on
//! [`ProtocolView`]; the executable methods are proved to compute exactly that
//! function.  Operations that read the clock have an `_at` form that takes the
//! current instant as an argument.
//!
//! Members and queued updates are held in vectors kept unique by node ID (an
//! invariant of the state, [`protocol_wf`]) rather than in maps keyed by node
//! ID: node IDs are text, and for a map keyed by `String` the verifier has no
//! model of the keys that the contracts here could be proved against, while a
//! vector searched by comparing node IDs is fully specified.

use vstd::prelude::*;

use crate::swim::{
    MemberView, MembershipUpdate, NodeState, SwimConfig, SwimMember, SwimStats, SwimStatsSnapshot,
    SwimHealthStatus, UpdateView, active, fresh_member, fresh_update, member_after_probe_success, member_after_update,
    reapable, rank, stats_view, zero_stats,
};
use crate::labels::{label_lookup, label_value};
use crate::swim_laws::{lemma_merge_member_by_member, merged_entry, not_in_remote, remote_ids_distinct};
use crate::text::str_eq;
use rand::seq::SliceRandom;
use crate::time::{Duration, Instant};

verus! {

/// The value of a [`SwimProtocol`].
pub struct ProtocolView {
    pub local_node_id: Seq<char>,
    pub local_address: Seq<char>,
    pub local_incarnation: u64,
    pub members: Seq<MemberView>,
    pub queue: Seq<UpdateView>,
    pub config: SwimConfig,
    pub probe_sequence: u64,
    pub running: bool,
    pub stats: SwimStatsSnapshot,
}

/// `x + k` on a counter that wraps around at `u64::MAX`.
pub open spec fn wrap_add(x: u64, k: u64) -> u64 {
    if x + k <= u64::MAX {
        (x + k) as u64
    } else {
        (x + k - 0x1_0000_0000_0000_0000) as u64
    }
}

/// Adds `k` to a counter, wrapping around at `u64::MAX`.
pub fn wrapping_increase(x: u64, k: u64) -> (r: u64)
    ensures
        r == wrap_add(x, k),
{
    if x <= u64::MAX - k {
        x + k
    } else {
        k - (u64::MAX - x) - 1
    }
}

/// No two members share a node ID.
pub open spec fn members_unique(ms: Seq<MemberView>) -> bool {
    forall|i: int, j: int| 0 <= i < ms.len() && 0 <= j < ms.len() && i != j ==> ms[i].node_id != ms[j].node_id
}

/// No two queued updates share a node ID.
pub open spec fn updates_unique(q: Seq<UpdateView>) -> bool {
    forall|i: int, j: int| 0 <= i < q.len() && 0 <= j < q.len() && i != j ==> q[i].node_id != q[j].node_id
}

/// The most updates the queue keeps.
pub open spec fn queue_capacity(v: ProtocolView) -> nat {
    (v.config.max_piggyback_updates * 2) as nat
}

/// The protocol state is well formed: members and queued updates are unique
/// by node ID and the queue is within its capacity.
pub open spec fn protocol_wf(v: ProtocolView) -> bool {
    &&& members_unique(v.members)
    &&& updates_unique(v.queue)
    &&& v.config.max_piggyback_updates * 2 <= usize::MAX
    &&& v.queue.len() <= queue_capacity(v)
}

/// Some member has node ID `id`.
pub open spec fn has_member(ms: Seq<MemberView>, id: Seq<char>) -> bool {
    exists|i: int| 0 <= i < ms.len() && ms[i].node_id == id
}

/// The position of the member with node ID `id`.
pub open spec fn member_pos(ms: Seq<MemberView>, id: Seq<char>) -> int {
    choose|i: int| 0 <= i < ms.len() && ms[i].node_id == id
}

/// Some queued update is about node ID `id`.
pub open spec fn has_update(q: Seq<UpdateView>, id: Seq<char>) -> bool {
    exists|i: int| 0 <= i < q.len() && q[i].node_id == id
}

/// The position of the queued update about node ID `id`.
pub open spec fn update_pos(q: Seq<UpdateView>, id: Seq<char>) -> int {
    choose|i: int| 0 <= i < q.len() && q[i].node_id == id
}

/// The queue after offering update `u`: it replaces the update about the same
/// node when its incarnation is not lower, is dropped when it is lower, and is
/// appended otherwise; the oldest entries are then dropped beyond `cap`.
pub open spec fn queue_after_offer(q: Seq<UpdateView>, u: UpdateView, cap: nat) -> Seq<UpdateView> {
    let q1 = if has_update(q, u.node_id) {
        let i = update_pos(q, u.node_id);
        if u.incarnation >= q[i].incarnation {
            q.update(i, u)
        } else {
            q
        }
    } else {
        q.push(u)
    };
    if q1.len() > cap {
        q1.subrange(q1.len() - cap, q1.len() as int)
    } else {
        q1
    }
}

/// The protocol with update `u` offered to its queue.
pub open spec fn offer(v: ProtocolView, u: UpdateView) -> ProtocolView {
    ProtocolView { queue: queue_after_offer(v.queue, u, queue_capacity(v)), ..v }
}

/// The update announcing member `m` at `now`.
pub open spec fn announcement(m: MemberView, now: Instant) -> UpdateView {
    UpdateView {
        node_id: m.node_id,
        state: m.state,
        incarnation: m.incarnation,
        address: Some(m.address),
        created_at: now,
        broadcast_count: 0,
    }
}

/// Adding or refreshing member `m` at `now`: a new member joins; a known one
/// is replaced only by a higher incarnation.  Each change is announced.
pub open spec fn after_upsert(v: ProtocolView, m: MemberView, now: Instant) -> ProtocolView {
    if has_member(v.members, m.node_id) {
        let i = member_pos(v.members, m.node_id);
        if m.incarnation > v.members[i].incarnation {
            offer(ProtocolView { members: v.members.update(i, m), ..v }, announcement(m, now))
        } else {
            v
        }
    } else {
        offer(
            ProtocolView {
                members: v.members.push(m),
                stats: SwimStatsSnapshot { joins: wrap_add(v.stats.joins, 1), ..v.stats },
                ..v
            },
            announcement(m, now),
        )
    }
}

/// Removing the member with node ID `id` without announcing anything.
pub open spec fn after_silent_removal(v: ProtocolView, id: Seq<char>) -> ProtocolView {
    if has_member(v.members, id) {
        ProtocolView { members: v.members.remove(member_pos(v.members, id)), ..v }
    } else {
        v
    }
}

/// The member with node ID `id`, if known.
pub open spec fn lookup(v: ProtocolView, id: Seq<char>) -> Option<MemberView> {
    if has_member(v.members, id) {
        Some(v.members[member_pos(v.members, id)])
    } else {
        None
    }
}

/// A protocol with no members, no queued updates, incarnation 0, stopped.
pub open spec fn initial_protocol(local_node_id: Seq<char>, local_address: Seq<char>, config: SwimConfig) -> ProtocolView {
    ProtocolView {
        local_node_id,
        local_address,
        local_incarnation: 0,
        members: Seq::empty(),
        queue: Seq::empty(),
        config,
        probe_sequence: 0,
        running: false,
        stats: zero_stats(),
    }
}


/// The member with node ID `id` moves to `state` at `now`.
pub open spec fn set_state(v: ProtocolView, id: Seq<char>, state: NodeState, now: Instant) -> ProtocolView {
    let i = member_pos(v.members, id);
    ProtocolView { members: v.members.update(i, MemberView { state, state_changed_at: now, ..v.members[i] }), ..v }
}

/// Suspecting an alive member at `now`; it is announced at its incarnation.
pub open spec fn after_suspect(v: ProtocolView, id: Seq<char>, now: Instant) -> ProtocolView {
    if has_member(v.members, id) && v.members[member_pos(v.members, id)].state == NodeState::Alive {
        let inc = v.members[member_pos(v.members, id)].incarnation;
        let v1 = set_state(v, id, NodeState::Suspect, now);
        offer(
            ProtocolView { stats: SwimStatsSnapshot { suspicions: wrap_add(v.stats.suspicions, 1), ..v.stats }, ..v1 },
            fresh_update(id, NodeState::Suspect, inc, now),
        )
    } else {
        v
    }
}

/// Declaring a member dead at `now` unless it is already dead or gone; the
/// incarnation is not consulted.
pub open spec fn after_declare_dead(v: ProtocolView, id: Seq<char>, now: Instant) -> ProtocolView {
    if has_member(v.members, id) && active(v.members[member_pos(v.members, id)].state) {
        let inc = v.members[member_pos(v.members, id)].incarnation;
        let v1 = set_state(v, id, NodeState::Dead, now);
        offer(
            ProtocolView { stats: SwimStatsSnapshot { deaths: wrap_add(v.stats.deaths, 1), ..v.stats }, ..v1 },
            fresh_update(id, NodeState::Dead, inc, now),
        )
    } else {
        v
    }
}

/// Marking a member as having left at `now` (the local decision to
/// disconnect from it) unless it is already dead or gone; the incarnation is
/// not consulted and the departure is announced at the member's incarnation.
pub open spec fn after_mark_left(v: ProtocolView, id: Seq<char>, now: Instant) -> ProtocolView {
    if has_member(v.members, id) && active(v.members[member_pos(v.members, id)].state) {
        let inc = v.members[member_pos(v.members, id)].incarnation;
        let v1 = set_state(v, id, NodeState::Left, now);
        offer(
            ProtocolView { stats: SwimStatsSnapshot { leaves: wrap_add(v.stats.leaves, 1), ..v.stats }, ..v1 },
            fresh_update(id, NodeState::Left, inc, now),
        )
    } else {
        v
    }
}

/// One more received update counted.
pub open spec fn count_received(v: ProtocolView) -> ProtocolView {
    ProtocolView { stats: SwimStatsSnapshot { updates_received: wrap_add(v.stats.updates_received, 1), ..v.stats }, ..v }
}

/// A node proves it is alive with `inc` at `address`, at `now`.  A known
/// member takes the news by the incarnation rules and, when it does, the new
/// address and a successful probe; an unknown node joins at `inc`.
pub open spec fn after_alive(v: ProtocolView, id: Seq<char>, inc: u64, address: Seq<char>, now: Instant) -> ProtocolView {
    if has_member(v.members, id) {
        let i = member_pos(v.members, id);
        let (m1, took) = member_after_update(v.members[i], NodeState::Alive, inc, now);
        let m2 = if took {
            member_after_probe_success(MemberView { address, ..m1 }, now)
        } else {
            v.members[i]
        };
        count_received(ProtocolView { members: v.members.update(i, m2), ..v })
    } else {
        count_received(ProtocolView {
            members: v.members.push(MemberView { incarnation: inc, ..fresh_member(id, address, now) }),
            stats: SwimStatsSnapshot { joins: wrap_add(v.stats.joins, 1), ..v.stats },
            ..v
        })
    }
}

/// The announcement of the local node alive at incarnation `inc`.
pub open spec fn self_announcement(v: ProtocolView, inc: u64, now: Instant) -> UpdateView {
    UpdateView {
        node_id: v.local_node_id,
        state: NodeState::Alive,
        incarnation: inc,
        address: Some(v.local_address),
        created_at: now,
        broadcast_count: 0,
    }
}

/// A suspicion about node `id` at incarnation `inc` arrives at `now`.  About
/// the local node it is refuted: the local incarnation goes up and the node
/// announces itself alive.  About another node it is applied by the
/// incarnation rules.
pub open spec fn after_suspicion(v: ProtocolView, id: Seq<char>, inc: u64, now: Instant) -> ProtocolView {
    if id == v.local_node_id {
        let n = (v.local_incarnation + 1) as u64;
        offer(
            ProtocolView {
                local_incarnation: n,
                stats: SwimStatsSnapshot { refutations: wrap_add(v.stats.refutations, 1), ..v.stats },
                ..v
            },
            self_announcement(v, n, now),
        )
    } else if has_member(v.members, id) {
        let i = member_pos(v.members, id);
        count_received(ProtocolView {
            members: v.members.update(i, member_after_update(v.members[i], NodeState::Suspect, inc, now).0),
            ..v
        })
    } else {
        count_received(v)
    }
}

/// A known node announces that it left, at incarnation `inc`.
pub open spec fn after_leave(v: ProtocolView, id: Seq<char>, inc: u64, now: Instant) -> ProtocolView {
    if has_member(v.members, id) {
        let i = member_pos(v.members, id);
        ProtocolView {
            members: v.members.update(i, member_after_update(v.members[i], NodeState::Left, inc, now).0),
            stats: SwimStatsSnapshot { leaves: wrap_add(v.stats.leaves, 1), ..v.stats },
            ..v
        }
    } else {
        v
    }
}

/// Applying one received update at `now`.
pub open spec fn apply_one(v: ProtocolView, u: UpdateView, now: Instant) -> ProtocolView {
    match u.state {
        NodeState::Alive => match u.address {
            Some(a) => after_alive(v, u.node_id, u.incarnation, a, now),
            None => v,
        },
        NodeState::Suspect => after_suspicion(v, u.node_id, u.incarnation, now),
        NodeState::Dead => after_declare_dead(v, u.node_id, now),
        NodeState::Left => after_leave(v, u.node_id, u.incarnation, now),
    }
}

/// Applying received updates in order at `now`.
pub open spec fn apply_all(v: ProtocolView, us: Seq<UpdateView>, now: Instant) -> ProtocolView
    decreases us.len(),
{
    if us.len() == 0 {
        v
    } else {
        apply_one(apply_all(v, us.drop_last(), now), us.last(), now)
    }
}

/// How many of the updates are suspicions about the node `id`.
pub open spec fn suspicions_of(us: Seq<UpdateView>, id: Seq<char>) -> nat
    decreases us.len(),
{
    if us.len() == 0 {
        0
    } else {
        suspicions_of(us.drop_last(), id) + if us.last().state == NodeState::Suspect && us.last().node_id == id { 1nat } else { 0nat }
    }
}

/// The views of a vector of updates.
pub open spec fn update_views(us: Seq<MembershipUpdate>) -> Seq<UpdateView> {
    us.map_values(|u: MembershipUpdate| u@)
}


/// The views of a sequence of members.
pub open spec fn member_views(ms: Seq<SwimMember>) -> Seq<MemberView> {
    ms.map_values(|m: SwimMember| m@)
}

/// No two elements share a key.
pub open spec fn unique_by<A>(s: Seq<A>, key: spec_fn(A) -> Seq<char>) -> bool {
    forall|i: int, j: int| 0 <= i < s.len() && 0 <= j < s.len() && i != j ==> key(s[i]) != key(s[j])
}

/// Merging one member of a peer's full state at `now`: the local node is
/// skipped; a known member takes a higher incarnation wholesale, or at the
/// same incarnation a more severe state; an unknown member is added when it is
/// active.
pub open spec fn merge_one(v: ProtocolView, r: MemberView, now: Instant) -> ProtocolView {
    if r.node_id == v.local_node_id {
        v
    } else if has_member(v.members, r.node_id) {
        let i = member_pos(v.members, r.node_id);
        let l = v.members[i];
        if r.incarnation > l.incarnation {
            ProtocolView { members: v.members.update(i, r), ..v }
        } else if r.incarnation == l.incarnation && rank(r.state) > rank(l.state) {
            ProtocolView { members: v.members.update(i, MemberView { state: r.state, state_changed_at: now, ..l }), ..v }
        } else {
            v
        }
    } else if active(r.state) {
        ProtocolView { members: v.members.push(r), ..v }
    } else {
        v
    }
}

/// Merging a peer's members in order at `now`.
pub open spec fn merge_all(v: ProtocolView, rs: Seq<MemberView>, now: Instant) -> ProtocolView
    decreases rs.len(),
{
    if rs.len() == 0 {
        v
    } else {
        merge_one(merge_all(v, rs.drop_last(), now), rs.last(), now)
    }
}

/// An anti-entropy merge of a peer's full state at `now`.
pub open spec fn after_merge(v: ProtocolView, rs: Seq<MemberView>, now: Instant) -> ProtocolView {
    let m = merge_all(v, rs, now);
    ProtocolView { stats: SwimStatsSnapshot { anti_entropy_syncs: wrap_add(m.stats.anti_entropy_syncs, 1), ..m.stats }, ..m }
}

/// Members kept by a reap at `now`.
pub open spec fn reap_keeps(timeout: Duration, now: Instant) -> spec_fn(MemberView) -> bool {
    |m: MemberView| !reapable(m, timeout, now)
}

/// Reaping members dead or gone for longer than `timeout`, at `now`.
pub open spec fn after_reap(v: ProtocolView, timeout: Duration, now: Instant) -> ProtocolView {
    let kept = v.members.filter(reap_keeps(timeout, now));
    let n = v.members.len() - kept.len();
    ProtocolView {
        members: kept,
        stats: if n > 0 { SwimStatsSnapshot { reaps: wrap_add(v.stats.reaps, n as u64), ..v.stats } } else { v.stats },
        ..v
    }
}

/// A suspect whose suspicion is older than `timeout` at `now`.
pub open spec fn timed_out(timeout: Duration, now: Instant) -> spec_fn(MemberView) -> bool {
    |m: MemberView| m.state == NodeState::Suspect && crate::time::longer_than(m.state_changed_at, now, timeout)
}

/// The node IDs of the members.
pub open spec fn ids_of(ms: Seq<MemberView>) -> Seq<Seq<char>> {
    ms.map_values(|m: MemberView| m.node_id)
}

/// Declaring each listed node dead, in order, at `now`.
pub open spec fn declare_all_dead(v: ProtocolView, ids: Seq<Seq<char>>, now: Instant) -> ProtocolView
    decreases ids.len(),
{
    if ids.len() == 0 {
        v
    } else {
        after_declare_dead(declare_all_dead(v, ids.drop_last(), now), ids.last(), now)
    }
}

/// Declaring dead, at `now`, every suspect whose suspicion is older than `timeout`.
pub open spec fn after_timeouts(v: ProtocolView, timeout: Duration, now: Instant) -> ProtocolView {
    declare_all_dead(v, ids_of(v.members.filter(timed_out(timeout, now))), now)
}

/// Members in state `st`.
pub open spec fn in_state(st: NodeState) -> spec_fn(MemberView) -> bool {
    |m: MemberView| m.state == st
}

/// Members that are active.
pub open spec fn is_active_member() -> spec_fn(MemberView) -> bool {
    |m: MemberView| active(m.state)
}

/// How many members are in state `st`.
pub open spec fn count_in_state(ms: Seq<MemberView>, st: NodeState) -> nat {
    ms.filter(in_state(st)).len()
}

/// The cluster size: the active members and the local node.
pub open spec fn cluster_size_of(v: ProtocolView) -> nat {
    v.members.filter(is_active_member()).len() + 1
}

/// Member counts by state.
#[derive(Debug, Clone, Copy, PartialEq, Eq, Structural)]
pub struct MemberCounts {
    pub alive: usize,
    pub suspect: usize,
    pub dead: usize,
    pub left: usize,
}

impl MemberCounts {
    /// The count for one state.
    pub fn get(&self, state: &NodeState) -> (n: Option<usize>)
        ensures
            n == Some(match *state {
                NodeState::Alive => self.alive,
                NodeState::Suspect => self.suspect,
                NodeState::Dead => self.dead,
                NodeState::Left => self.left,
            }),
    {
        match state {
            NodeState::Alive => Some(self.alive),
            NodeState::Suspect => Some(self.suspect),
            NodeState::Dead => Some(self.dead),
            NodeState::Left => Some(self.left),
        }
    }
}

/// The health report of a protocol: counts of alive, suspect and dead
/// members (departed members are not counted in the total).
pub open spec fn health_of(v: ProtocolView) -> SwimHealthStatus {
    let a = count_in_state(v.members, NodeState::Alive);
    let s = count_in_state(v.members, NodeState::Suspect);
    let d = count_in_state(v.members, NodeState::Dead);
    SwimHealthStatus {
        is_running: v.running,
        local_incarnation: v.local_incarnation,
        total_members: (a + s + d) as usize,
        alive_members: a as usize,
        suspect_members: s as usize,
        dead_members: d as usize,
        stats: v.stats,
    }
}


/// The excluded node ID, if any.
pub open spec fn excluded_id(exclude: Option<&str>) -> Option<Seq<char>> {
    match exclude {
        Some(e) => Some(e@),
        None => None,
    }
}

/// Members that are alive (or, with `alive_only` off, active), not the local
/// node when `skip_local` is on, and not the excluded node.
pub open spec fn selection(alive_only: bool, skip_local: bool, local: Seq<char>, exclude: Option<Seq<char>>) -> spec_fn(MemberView) -> bool {
    |m: MemberView|
        (if alive_only { m.state == NodeState::Alive } else { active(m.state) })
        && (!skip_local || m.node_id != local)
        && match exclude {
            Some(e) => m.node_id != e,
            None => true,
        }
}


/// The updates picked for piggybacking: in queue order, those broadcast fewer
/// than `limit` times, at most `k` of them.
pub open spec fn picked_updates(q: Seq<UpdateView>, limit: u32, k: nat) -> Seq<UpdateView>
    decreases q.len(),
{
    if q.len() == 0 {
        q
    } else {
        let p = picked_updates(q.drop_last(), limit, k);
        if p.len() < k && q.last().broadcast_count < limit {
            p.push(q.last())
        } else {
            p
        }
    }
}

/// Some picked update is about node `id`.
pub open spec fn is_picked(p: Seq<UpdateView>, id: Seq<char>) -> bool {
    exists|j: int| 0 <= j < p.len() && p[j].node_id == id
}

/// A queued update after a broadcast round: counted once more when picked.
pub open spec fn bumped(p: Seq<UpdateView>) -> spec_fn(UpdateView) -> UpdateView {
    |u: UpdateView|
        if is_picked(p, u.node_id) {
            UpdateView { broadcast_count: (u.broadcast_count + 1) as u32, ..u }
        } else {
            u
        }
}

/// Updates broadcast fewer than `limit` times.
pub open spec fn below_limit(limit: u32) -> spec_fn(UpdateView) -> bool {
    |u: UpdateView| u.broadcast_count < limit
}

/// Queued updates that were picked.
pub open spec fn picked_filter(p: Seq<UpdateView>) -> spec_fn(UpdateView) -> bool {
    |u: UpdateView| is_picked(p, u.node_id)
}

/// A piggyback round with broadcast limit `limit`: the picked updates are
/// returned, counted once more, and the updates that reached the limit leave
/// the queue.
pub open spec fn after_broadcast(v: ProtocolView, limit: u32) -> (ProtocolView, Seq<UpdateView>) {
    let p = picked_updates(v.queue, limit, v.config.max_piggyback_updates as nat);
    let n = v.queue.filter(picked_filter(p)).len();
    (
        ProtocolView {
            queue: v.queue.map_values(bumped(p)).filter(below_limit(limit)),
            stats: SwimStatsSnapshot { updates_broadcast: wrap_add(v.stats.updates_broadcast, n as u64), ..v.stats },
            ..v
        },
        p,
    )
}

/// Active members other than the local node: the probe candidates.
pub open spec fn probe_candidates(v: ProtocolView) -> Seq<MemberView> {
    v.members.filter(selection(false, true, v.local_node_id, None))
}

/// Selecting the next probe target, round-robin over the candidates by the
/// probe sequence number, which advances (wrapping) when a target is chosen.
pub open spec fn after_probe_selection(v: ProtocolView) -> (ProtocolView, Option<MemberView>) {
    let c = probe_candidates(v);
    if c.len() == 0 {
        (v, None)
    } else {
        (
            ProtocolView { probe_sequence: wrap_add(v.probe_sequence, 1), ..v },
            Some(c[((v.probe_sequence as usize) as int) % (c.len() as int)]),
        )
    }
}

/// A member marked thin in its metadata (`node_type` = `thin`): it has no
/// inbound endpoint and cannot relay pings.
pub open spec fn is_thin(m: MemberView) -> bool {
    label_value(m.metadata, "node_type"@) == Some("thin"@)
}

/// Members that are not marked thin.
pub open spec fn not_thin() -> spec_fn(MemberView) -> bool {
    |m: MemberView| !is_thin(m)
}

/// Alive members other than the local node and `exclude`, and not marked
/// thin: the intermediaries for an indirect ping.
pub open spec fn indirect_candidates(v: ProtocolView, exclude: Seq<char>) -> Seq<MemberView> {
    v.members.filter(selection(true, true, v.local_node_id, Some(exclude))).filter(not_thin())
}

/// The SWIM protocol state machine of one node.
pub struct SwimProtocol {
    local_node_id: String,
    local_address: String,
    local_incarnation: u64,
    members: Vec<SwimMember>,
    updates_queue: Vec<MembershipUpdate>,
    config: SwimConfig,
    probe_sequence: u64,
    running: bool,
    stats: SwimStats,
}

impl View for SwimProtocol {
    type V = ProtocolView;

    closed spec fn view(&self) -> ProtocolView {
        ProtocolView {
            local_node_id: self.local_node_id@,
            local_address: self.local_address@,
            local_incarnation: self.local_incarnation,
            members: member_views(self.members@),
            queue: self.updates_queue@.map_values(|u: MembershipUpdate| u@),
            config: self.config,
            probe_sequence: self.probe_sequence,
            running: self.running,
            stats: stats_view(self.stats),
        }
    }
}

impl SwimProtocol {
    /// A new protocol instance for the local node.
    pub fn new(local_node_id: String, local_address: String, config: SwimConfig) -> (p: SwimProtocol)
        requires
            config.max_piggyback_updates * 2 <= usize::MAX,
        ensures
            p@ == initial_protocol(local_node_id@, local_address@, config),
            protocol_wf(p@),
    {
        let p = SwimProtocol {
            local_node_id,
            local_address,
            local_incarnation: 0,
            members: Vec::new(),
            updates_queue: Vec::new(),
            config,
            probe_sequence: 0,
            running: false,
            stats: SwimStats::new(),
        };
        assert(p@.members =~= Seq::<MemberView>::empty());
        assert(p@.queue =~= Seq::<UpdateView>::empty());
        p
    }

    /// The local node ID.
    pub fn local_node_id(&self) -> (s: &str)
        ensures
            s@ == self@.local_node_id,
    {
        self.local_node_id.as_str()
    }

    /// The local address.
    pub fn local_address(&self) -> (s: &str)
        ensures
            s@ == self@.local_address,
    {
        self.local_address.as_str()
    }

    /// The local incarnation number.
    pub fn local_incarnation(&self) -> (n: u64)
        ensures
            n == self@.local_incarnation,
    {
        self.local_incarnation
    }

    /// The configuration.
    pub fn config(&self) -> (c: &SwimConfig)
        ensures
            *c == self@.config,
    {
        &self.config
    }

    /// The activity counters.
    pub fn stats(&self) -> (s: &SwimStats)
        ensures
            stats_view(*s) == self@.stats,
    {
        &self.stats
    }

    /// Position of the member with node ID `node_id`.
    fn find_member(&self, node_id: &str) -> (r: Option<usize>)
        requires
            members_unique(self@.members),
        ensures
            r.is_some() == has_member(self@.members, node_id@),
            r.is_some() ==> r.unwrap() == member_pos(self@.members, node_id@),
            r.is_some() ==> r.unwrap() < self.members.len(),
    {
        let ghost ms = self@.members;
        let mut i: usize = 0;
        while i < self.members.len()
            invariant
                ms == self@.members,
                ms.len() == self.members.len(),
                members_unique(ms),
                i <= self.members.len(),
                forall|j: int| 0 <= j < i ==> ms[j].node_id != node_id@,
            decreases self.members.len() - i,
        {
            if str_eq(self.members[i].node_id.as_str(), node_id) {
                assert(ms[i as int].node_id == node_id@);
                return Some(i);
            }
            i = i + 1;
        }
        None
    }

    /// Position of the queued update about node ID `node_id`.
    fn find_update(&self, node_id: &str) -> (r: Option<usize>)
        requires
            updates_unique(self@.queue),
        ensures
            r.is_some() == has_update(self@.queue, node_id@),
            r.is_some() ==> r.unwrap() == update_pos(self@.queue, node_id@),
            r.is_some() ==> r.unwrap() < self.updates_queue.len(),
    {
        let ghost q = self@.queue;
        let mut i: usize = 0;
        while i < self.updates_queue.len()
            invariant
                q == self@.queue,
                q.len() == self.updates_queue.len(),
                updates_unique(q),
                i <= self.updates_queue.len(),
                forall|j: int| 0 <= j < i ==> q[j].node_id != node_id@,
            decreases self.updates_queue.len() - i,
        {
            if str_eq(self.updates_queue[i].node_id.as_str(), node_id) {
                assert(q[i as int].node_id == node_id@);
                return Some(i);
            }
            i = i + 1;
        }
        None
    }

    /// Offers an update to the piggyback queue.
    fn queue_update(&mut self, update: MembershipUpdate)
        requires
            protocol_wf(old(self)@),
        ensures
            final(self)@ == offer(old(self)@, update@),
            protocol_wf(final(self)@),
    {
        let ghost v0 = self@;
        let ghost q1: Seq<UpdateView>;
        let ghost uv = update@;
        match self.find_update(update.node_id.as_str()) {
            Some(i) => {
                if update.incarnation >= self.updates_queue[i].incarnation {
                    self.updates_queue.set(i, update);
                    proof {
                        assert(self@.queue =~= v0.queue.update(i as int, uv));
                    }
                }
                proof {
                    q1 = self@.queue;
                }
            }
            None => {
                self.updates_queue.push(update);
                proof {
                    assert(self@.queue =~= v0.queue.push(uv));
                    q1 = self@.queue;
                }
            }
        }
        assert(updates_unique(self@.queue)) by {
            if has_update(v0.queue, uv.node_id) {
                let i = update_pos(v0.queue, uv.node_id);
                assert forall|a: int, b: int| 0 <= a < q1.len() && 0 <= b < q1.len() && a != b
                    implies q1[a].node_id != q1[b].node_id by {
                    if a != i && b != i {
                        assert(q1[a] == v0.queue[a]);
                        assert(q1[b] == v0.queue[b]);
                    }
                }
            }
        }
        let max_size = self.config.max_piggyback_updates * 2;
        if self.updates_queue.len() > max_size {
            let ghost before = self@.queue;
            self.updates_queue.remove(0);
            proof {
                assert(self@.queue =~= before.subrange(before.len() - queue_capacity(v0), before.len() as int));
                assert forall|a: int, b: int| 0 <= a < self@.queue.len() && 0 <= b < self@.queue.len() && a != b
                    implies self@.queue[a].node_id != self@.queue[b].node_id by {
                    assert(self@.queue[a] == before[a + 1]);
                    assert(self@.queue[b] == before[b + 1]);
                }
            }
        }
    }

    /// Adds or refreshes a member at `now`: a new member joins, a known member
    /// is replaced only when the new information has a higher incarnation;
    /// each change is queued for broadcast.
    pub fn upsert_member_at(&mut self, member: SwimMember, now: Instant)
        requires
            protocol_wf(old(self)@),
        ensures
            final(self)@ == after_upsert(old(self)@, member@, now),
            protocol_wf(final(self)@),
    {
        let ghost v0 = self@;
        let ghost mv = member@;
        match self.find_member(member.node_id.as_str()) {
            Some(i) => {
                if member.incarnation > self.members[i].incarnation {
                    let update = MembershipUpdate::new_at(member.node_id.clone(), member.state, member.incarnation, now)
                        .with_address(member.address.clone());
                    self.members.set(i, member);
                    proof {
                        assert(self@.members =~= v0.members.update(i as int, mv));
                        assert forall|a: int, b: int| 0 <= a < self@.members.len() && 0 <= b < self@.members.len() && a != b
                            implies self@.members[a].node_id != self@.members[b].node_id by {
                            if a != i && b != i {
                                assert(self@.members[a] == v0.members[a]);
                                assert(self@.members[b] == v0.members[b]);
                            } else if a == i {
                                assert(self@.members[b] == v0.members[b]);
                            } else {
                                assert(self@.members[a] == v0.members[a]);
                            }
                        }
                        assert(update@ == announcement(mv, now));
                    }
                    self.queue_update(update);
                }
            }
            None => {
                let update = MembershipUpdate::new_at(member.node_id.clone(), member.state, member.incarnation, now)
                    .with_address(member.address.clone());
                self.stats.joins = wrapping_increase(self.stats.joins, 1);
                self.members.push(member);
                proof {
                    assert(self@.members =~= v0.members.push(mv));
                    assert forall|a: int, b: int| 0 <= a < self@.members.len() && 0 <= b < self@.members.len() && a != b
                        implies self@.members[a].node_id != self@.members[b].node_id by {
                        if a < v0.members.len() && b < v0.members.len() {
                            assert(self@.members[a] == v0.members[a]);
                            assert(self@.members[b] == v0.members[b]);
                        } else if a < v0.members.len() {
                            assert(self@.members[a] == v0.members[a]);
                        } else {
                            assert(self@.members[b] == v0.members[b]);
                        }
                    }
                    assert(update@ == announcement(mv, now));
                }
                self.queue_update(update);
            }
        }
    }

    /// Adds or refreshes a member at the current time (see
    /// [`SwimProtocol::upsert_member_at`]).
    pub fn upsert_member(&mut self, member: SwimMember)
        requires
            protocol_wf(old(self)@),
        ensures
            exists|now: Instant| final(self)@ == after_upsert(old(self)@, member@, now),
            protocol_wf(final(self)@),
    {
        self.upsert_member_at(member, Instant::now())
    }

    /// The member with node ID `node_id`, if known.
    pub fn get_member(&self, node_id: &str) -> (r: Option<SwimMember>)
        requires
            protocol_wf(self@),
        ensures
            match r {
                Some(m) => lookup(self@, node_id@) == Some(m@),
                None => lookup(self@, node_id@).is_none(),
            },
    {
        match self.find_member(node_id) {
            Some(i) => Some(self.members[i].clone()),
            None => None,
        }
    }

    /// Removes a member without announcing anything (used for placeholder
    /// entries that are not real cluster members).
    pub fn remove_member_silently(&mut self, node_id: &str)
        requires
            protocol_wf(old(self)@),
        ensures
            final(self)@ == after_silent_removal(old(self)@, node_id@),
            protocol_wf(final(self)@),
    {
        let ghost v0 = self@;
        match self.find_member(node_id) {
            Some(i) => {
                self.members.remove(i);
                proof {
                    assert(self@.members =~= v0.members.remove(i as int));
                    assert forall|a: int, b: int| 0 <= a < self@.members.len() && 0 <= b < self@.members.len() && a != b
                        implies self@.members[a].node_id != self@.members[b].node_id by {
                        let a0 = if a < i { a } else { a + 1 };
                        let b0 = if b < i { b } else { b + 1 };
                        assert(self@.members[a] == v0.members[a0]);
                        assert(self@.members[b] == v0.members[b0]);
                    }
                }
            }
            None => {}
        }
    }

    /// Replaces the member at position `i` by one with the same node ID.
    fn replace_member(&mut self, i: usize, m: SwimMember)
        requires
            protocol_wf(old(self)@),
            i < old(self)@.members.len(),
            m@.node_id == old(self)@.members[i as int].node_id,
        ensures
            final(self)@ == (ProtocolView { members: old(self)@.members.update(i as int, m@), ..old(self)@ }),
            protocol_wf(final(self)@),
    {
        let ghost v0 = self@;
        let ghost mv = m@;
        self.members.set(i, m);
        proof {
            assert(self@.members =~= v0.members.update(i as int, mv));
            assert forall|a: int, b: int| 0 <= a < self@.members.len() && 0 <= b < self@.members.len() && a != b
                implies self@.members[a].node_id != self@.members[b].node_id by {
                if a != i {
                    assert(self@.members[a] == v0.members[a]);
                }
                if b != i {
                    assert(self@.members[b] == v0.members[b]);
                }
            }
        }
    }

    /// Marks an alive member as suspect at `now` and queues the news.
    pub fn suspect_member_at(&mut self, node_id: &str, now: Instant)
        requires
            protocol_wf(old(self)@),
        ensures
            final(self)@ == after_suspect(old(self)@, node_id@, now),
            protocol_wf(final(self)@),
    {
        if let Some(i) = self.find_member(node_id) {
            if self.members[i].state == NodeState::Alive {
                let incarnation = self.members[i].incarnation;
                let mut m = self.members[i].clone();
                m.state = NodeState::Suspect;
                m.state_changed_at = now;
                self.replace_member(i, m);
                self.stats.suspicions = wrapping_increase(self.stats.suspicions, 1);
                self.queue_update(MembershipUpdate::new_at(crate::text::owned(node_id), NodeState::Suspect, incarnation, now));
            }
        }
    }

    /// Marks an alive member as suspect at the current time.
    pub fn suspect_member(&mut self, node_id: &str)
        requires
            protocol_wf(old(self)@),
        ensures
            exists|now: Instant| final(self)@ == after_suspect(old(self)@, node_id@, now),
            protocol_wf(final(self)@),
    {
        self.suspect_member_at(node_id, Instant::now())
    }

    /// Declares a member dead at `now` (unless dead or gone already) and
    /// queues the news.
    pub fn declare_dead_at(&mut self, node_id: &str, now: Instant)
        requires
            protocol_wf(old(self)@),
        ensures
            final(self)@ == after_declare_dead(old(self)@, node_id@, now),
            protocol_wf(final(self)@),
    {
        if let Some(i) = self.find_member(node_id) {
            if self.members[i].state != NodeState::Dead && self.members[i].state != NodeState::Left {
                let incarnation = self.members[i].incarnation;
                let mut m = self.members[i].clone();
                m.state = NodeState::Dead;
                m.state_changed_at = now;
                self.replace_member(i, m);
                self.stats.deaths = wrapping_increase(self.stats.deaths, 1);
                self.queue_update(MembershipUpdate::new_at(crate::text::owned(node_id), NodeState::Dead, incarnation, now));
            }
        }
    }

    /// Marks a member as having left at `now` (unless dead or gone already)
    /// and queues the news; used when the local node disconnects from it.
    pub fn mark_left_at(&mut self, node_id: &str, now: Instant)
        requires
            protocol_wf(old(self)@),
        ensures
            final(self)@ == after_mark_left(old(self)@, node_id@, now),
            protocol_wf(final(self)@),
    {
        if let Some(i) = self.find_member(node_id) {
            if self.members[i].state != NodeState::Dead && self.members[i].state != NodeState::Left {
                let incarnation = self.members[i].incarnation;
                let mut m = self.members[i].clone();
                m.state = NodeState::Left;
                m.state_changed_at = now;
                self.replace_member(i, m);
                self.stats.leaves = wrapping_increase(self.stats.leaves, 1);
                self.queue_update(MembershipUpdate::new_at(crate::text::owned(node_id), NodeState::Left, incarnation, now));
            }
        }
    }

    /// Declares a member dead at the current time.
    pub fn declare_dead(&mut self, node_id: &str)
        requires
            protocol_wf(old(self)@),
        ensures
            exists|now: Instant| final(self)@ == after_declare_dead(old(self)@, node_id@, now),
            protocol_wf(final(self)@),
    {
        self.declare_dead_at(node_id, Instant::now())
    }

    /// Processes a message in which node `node_id` proves it is alive, at `now`.
    pub fn process_alive_at(&mut self, node_id: &str, incarnation: u64, address: &str, now: Instant)
        requires
            protocol_wf(old(self)@),
        ensures
            final(self)@ == after_alive(old(self)@, node_id@, incarnation, address@, now),
            protocol_wf(final(self)@),
    {
        let ghost v0 = self@;
        match self.find_member(node_id) {
            Some(i) => {
                let mut m = self.members[i].clone();
                if m.update_state_at(NodeState::Alive, incarnation, now) {
                    m.address = crate::text::owned(address);
                    m.record_probe_success_at(now);
                }
                self.replace_member(i, m);
            }
            None => {
                let mut m = SwimMember::new_at(crate::text::owned(node_id), crate::text::owned(address), now);
                m.incarnation = incarnation;
                let ghost mv = m@;
                self.members.push(m);
                self.stats.joins = wrapping_increase(self.stats.joins, 1);
                proof {
                    assert(self@.members =~= v0.members.push(mv));
                    assert forall|a: int, b: int| 0 <= a < self@.members.len() && 0 <= b < self@.members.len() && a != b
                        implies self@.members[a].node_id != self@.members[b].node_id by {
                        if a < v0.members.len() {
                            assert(self@.members[a] == v0.members[a]);
                        }
                        if b < v0.members.len() {
                            assert(self@.members[b] == v0.members[b]);
                        }
                    }
                }
            }
        }
        self.stats.updates_received = wrapping_increase(self.stats.updates_received, 1);
    }

    /// Processes a message in which node `node_id` proves it is alive, at the
    /// current time.
    pub fn process_alive(&mut self, node_id: &str, incarnation: u64, address: &str)
        requires
            protocol_wf(old(self)@),
        ensures
            exists|now: Instant| final(self)@ == after_alive(old(self)@, node_id@, incarnation, address@, now),
            protocol_wf(final(self)@),
    {
        self.process_alive_at(node_id, incarnation, address, Instant::now())
    }

    /// Increments the local incarnation (when refuting a suspicion) and
    /// returns the new value.
    pub fn increment_incarnation(&mut self) -> (n: u64)
        requires
            old(self)@.local_incarnation < u64::MAX,
        ensures
            n == old(self)@.local_incarnation + 1,
            final(self)@ == (ProtocolView {
                local_incarnation: n,
                stats: SwimStatsSnapshot { refutations: wrap_add(old(self)@.stats.refutations, 1), ..old(self)@.stats },
                ..old(self)@
            }),
    {
        self.local_incarnation = self.local_incarnation + 1;
        self.stats.refutations = wrapping_increase(self.stats.refutations, 1);
        self.local_incarnation
    }

    /// Processes a suspicion about node `node_id` at `now`; a suspicion about
    /// the local node is refuted.
    pub fn process_suspect_at(&mut self, node_id: &str, incarnation: u64, now: Instant)
        requires
            protocol_wf(old(self)@),
            node_id@ == old(self)@.local_node_id ==> old(self)@.local_incarnation < u64::MAX,
        ensures
            final(self)@ == after_suspicion(old(self)@, node_id@, incarnation, now),
            protocol_wf(final(self)@),
    {
        if str_eq(node_id, self.local_node_id.as_str()) {
            let new_incarnation = self.increment_incarnation();
            let update = MembershipUpdate::new_at(self.local_node_id.clone(), NodeState::Alive, new_incarnation, now)
                .with_address(self.local_address.clone());
            self.queue_update(update);
            return;
        }
        if let Some(i) = self.find_member(node_id) {
            let mut m = self.members[i].clone();
            m.update_state_at(NodeState::Suspect, incarnation, now);
            self.replace_member(i, m);
        }
        self.stats.updates_received = wrapping_increase(self.stats.updates_received, 1);
    }

    /// Processes a suspicion about node `node_id` at the current time.
    pub fn process_suspect(&mut self, node_id: &str, incarnation: u64)
        requires
            protocol_wf(old(self)@),
            node_id@ == old(self)@.local_node_id ==> old(self)@.local_incarnation < u64::MAX,
        ensures
            exists|now: Instant| final(self)@ == after_suspicion(old(self)@, node_id@, incarnation, now),
            protocol_wf(final(self)@),
    {
        self.process_suspect_at(node_id, incarnation, Instant::now())
    }

    /// Applies a departure announcement at `now`.
    fn process_leave_at(&mut self, node_id: &str, incarnation: u64, now: Instant)
        requires
            protocol_wf(old(self)@),
        ensures
            final(self)@ == after_leave(old(self)@, node_id@, incarnation, now),
            protocol_wf(final(self)@),
    {
        if let Some(i) = self.find_member(node_id) {
            let mut m = self.members[i].clone();
            m.update_state_at(NodeState::Left, incarnation, now);
            self.replace_member(i, m);
            self.stats.leaves = wrapping_increase(self.stats.leaves, 1);
        }
    }

    /// Applies received membership updates in order, at `now`.
    pub fn apply_updates_at(&mut self, updates: Vec<MembershipUpdate>, now: Instant)
        requires
            protocol_wf(old(self)@),
            old(self)@.local_incarnation + suspicions_of(update_views(updates@), old(self)@.local_node_id) <= u64::MAX,
        ensures
            final(self)@ == apply_all(old(self)@, update_views(updates@), now),
            protocol_wf(final(self)@),
    {
        let ghost v0 = self@;
        let ghost us = update_views(updates@);
        let mut i: usize = 0;
        proof {
            assert(us.take(0) =~= Seq::<UpdateView>::empty());
        }
        while i < updates.len()
            invariant
                us == update_views(updates@),
                us.len() == updates.len(),
                i <= updates.len(),
                protocol_wf(self@),
                self@ == apply_all(v0, us.take(i as int), now),
                self@.local_node_id == v0.local_node_id,
                self@.local_incarnation == v0.local_incarnation + suspicions_of(us.take(i as int), v0.local_node_id),
                v0.local_incarnation + suspicions_of(us, v0.local_node_id) <= u64::MAX,
            decreases updates.len() - i,
        {
            let ghost before = self@;
            proof {
                assert(us.take(i + 1).drop_last() =~= us.take(i as int));
                assert(us.take(i + 1).last() == us[i as int]);
                lemma_suspicions_prefix(us, v0.local_node_id, i + 1);
            }
            let u = &updates[i];
            assert(u@ == us[i as int]);
            match u.state {
                NodeState::Alive => {
                    if let Some(addr) = &u.address {
                        self.process_alive_at(u.node_id.as_str(), u.incarnation, addr.as_str(), now);
                    }
                }
                NodeState::Suspect => {
                    self.process_suspect_at(u.node_id.as_str(), u.incarnation, now);
                }
                NodeState::Dead => {
                    self.declare_dead_at(u.node_id.as_str(), now);
                }
                NodeState::Left => {
                    self.process_leave_at(u.node_id.as_str(), u.incarnation, now);
                }
            }
            i = i + 1;
        }
        proof {
            assert(us.take(us.len() as int) =~= us);
        }
    }

    /// Applies received membership updates in order, at the current time.
    pub fn apply_updates(&mut self, updates: Vec<MembershipUpdate>)
        requires
            protocol_wf(old(self)@),
            old(self)@.local_incarnation + suspicions_of(update_views(updates@), old(self)@.local_node_id) <= u64::MAX,
        ensures
            exists|now: Instant| final(self)@ == apply_all(old(self)@, update_views(updates@), now),
            protocol_wf(final(self)@),
    {
        self.apply_updates_at(updates, Instant::now())
    }

    /// Appends a member whose node ID is not yet known.
    fn push_new_member(&mut self, m: SwimMember)
        requires
            protocol_wf(old(self)@),
            !has_member(old(self)@.members, m@.node_id),
        ensures
            final(self)@ == (ProtocolView { members: old(self)@.members.push(m@), ..old(self)@ }),
            protocol_wf(final(self)@),
    {
        let ghost v0 = self@;
        let ghost mv = m@;
        self.members.push(m);
        proof {
            assert(self@.members =~= v0.members.push(mv));
            assert forall|a: int, b: int| 0 <= a < self@.members.len() && 0 <= b < self@.members.len() && a != b
                implies self@.members[a].node_id != self@.members[b].node_id by {
                if a < v0.members.len() {
                    assert(self@.members[a] == v0.members[a]);
                }
                if b < v0.members.len() {
                    assert(self@.members[b] == v0.members[b]);
                }
            }
        }
    }

    /// Merges one member of a peer's state at `now`.
    fn merge_member_at(&mut self, remote: SwimMember, now: Instant)
        requires
            protocol_wf(old(self)@),
        ensures
            final(self)@ == merge_one(old(self)@, remote@, now),
            protocol_wf(final(self)@),
    {
        if str_eq(remote.node_id.as_str(), self.local_node_id.as_str()) {
            return;
        }
        match self.find_member(remote.node_id.as_str()) {
            Some(i) => {
                if remote.incarnation > self.members[i].incarnation {
                    self.replace_member(i, remote);
                } else if remote.incarnation == self.members[i].incarnation
                    && remote.state.priority() > self.members[i].state.priority() {
                    let mut m = self.members[i].clone();
                    m.state = remote.state;
                    m.state_changed_at = now;
                    self.replace_member(i, m);
                }
            }
            None => {
                if remote.state.is_active() {
                    self.push_new_member(remote);
                }
            }
        }
    }

    /// Merges a peer's full membership state (anti-entropy) at `now`.
    pub fn merge_full_state_at(&mut self, remote_state: Vec<SwimMember>, now: Instant)
        requires
            protocol_wf(old(self)@),
        ensures
            final(self)@ == after_merge(old(self)@, member_views(remote_state@), now),
            protocol_wf(final(self)@),
            remote_ids_distinct(member_views(remote_state@)) ==> {
                let rs = member_views(remote_state@);
                &&& forall|j: int| 0 <= j < rs.len() && rs[j].node_id != old(self)@.local_node_id
                    ==> lookup(final(self)@, #[trigger] rs[j].node_id) == merged_entry(lookup(old(self)@, rs[j].node_id), rs[j], now)
                &&& forall|id: Seq<char>| (id == old(self)@.local_node_id || not_in_remote(rs, id))
                    ==> #[trigger] lookup(final(self)@, id) == lookup(old(self)@, id)
                &&& final(self)@.stats.anti_entropy_syncs == wrap_add(old(self)@.stats.anti_entropy_syncs, 1)
            },
    {
        let ghost v0 = self@;
        let ghost rs = member_views(remote_state@);
        let mut i: usize = 0;
        proof {
            assert(rs.take(0) =~= Seq::<MemberView>::empty());
        }
        while i < remote_state.len()
            invariant
                rs == member_views(remote_state@),
                rs.len() == remote_state.len(),
                i <= remote_state.len(),
                protocol_wf(self@),
                self@ == merge_all(v0, rs.take(i as int), now),
            decreases remote_state.len() - i,
        {
            proof {
                assert(rs.take(i + 1).drop_last() =~= rs.take(i as int));
                assert(rs.take(i + 1).last() == rs[i as int]);
            }
            let r = remote_state[i].clone();
            self.merge_member_at(r, now);
            i = i + 1;
        }
        proof {
            assert(rs.take(rs.len() as int) =~= rs);
        }
        self.stats.anti_entropy_syncs = wrapping_increase(self.stats.anti_entropy_syncs, 1);
        proof {
            if remote_ids_distinct(rs) {
                lemma_merge_member_by_member(v0, rs, now);
            }
        }
    }

    /// Merges a peer's full membership state at the current time.
    pub fn merge_full_state(&mut self, remote_state: Vec<SwimMember>)
        requires
            protocol_wf(old(self)@),
        ensures
            protocol_wf(final(self)@),
            exists|now: Instant| #![trigger after_merge(old(self)@, member_views(remote_state@), now)] {
                let rs = member_views(remote_state@);
                &&& final(self)@ == after_merge(old(self)@, rs, now)
                &&& remote_ids_distinct(rs) ==> {
                    &&& forall|j: int| 0 <= j < rs.len() && rs[j].node_id != old(self)@.local_node_id
                        ==> lookup(final(self)@, #[trigger] rs[j].node_id) == merged_entry(lookup(old(self)@, rs[j].node_id), rs[j], now)
                    &&& forall|id: Seq<char>| (id == old(self)@.local_node_id || not_in_remote(rs, id))
                        ==> #[trigger] lookup(final(self)@, id) == lookup(old(self)@, id)
                    &&& final(self)@.stats.anti_entropy_syncs == wrap_add(old(self)@.stats.anti_entropy_syncs, 1)
                }
            },
    {
        let now = Instant::now();
        self.merge_full_state_at(remote_state, now);
    }

    /// All known members, for anti-entropy sync.
    pub fn get_full_state(&self) -> (r: Vec<SwimMember>)
        ensures
            member_views(r@) == self@.members,
    {
        let mut out: Vec<SwimMember> = Vec::new();
        let mut i: usize = 0;
        while i < self.members.len()
            invariant
                i <= self.members.len(),
                member_views(out@) == self@.members.take(i as int),
            decreases self.members.len() - i,
        {
            let ghost before = out@;
            out.push(self.members[i].clone());
            proof {
                assert(member_views(out@) =~= member_views(before).push(self@.members[i as int]));
                assert(self@.members.take(i + 1) =~= self@.members.take(i as int).push(self@.members[i as int]));
            }
            i = i + 1;
        }
        assert(self@.members.take(self.members.len() as int) =~= self@.members);
        out
    }

    /// Removes members dead or gone for longer than `timeout`, at `now`.
    pub fn reap_dead_nodes_at(&mut self, timeout: Duration, now: Instant)
        requires
            protocol_wf(old(self)@),
        ensures
            final(self)@ == after_reap(old(self)@, timeout, now),
            protocol_wf(final(self)@),
    {
        let ghost v0 = self@;
        let ghost ms = self@.members;
        let ghost keep = reap_keeps(timeout, now);
        let before = self.members.len();
        let mut kept: Vec<SwimMember> = Vec::new();
        let mut i: usize = 0;
        proof {
            reveal(Seq::filter);
            assert(ms.take(0) =~= Seq::<MemberView>::empty());
        }
        while i < self.members.len()
            invariant
                self@ == v0,
                ms == v0.members,
                keep == reap_keeps(timeout, now),
                i <= self.members.len(),
                member_views(kept@) == ms.take(i as int).filter(keep),
            decreases self.members.len() - i,
        {
            proof {
                lemma_filter_take_step(ms, keep, i as int);
            }
            let ghost before_kept = kept@;
            assert(ms[i as int] == self.members[i as int]@);
            assert(keep(ms[i as int]) == !reapable(ms[i as int], timeout, now));
            if !self.members[i].should_reap_at(timeout, now) {
                kept.push(self.members[i].clone());
                proof {
                    assert(member_views(kept@) =~= member_views(before_kept).push(ms[i as int]));
                }
            }
            i = i + 1;
        }
        proof {
            assert(ms.take(ms.len() as int) =~= ms);
            ms.lemma_filter_len(keep);
            lemma_filter_unique_by(ms, keep, |m: MemberView| m.node_id);
        }
        self.members = kept;
        let reaped = before - self.members.len();
        if reaped > 0 {
            self.stats.reaps = wrapping_increase(self.stats.reaps, reaped as u64);
        }
    }

    /// Removes members dead or gone for longer than the configured reap
    /// timeout, by the current clock.
    pub fn reap_dead_nodes(&mut self)
        requires
            protocol_wf(old(self)@),
        ensures
            exists|now: Instant| final(self)@ == after_reap(old(self)@, old(self)@.config.dead_node_reap_timeout, now),
            protocol_wf(final(self)@),
    {
        let timeout = self.config.dead_node_reap_timeout;
        self.reap_dead_nodes_at(timeout, Instant::now())
    }

    /// Declares dead, at `now`, every suspect whose suspicion is older than
    /// `suspicion_timeout`.
    pub fn check_suspect_timeouts_at(&mut self, suspicion_timeout: Duration, now: Instant)
        requires
            protocol_wf(old(self)@),
        ensures
            final(self)@ == after_timeouts(old(self)@, suspicion_timeout, now),
            protocol_wf(final(self)@),
    {
        let ghost v0 = self@;
        let ghost ms = self@.members;
        let ghost pred = timed_out(suspicion_timeout, now);
        let mut ids: Vec<String> = Vec::new();
        let mut i: usize = 0;
        proof {
            reveal(Seq::filter);
            assert(ms.take(0) =~= Seq::<MemberView>::empty());
            assert(ids@.map_values(|s: String| s@) =~= Seq::<Seq<char>>::empty());
        }
        while i < self.members.len()
            invariant
                self@ == v0,
                ms == v0.members,
                pred == timed_out(suspicion_timeout, now),
                i <= self.members.len(),
                ids@.map_values(|s: String| s@) == ids_of(ms.take(i as int).filter(pred)),
            decreases self.members.len() - i,
        {
            proof {
                lemma_filter_take_step(ms, pred, i as int);
            }
            let ghost before_ids = ids@;
            assert(ms[i as int] == self.members[i as int]@);
            assert(pred(ms[i as int]) == (ms[i as int].state == NodeState::Suspect
                && crate::time::longer_than(ms[i as int].state_changed_at, now, suspicion_timeout)));
            if self.members[i].state == NodeState::Suspect
                && self.members[i].state_changed_at.elapsed_exceeds(now, suspicion_timeout) {
                ids.push(self.members[i].node_id.clone());
                proof {
                    assert(ids@.map_values(|s: String| s@) =~= before_ids.map_values(|s: String| s@).push(ms[i as int].node_id));
                    assert(ids_of(ms.take(i as int).filter(pred).push(ms[i as int])) =~= ids_of(ms.take(i as int).filter(pred)).push(ms[i as int].node_id));
                }
            }
            i = i + 1;
        }
        proof {
            assert(ms.take(ms.len() as int) =~= ms);
        }
        let ghost all_ids = ids@.map_values(|s: String| s@);
        let mut j: usize = 0;
        proof {
            assert(all_ids.take(0) =~= Seq::<Seq<char>>::empty());
        }
        while j < ids.len()
            invariant
                all_ids == ids@.map_values(|s: String| s@),
                all_ids.len() == ids.len(),
                j <= ids.len(),
                protocol_wf(self@),
                self@ == declare_all_dead(v0, all_ids.take(j as int), now),
            decreases ids.len() - j,
        {
            proof {
                assert(all_ids.take(j + 1).drop_last() =~= all_ids.take(j as int));
                assert(all_ids.take(j + 1).last() == all_ids[j as int]);
            }
            self.declare_dead_at(ids[j].as_str(), now);
            j = j + 1;
        }
        proof {
            assert(all_ids.take(all_ids.len() as int) =~= all_ids);
        }
    }

    /// Declares dead every suspect whose suspicion is older than
    /// `suspicion_timeout`, by the current clock.
    pub fn check_suspect_timeouts(&mut self, suspicion_timeout: Duration)
        requires
            protocol_wf(old(self)@),
        ensures
            exists|now: Instant| final(self)@ == after_timeouts(old(self)@, suspicion_timeout, now),
            protocol_wf(final(self)@),
    {
        self.check_suspect_timeouts_at(suspicion_timeout, Instant::now())
    }

    /// Copies of the members that satisfy `pick` (a selection among
    /// `Alive`-only or active, optionally excluding the local node and one more ID).
    fn members_where(&self, alive_only: bool, skip_local: bool, exclude: Option<&str>) -> (r: Vec<SwimMember>)
        ensures
            member_views(r@) == self@.members.filter(selection(alive_only, skip_local, self@.local_node_id, excluded_id(exclude))),
    {
        let ghost ms = self@.members;
        let ghost pick = selection(alive_only, skip_local, self@.local_node_id, excluded_id(exclude));
        let mut out: Vec<SwimMember> = Vec::new();
        let mut i: usize = 0;
        proof {
            reveal(Seq::filter);
            assert(ms.take(0) =~= Seq::<MemberView>::empty());
        }
        while i < self.members.len()
            invariant
                ms == self@.members,
                pick == selection(alive_only, skip_local, self@.local_node_id, excluded_id(exclude)),
                i <= self.members.len(),
                member_views(out@) == ms.take(i as int).filter(pick),
            decreases self.members.len() - i,
        {
            proof {
                lemma_filter_take_step(ms, pick, i as int);
            }
            let m = &self.members[i];
            let state_ok = if alive_only { m.state == NodeState::Alive } else { m.state.is_active() };
            let local_ok = !skip_local || !str_eq(m.node_id.as_str(), self.local_node_id.as_str());
            let exclude_ok = match exclude {
                Some(e) => !str_eq(m.node_id.as_str(), e),
                None => true,
            };
            let ghost before = out@;
            assert(ms[i as int] == self.members[i as int]@);
            assert(pick(ms[i as int]) == (state_ok && local_ok && exclude_ok));
            if state_ok && local_ok && exclude_ok {
                out.push(m.clone());
                proof {
                    assert(member_views(out@) =~= member_views(before).push(ms[i as int]));
                }
            }
            i = i + 1;
        }
        proof {
            assert(ms.take(ms.len() as int) =~= ms);
        }
        out
    }

    /// Copies of all alive members.
    pub fn alive_members(&self) -> (r: Vec<SwimMember>)
        ensures
            member_views(r@) == self@.members.filter(in_state(NodeState::Alive)),
    {
        let r = self.members_where(true, false, None);
        proof {
            assert(selection(true, false, self@.local_node_id, None) =~= in_state(NodeState::Alive));
        }
        r
    }

    /// Copies of all active (alive or suspect) members.
    pub fn active_members(&self) -> (r: Vec<SwimMember>)
        ensures
            member_views(r@) == self@.members.filter(is_active_member()),
    {
        let r = self.members_where(false, false, None);
        proof {
            assert(selection(false, false, self@.local_node_id, None) =~= is_active_member());
        }
        r
    }

    /// Counts the members in each state.
    pub fn member_counts(&self) -> (c: MemberCounts)
        ensures
            c.alive == count_in_state(self@.members, NodeState::Alive),
            c.suspect == count_in_state(self@.members, NodeState::Suspect),
            c.dead == count_in_state(self@.members, NodeState::Dead),
            c.left == count_in_state(self@.members, NodeState::Left),
            c.alive + c.suspect + c.dead + c.left == self@.members.len(),
    {
        let ghost ms = self@.members;
        let mut c = MemberCounts { alive: 0, suspect: 0, dead: 0, left: 0 };
        let mut i: usize = 0;
        proof {
            reveal(Seq::filter);
            assert(ms.take(0) =~= Seq::<MemberView>::empty());
        }
        while i < self.members.len()
            invariant
                ms == self@.members,
                i <= self.members.len(),
                c.alive == count_in_state(ms.take(i as int), NodeState::Alive),
                c.suspect == count_in_state(ms.take(i as int), NodeState::Suspect),
                c.dead == count_in_state(ms.take(i as int), NodeState::Dead),
                c.left == count_in_state(ms.take(i as int), NodeState::Left),
                c.alive + c.suspect + c.dead + c.left == i,
            decreases self.members.len() - i,
        {
            proof {
                lemma_filter_take_step(ms, in_state(NodeState::Alive), i as int);
                lemma_filter_take_step(ms, in_state(NodeState::Suspect), i as int);
                lemma_filter_take_step(ms, in_state(NodeState::Dead), i as int);
                lemma_filter_take_step(ms, in_state(NodeState::Left), i as int);
            }
            match self.members[i].state {
                NodeState::Alive => c.alive = c.alive + 1,
                NodeState::Suspect => c.suspect = c.suspect + 1,
                NodeState::Dead => c.dead = c.dead + 1,
                NodeState::Left => c.left = c.left + 1,
            }
            i = i + 1;
        }
        proof {
            assert(ms.take(ms.len() as int) =~= ms);
        }
        c
    }

    /// The cluster size: active members plus the local node.
    pub fn cluster_size(&self) -> (n: usize)
        requires
            self@.members.len() < usize::MAX,
        ensures
            n == cluster_size_of(self@),
    {
        let active = self.active_members();
        proof {
            self@.members.lemma_filter_len(is_active_member());
        }
        active.len() + 1
    }

    /// The health report: running flag, incarnation, member counts, counters.
    pub fn health_status(&self) -> (h: SwimHealthStatus)
        ensures
            h == health_of(self@),
            h.total_members == h.alive_members + h.suspect_members + h.dead_members,
            h.total_members + count_in_state(self@.members, NodeState::Left) == self@.members.len(),
            h.alive_members == self@.members.filter(|m: MemberView| m.state == NodeState::Alive).len(),
            h.suspect_members == self@.members.filter(|m: MemberView| m.state == NodeState::Suspect).len(),
            h.dead_members == self@.members.filter(|m: MemberView| m.state == NodeState::Dead).len(),
    {
        let c = self.member_counts();
        let n = self.members.len();
        assert(self@.members.len() == n);
        proof {
            crate::swim_laws::lemma_health_counts(self@);
        }
        SwimHealthStatus {
            is_running: self.running,
            local_incarnation: self.local_incarnation,
            total_members: c.alive + c.suspect + c.dead,
            alive_members: c.alive,
            suspect_members: c.suspect,
            dead_members: c.dead,
            stats: self.stats.snapshot(),
        }
    }

    /// The protocol is running.
    pub fn is_running(&self) -> (b: bool)
        ensures
            b == self@.running,
    {
        self.running
    }

    /// Marks the protocol as running.
    pub fn start(&mut self)
        ensures
            final(self)@ == (ProtocolView { running: true, ..old(self)@ }),
    {
        self.running = true;
    }

    /// Marks the protocol as stopped.
    pub fn stop(&mut self)
        ensures
            final(self)@ == (ProtocolView { running: false, ..old(self)@ }),
    {
        self.running = false;
    }

    /// Records a completed protocol round (its duration only feeds metrics).
    pub fn record_round_completed(&mut self, duration: Duration)
        ensures
            final(self)@ == (ProtocolView {
                stats: SwimStatsSnapshot { rounds_completed: wrap_add(old(self)@.stats.rounds_completed, 1), ..old(self)@.stats },
                ..old(self)@
            }),
    {
        self.stats.rounds_completed = wrapping_increase(self.stats.rounds_completed, 1);
    }

    /// Records the result of a direct ping (its latency only feeds metrics).
    pub fn record_direct_ping(&mut self, success: bool, latency: Duration)
        ensures
            final(self)@ == (ProtocolView {
                stats: if success {
                    SwimStatsSnapshot {
                        direct_pings: wrap_add(old(self)@.stats.direct_pings, 1),
                        direct_ping_success: wrap_add(old(self)@.stats.direct_ping_success, 1),
                        ..old(self)@.stats
                    }
                } else {
                    SwimStatsSnapshot {
                        direct_pings: wrap_add(old(self)@.stats.direct_pings, 1),
                        direct_ping_failed: wrap_add(old(self)@.stats.direct_ping_failed, 1),
                        ..old(self)@.stats
                    }
                },
                ..old(self)@
            }),
    {
        self.stats.direct_pings = wrapping_increase(self.stats.direct_pings, 1);
        if success {
            self.stats.direct_ping_success = wrapping_increase(self.stats.direct_ping_success, 1);
        } else {
            self.stats.direct_ping_failed = wrapping_increase(self.stats.direct_ping_failed, 1);
        }
    }

    /// Records the result of an indirect ping.
    pub fn record_indirect_ping(&mut self, success: bool)
        ensures
            final(self)@ == (ProtocolView {
                stats: if success {
                    SwimStatsSnapshot {
                        indirect_pings: wrap_add(old(self)@.stats.indirect_pings, 1),
                        indirect_ping_success: wrap_add(old(self)@.stats.indirect_ping_success, 1),
                        ..old(self)@.stats
                    }
                } else {
                    SwimStatsSnapshot {
                        indirect_pings: wrap_add(old(self)@.stats.indirect_pings, 1),
                        indirect_ping_failed: wrap_add(old(self)@.stats.indirect_ping_failed, 1),
                        ..old(self)@.stats
                    }
                },
                ..old(self)@
            }),
    {
        self.stats.indirect_pings = wrapping_increase(self.stats.indirect_pings, 1);
        if success {
            self.stats.indirect_ping_success = wrapping_increase(self.stats.indirect_ping_success, 1);
        } else {
            self.stats.indirect_ping_failed = wrapping_increase(self.stats.indirect_ping_failed, 1);
        }
    }

    /// The queued updates about node `node_id` that are among `picked`.
    fn picked_contains(picked: &Vec<MembershipUpdate>, node_id: &str) -> (b: bool)
        ensures
            b == is_picked(update_views(picked@), node_id@),
    {
        let ghost pv = update_views(picked@);
        let mut j: usize = 0;
        while j < picked.len()
            invariant
                pv == update_views(picked@),
                pv.len() == picked.len(),
                j <= picked.len(),
                forall|a: int| 0 <= a < j ==> pv[a].node_id != node_id@,
            decreases picked.len() - j,
        {
            if str_eq(picked[j].node_id.as_str(), node_id) {
                assert(pv[j as int].node_id == node_id@);
                return true;
            }
            j = j + 1;
        }
        false
    }

    /// Takes the updates to piggyback on an outgoing message, with broadcast
    /// limit `broadcast_limit`: at most `max_piggyback_updates` of the queued
    /// updates still under the limit, in queue order.  Each taken update counts
    /// one more broadcast; updates that reach the limit leave the queue.
    #[verifier::spinoff_prover]
    #[verifier::rlimit(40)]
    pub fn get_piggyback_updates_within(&mut self, broadcast_limit: u32) -> (r: Vec<MembershipUpdate>)
        requires
            protocol_wf(old(self)@),
        ensures
            (final(self)@, update_views(r@)) == after_broadcast(old(self)@, broadcast_limit),
            protocol_wf(final(self)@),
            r@.len() <= old(self)@.config.max_piggyback_updates,
    {
        let ghost v0 = self@;
        let ghost q = v0.queue;
        let k = self.config.max_piggyback_updates;
        let mut picked: Vec<MembershipUpdate> = Vec::new();
        let mut i: usize = 0;
        proof {
            assert(q.take(0) =~= Seq::<UpdateView>::empty());
            assert(update_views(picked@) =~= Seq::<UpdateView>::empty());
        }
        while i < self.updates_queue.len()
            invariant
                self@ == v0,
                q == v0.queue,
                k == v0.config.max_piggyback_updates,
                i <= self.updates_queue.len(),
                update_views(picked@) == picked_updates(q.take(i as int), broadcast_limit, k as nat),
                picked@.len() <= k,
            decreases self.updates_queue.len() - i,
        {
            proof {
                assert(q.take(i + 1).drop_last() =~= q.take(i as int));
                assert(q.take(i + 1).last() == q[i as int]);
                assert(q[i as int] == self.updates_queue[i as int]@);
            }
            let ghost before = picked@;
            if picked.len() < k && !self.updates_queue[i].should_drop(broadcast_limit) {
                picked.push(self.updates_queue[i].clone());
                proof {
                    assert(update_views(picked@) =~= update_views(before).push(q[i as int]));
                }
            }
            i = i + 1;
        }
        proof {
            assert(q.take(q.len() as int) =~= q);
        }
        let ghost p = update_views(picked@);
        proof {
            lemma_picked_from_queue(q, broadcast_limit, k as nat);
        }
        let mut rebuilt: Vec<MembershipUpdate> = Vec::new();
        let mut counter = self.stats.updates_broadcast;
        let mut j: usize = 0;
        proof {
            reveal(Seq::filter);
            assert(q.take(0) =~= Seq::<UpdateView>::empty());
            assert(update_views(rebuilt@) =~= Seq::<UpdateView>::empty());
        }
        while j < self.updates_queue.len()
            invariant
                self@ == v0,
                q == v0.queue,
                updates_unique(q),
                p == update_views(picked@),
                p == picked_updates(q, broadcast_limit, k as nat),
                forall|a: int| 0 <= a < p.len() ==> exists|b: int| 0 <= b < q.len() && q[b] == #[trigger] p[a] && q[b].broadcast_count < broadcast_limit,
                j <= self.updates_queue.len(),
                update_views(rebuilt@) == q.take(j as int).map_values(bumped(p)).filter(below_limit(broadcast_limit)),
                counter == wrap_add(v0.stats.updates_broadcast, q.take(j as int).filter(picked_filter(p)).len() as u64),
                q.take(j as int).filter(picked_filter(p)).len() <= j,
            decreases self.updates_queue.len() - j,
        {
            proof {
                lemma_filter_take_step(q, picked_filter(p), j as int);
                assert(q.take(j + 1).map_values(bumped(p)) =~= q.take(j as int).map_values(bumped(p)).push(bumped(p)(q[j as int])));
                lemma_filter_push_step(q.take(j as int).map_values(bumped(p)), below_limit(broadcast_limit), bumped(p)(q[j as int]));
                assert(q[j as int] == self.updates_queue[j as int]@);
            }
            let mut u = self.updates_queue[j].clone();
            let ghost uv = u@;
            let hit = Self::picked_contains(&picked, u.node_id.as_str());
            if hit {
                proof {
                    let a = choose|a: int| 0 <= a < p.len() && p[a].node_id == uv.node_id;
                    let b = choose|b: int| 0 <= b < q.len() && q[b] == p[a] && q[b].broadcast_count < broadcast_limit;
                    assert(q[b].node_id == q[j as int].node_id);
                    assert(b == j);
                }
                u.broadcast_count = u.broadcast_count + 1;
                counter = wrapping_increase(counter, 1);
                proof {
                    lemma_wrap_add_step(v0.stats.updates_broadcast, q.take(j as int).filter(picked_filter(p)).len() as u64);
                }
            }
            assert(u@ == bumped(p)(q[j as int]));
            let ghost before = rebuilt@;
            if u.broadcast_count < broadcast_limit {
                rebuilt.push(u);
                proof {
                    assert(update_views(rebuilt@) =~= update_views(before).push(bumped(p)(q[j as int])));
                }
            }
            j = j + 1;
        }
        proof {
            assert(q.take(q.len() as int) =~= q);
            let bq = q.map_values(bumped(p));
            assert(unique_by(bq, |u: UpdateView| u.node_id)) by {
                assert forall|a: int, b: int| 0 <= a < bq.len() && 0 <= b < bq.len() && a != b
                    implies bq[a].node_id != bq[b].node_id by {
                    assert(bq[a].node_id == q[a].node_id);
                    assert(bq[b].node_id == q[b].node_id);
                }
            }
            lemma_filter_unique_by(bq, below_limit(broadcast_limit), |u: UpdateView| u.node_id);
            bq.lemma_filter_len(below_limit(broadcast_limit));
        }
        self.updates_queue = rebuilt;
        self.stats.updates_broadcast = counter;
        picked
    }

    /// Selects the next member to probe: round-robin over the active members
    /// other than the local node.
    pub fn select_probe_target(&mut self) -> (r: Option<SwimMember>)
        requires
            protocol_wf(old(self)@),
        ensures
            final(self)@ == after_probe_selection(old(self)@).0,
            match r {
                Some(m) => after_probe_selection(old(self)@).1 == Some(m@),
                None => after_probe_selection(old(self)@).1.is_none(),
            },
            protocol_wf(final(self)@),
    {
        let active = self.members_where(false, true, None);
        if active.len() == 0 {
            return None;
        }
        let seq = self.probe_sequence;
        self.probe_sequence = wrapping_increase(self.probe_sequence, 1);
        let idx = (seq as usize) % active.len();
        Some(active[idx].clone())
    }

    /// The members of `ms` that are not marked thin, in order.
    fn without_thin(ms: Vec<SwimMember>) -> (r: Vec<SwimMember>)
        ensures
            member_views(r@) == member_views(ms@).filter(not_thin()),
    {
        let ghost s = member_views(ms@);
        let mut out: Vec<SwimMember> = Vec::new();
        let mut i: usize = 0;
        proof {
            reveal(Seq::filter);
            assert(s.take(0) =~= Seq::<MemberView>::empty());
        }
        while i < ms.len()
            invariant
                s == member_views(ms@),
                i <= ms.len(),
                member_views(out@) == s.take(i as int).filter(not_thin()),
            decreases ms.len() - i,
        {
            proof {
                lemma_filter_take_step(s, not_thin(), i as int);
            }
            let m = &ms[i];
            let thin = match label_lookup(&m.metadata, "node_type") {
                Some(t) => str_eq(t.as_str(), "thin"),
                None => false,
            };
            let ghost before = out@;
            assert(s[i as int] == ms[i as int]@);
            if !thin {
                out.push(m.clone());
                proof {
                    assert(member_views(out@) =~= member_views(before).push(s[i as int]));
                }
            }
            i = i + 1;
        }
        proof {
            assert(s.take(s.len() as int) =~= s);
        }
        out
    }

    /// Selects up to `indirect_ping_nodes` random alive members, other than
    /// the local node and `exclude_node_id` and not marked thin, as
    /// intermediaries for an indirect ping.
    pub fn select_indirect_targets(&self, exclude_node_id: &str) -> (r: Vec<SwimMember>)
        requires
            protocol_wf(self@),
        ensures
            r@.len() == min_usize(self@.config.indirect_ping_nodes, indirect_candidates(self@, exclude_node_id@).len()),
            forall|j: int| 0 <= j < r@.len() ==> indirect_candidates(self@, exclude_node_id@).contains(#[trigger] r@[j]@),
            forall|a: int, b: int| 0 <= a < r@.len() && 0 <= b < r@.len() && a != b ==> r@[a]@.node_id != r@[b]@.node_id,
            forall|j: int| 0 <= j < r@.len() ==> !is_thin(#[trigger] r@[j]@),
    {
        let alive = self.members_where(true, true, Some(exclude_node_id));
        let candidates = SwimProtocol::without_thin(alive);
        let ghost cv = member_views(candidates@);
        proof {
            let sel = self@.members.filter(selection(true, true, self@.local_node_id, Some(exclude_node_id@)));
            lemma_filter_unique_by(self@.members, selection(true, true, self@.local_node_id, Some(exclude_node_id@)), |m: MemberView| m.node_id);
            lemma_filter_unique_by(sel, not_thin(), |m: MemberView| m.node_id);
        }
        let n = candidates.len();
        let mut order: Vec<usize> = Vec::new();
        let mut i: usize = 0;
        while i < n
            invariant
                i <= n,
                order@.len() == i,
                forall|a: int| 0 <= a < i ==> order@[a] == a,
            decreases n - i,
        {
            order.push(i);
            i = i + 1;
        }
        let ghost before = order@;
        proof {
            assert(before.no_duplicates());
            before.lemma_multiset_has_no_duplicates();
        }
        shuffle_positions(&mut order);
        proof {
            broadcast use vstd::seq_lib::group_to_multiset_ensures;
            order@.lemma_multiset_has_no_duplicates_conv();
            assert(order@.len() == order@.to_multiset().len());
            assert(before.len() == before.to_multiset().len());
            assert(order@.len() == n);
            assert forall|a: int| 0 <= a < order@.len() implies order@[a] < n by {
                assert(order@.contains(order@[a]));
                assert(order@.to_multiset().count(order@[a]) > 0);
                assert(before.contains(order@[a]));
            }
        }
        let take = if self.config.indirect_ping_nodes < n { self.config.indirect_ping_nodes } else { n };
        let mut out: Vec<SwimMember> = Vec::new();
        let mut j: usize = 0;
        while j < take
            invariant
                cv == member_views(candidates@),
                cv == indirect_candidates(self@, exclude_node_id@),
                unique_by(cv, |m: MemberView| m.node_id),
                n == candidates.len(),
                take <= n,
                order@.len() == n,
                order@.no_duplicates(),
                forall|a: int| 0 <= a < order@.len() ==> order@[a] < n,
                j <= take,
                out@.len() == j,
                forall|a: int| 0 <= a < j ==> out@[a]@ == cv[order@[a] as int],
            decreases take - j,
        {
            out.push(candidates[order[j]].clone());
            j = j + 1;
        }
        proof {
            assert forall|a: int| 0 <= a < out@.len() implies cv.contains(#[trigger] out@[a]@) by {
                assert(cv[order@[a] as int] == out@[a]@);
            }
            let sel = self@.members.filter(selection(true, true, self@.local_node_id, Some(exclude_node_id@)));
            assert forall|a: int| 0 <= a < out@.len() implies !is_thin(#[trigger] out@[a]@) by {
                assert(cv[order@[a] as int] == out@[a]@);
                sel.lemma_filter_pred(not_thin(), order@[a] as int);
            }
            assert forall|a: int, b: int| 0 <= a < out@.len() && 0 <= b < out@.len() && a != b
                implies out@[a]@.node_id != out@[b]@.node_id by {
                assert(order@[a] != order@[b]);
            }
        }
        out
    }
}


/// The smaller of two lengths.
pub open spec fn min_usize(a: usize, b: nat) -> nat {
    if a <= b { a as nat } else { b }
}

/// Shuffles the positions in place with `rand::seq::SliceRandom::shuffle` on
/// the thread-local generator (`rand::thread_rng`).  The crate documents the
/// call as an in-place shuffle of the slice, so the result is a permutation:
/// the same multiset of positions; which permutation is left to chance.
#[verifier::external_body]
fn shuffle_positions(v: &mut Vec<usize>)
    ensures
        final(v)@.to_multiset() == old(v)@.to_multiset(),
{
    v.shuffle(&mut rand::thread_rng());
}

/// Adding one after adding `a` adds `a + 1`, on wrapping counters.
pub proof fn lemma_wrap_add_step(x: u64, a: u64)
    requires
        a < u64::MAX,
    ensures
        wrap_add(wrap_add(x, a), 1) == wrap_add(x, (a + 1) as u64),
{
}

/// Filtering a sequence with one more element at the end.
pub proof fn lemma_filter_push_step<A>(s: Seq<A>, p: spec_fn(A) -> bool, x: A)
    ensures
        s.push(x).filter(p) == if p(x) { s.filter(p).push(x) } else { s.filter(p) },
{
    reveal(Seq::filter);
    assert(s.push(x).drop_last() =~= s);
}

/// Every picked update is a queued update under the limit; at most `k` are picked.
pub proof fn lemma_picked_from_queue(q: Seq<UpdateView>, limit: u32, k: nat)
    ensures
        picked_updates(q, limit, k).len() <= k,
        forall|a: int| 0 <= a < picked_updates(q, limit, k).len() ==> exists|b: int|
            0 <= b < q.len() && q[b] == #[trigger] picked_updates(q, limit, k)[a] && q[b].broadcast_count < limit,
    decreases q.len(),
{
    if q.len() > 0 {
        let rest = q.drop_last();
        lemma_picked_from_queue(rest, limit, k);
        let p = picked_updates(q, limit, k);
        let pr = picked_updates(rest, limit, k);
        assert forall|a: int| 0 <= a < p.len() implies exists|b: int|
            0 <= b < q.len() && q[b] == #[trigger] p[a] && q[b].broadcast_count < limit by {
            if a < pr.len() {
                assert(p[a] == pr[a]);
                let b = choose|b: int| 0 <= b < rest.len() && rest[b] == pr[a] && rest[b].broadcast_count < limit;
                assert(q[b] == rest[b]);
            } else {
                assert(p[a] == q[q.len() - 1]);
            }
        }
    }
}

/// One more element of a prefix, filtered.
pub proof fn lemma_filter_take_step<A>(s: Seq<A>, p: spec_fn(A) -> bool, i: int)
    requires
        0 <= i < s.len(),
    ensures
        s.take(i + 1).filter(p) == if p(s[i]) { s.take(i).filter(p).push(s[i]) } else { s.take(i).filter(p) },
{
    reveal(Seq::filter);
    assert(s.take(i + 1).drop_last() =~= s.take(i));
    assert(s.take(i + 1).last() == s[i]);
}

/// Filtering keeps keys unique.
pub proof fn lemma_filter_unique_by<A>(s: Seq<A>, p: spec_fn(A) -> bool, key: spec_fn(A) -> Seq<char>)
    requires
        unique_by(s, key),
    ensures
        unique_by(s.filter(p), key),
    decreases s.len(),
{
    reveal(Seq::filter);
    if s.len() > 0 {
        let rest = s.drop_last();
        assert(unique_by(rest, key)) by {
            assert forall|i: int, j: int| 0 <= i < rest.len() && 0 <= j < rest.len() && i != j
                implies key(rest[i]) != key(rest[j]) by {
                assert(rest[i] == s[i]);
                assert(rest[j] == s[j]);
            }
        }
        lemma_filter_unique_by(rest, p, key);
        let f = rest.filter(p);
        if p(s.last()) {
            assert forall|a: int, b: int| 0 <= a < f.len() + 1 && 0 <= b < f.len() + 1 && a != b
                implies key(f.push(s.last())[a]) != key(f.push(s.last())[b]) by {
                if a < f.len() && b < f.len() {
                    assert(f.push(s.last())[a] == f[a]);
                    assert(f.push(s.last())[b] == f[b]);
                } else {
                    let x = if a < f.len() { a } else { b };
                    assert(f.push(s.last())[x] == f[x]);
                    assert(f.contains(f[x]));
                    rest.lemma_filter_contains_rev(p, f[x]);
                    let k = choose|k: int| 0 <= k < rest.len() && rest[k] == f[x];
                    assert(s[k] == rest[k]);
                    assert(key(s[k]) != key(s[s.len() - 1]));
                }
            }
        }
    }
}

/// Suspicions in a prefix: the count grows by one exactly at a suspicion of `id`.
proof fn lemma_suspicions_prefix(us: Seq<UpdateView>, id: Seq<char>, n: int)
    requires
        0 < n <= us.len(),
    ensures
        suspicions_of(us.take(n), id) == suspicions_of(us.take(n - 1), id)
            + if us[n - 1].state == NodeState::Suspect && us[n - 1].node_id == id { 1nat } else { 0nat },
        suspicions_of(us.take(n), id) <= suspicions_of(us, id),
    decreases us.len() - n,
{
    assert(us.take(n).drop_last() =~= us.take(n - 1));
    if n < us.len() {
        lemma_suspicions_prefix(us, id, n + 1);
    } else {
        assert(us.take(n) =~= us);
    }
}

} // verus!
