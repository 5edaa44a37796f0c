//! Laws of the SWIM membership rules.
//!
//! A member's `(incarnation, state)` pair is ordered by incarnation first and
//! severity second.  Gossip applies the maximum of the pairs it sees, so the
//! outcome does not depend on the order in which updates arrive, repeating an
//! update changes nothing, and no protocol operation other than reaping and
//! silent removal ever lowers what is known of a member.

use vstd::prelude::*;

use crate::swim::{MemberView, NodeState, SwimStatsSnapshot, active, member_after_update, rank, reapable, supersedes};
use crate::swim_protocol::{
    ProtocolView, after_merge, after_probe_selection, after_reap, after_suspicion, after_upsert,
    apply_all, apply_one, has_member, indirect_candidates, lookup, member_pos, members_unique,
    merge_all, merge_one, probe_candidates, protocol_wf, queue_capacity, reap_keeps,
    self_announcement, selection, after_broadcast, is_thin, not_thin, picked_updates, bumped, below_limit, wrap_add,
    after_mark_left, health_of, in_state,
};
use crate::time::Instant;

verus! {

// ============================================================================
// One member
// ============================================================================

/// The pair `(inc_a, st_a)` is at least `(inc_b, st_b)`.
pub open spec fn at_least(inc_a: u64, st_a: NodeState, inc_b: u64, st_b: NodeState) -> bool {
    !supersedes(inc_b, st_b, inc_a, st_a)
}

/// An update is taken exactly when it supersedes what is known, and the
/// member's `(incarnation, state)` becomes the larger of the two pairs; no
/// other field changes except the time of the state change.
pub proof fn lemma_update_takes_maximum(m: MemberView, st: NodeState, inc: u64, now: Instant)
    ensures
        ({
            let (m2, took) = member_after_update(m, st, inc, now);
            &&& took == supersedes(inc, st, m.incarnation, m.state)
            &&& took ==> m2.incarnation == inc && m2.state == st
            &&& !took ==> m2 == m
            &&& at_least(m2.incarnation, m2.state, m.incarnation, m.state)
            &&& at_least(m2.incarnation, m2.state, inc, st)
            &&& m2.node_id == m.node_id && m2.address == m.address && m2.metadata == m.metadata
            &&& m2.failed_probes == m.failed_probes && m2.last_probe_success == m.last_probe_success
        }),
{
}

/// Applying two updates in either order leaves the member with the same
/// `(incarnation, state)`.
pub proof fn lemma_update_order_independent(
    m: MemberView,
    st1: NodeState,
    inc1: u64,
    st2: NodeState,
    inc2: u64,
    now1: Instant,
    now2: Instant,
)
    ensures
        ({
            let a = member_after_update(member_after_update(m, st1, inc1, now1).0, st2, inc2, now2).0;
            let b = member_after_update(member_after_update(m, st2, inc2, now2).0, st1, inc1, now1).0;
            a.incarnation == b.incarnation && a.state == b.state
        }),
{
    lemma_update_takes_maximum(m, st1, inc1, now1);
    lemma_update_takes_maximum(m, st2, inc2, now2);
    lemma_update_takes_maximum(member_after_update(m, st1, inc1, now1).0, st2, inc2, now2);
    lemma_update_takes_maximum(member_after_update(m, st2, inc2, now2).0, st1, inc1, now1);
    assert(rank(st1) == rank(st2) ==> st1 == st2);
}

/// Applying the same update a second time is not taken and changes nothing.
pub proof fn lemma_update_idempotent(m: MemberView, st: NodeState, inc: u64, now1: Instant, now2: Instant)
    ensures
        ({
            let m1 = member_after_update(m, st, inc, now1).0;
            member_after_update(m1, st, inc, now2) == (m1, false)
        }),
{
    lemma_update_takes_maximum(m, st, inc, now1);
    assert(rank(st) == rank(member_after_update(m, st, inc, now1).0.state) ==> st == member_after_update(m, st, inc, now1).0.state);
}

// ============================================================================
// Monotonicity of the protocol
// ============================================================================

/// Some member of `b` has the node ID of `m` and a pair at least as high.
pub open spec fn known_at_least(b: Seq<MemberView>, m: MemberView) -> bool {
    exists|j: int|
        0 <= j < b.len() && (#[trigger] b[j]).node_id == m.node_id
            && at_least(b[j].incarnation, b[j].state, m.incarnation, m.state)
}

/// Every member of `a` is in `b`, with an `(incarnation, state)` at least as high.
pub open spec fn seq_not_lowered(a: Seq<MemberView>, b: Seq<MemberView>) -> bool {
    forall|i: int| 0 <= i < a.len() ==> #[trigger] known_at_least(b, a[i])
}

/// No member known in `v` is forgotten or lowered in `w`.
pub open spec fn members_not_lowered(v: ProtocolView, w: ProtocolView) -> bool {
    seq_not_lowered(v.members, w.members)
}

/// With unique node IDs, the member at position `i` is the one found by its ID.
pub proof fn lemma_pos_of_unique(ms: Seq<MemberView>, i: int)
    requires
        members_unique(ms),
        0 <= i < ms.len(),
    ensures
        has_member(ms, ms[i].node_id),
        member_pos(ms, ms[i].node_id) == i,
{
    assert(ms[i].node_id == ms[i].node_id);
}

/// Nothing is lowered between equal member sequences.
pub proof fn lemma_not_lowered_refl(ms: Seq<MemberView>)
    ensures
        seq_not_lowered(ms, ms),
{
    assert forall|i: int| 0 <= i < ms.len() implies #[trigger] known_at_least(ms, ms[i]) by {
        assert(ms[i].node_id == ms[i].node_id);
    }
}

/// "Not lowered" is transitive.
pub proof fn lemma_not_lowered_trans(a: Seq<MemberView>, b: Seq<MemberView>, c: Seq<MemberView>)
    requires
        seq_not_lowered(a, b),
        seq_not_lowered(b, c),
    ensures
        seq_not_lowered(a, c),
{
    assert forall|i: int| 0 <= i < a.len() implies #[trigger] known_at_least(c, a[i]) by {
        assert(known_at_least(b, a[i]));
        let j = choose|j: int|
            0 <= j < b.len() && (#[trigger] b[j]).node_id == a[i].node_id
                && at_least(b[j].incarnation, b[j].state, a[i].incarnation, a[i].state);
        assert(known_at_least(c, b[j]));
        let k = choose|k: int|
            0 <= k < c.len() && (#[trigger] c[k]).node_id == b[j].node_id
                && at_least(c[k].incarnation, c[k].state, b[j].incarnation, b[j].state);
        assert(c[k].node_id == a[i].node_id);
    }
}

/// Replacing a member by one with the same ID and a pair at least as high.
pub proof fn lemma_not_lowered_update(ms: Seq<MemberView>, i: int, x: MemberView)
    requires
        members_unique(ms),
        0 <= i < ms.len(),
        x.node_id == ms[i].node_id,
        at_least(x.incarnation, x.state, ms[i].incarnation, ms[i].state),
    ensures
        seq_not_lowered(ms, ms.update(i, x)),
        members_unique(ms.update(i, x)),
{
    let ns = ms.update(i, x);
    assert(members_unique(ns)) by {
        assert forall|a: int, b: int| 0 <= a < ns.len() && 0 <= b < ns.len() && a != b
            implies ns[a].node_id != ns[b].node_id by {
            assert(ns[a].node_id == ms[a].node_id);
            assert(ns[b].node_id == ms[b].node_id);
        }
    }
    assert forall|k: int| 0 <= k < ms.len() implies #[trigger] known_at_least(ns, ms[k]) by {
        assert(ns[k].node_id == ms[k].node_id);
    }
}

/// Appending a member with a new ID.
pub proof fn lemma_not_lowered_push(ms: Seq<MemberView>, x: MemberView)
    requires
        members_unique(ms),
        !has_member(ms, x.node_id),
    ensures
        seq_not_lowered(ms, ms.push(x)),
        members_unique(ms.push(x)),
{
    let ns = ms.push(x);
    assert(members_unique(ns)) by {
        assert forall|a: int, b: int| 0 <= a < ns.len() && 0 <= b < ns.len() && a != b
            implies ns[a].node_id != ns[b].node_id by {
            if a < ms.len() {
                assert(ns[a] == ms[a]);
            }
            if b < ms.len() {
                assert(ns[b] == ms[b]);
            }
        }
    }
    assert forall|k: int| 0 <= k < ms.len() implies #[trigger] known_at_least(ns, ms[k]) by {
        assert(ns[k] == ms[k]);
    }
}

/// Applying one received update never lowers a known member.
pub proof fn lemma_apply_one_not_lowered(v: ProtocolView, u: crate::swim::UpdateView, now: Instant)
    requires
        members_unique(v.members),
    ensures
        members_not_lowered(v, apply_one(v, u, now)),
        members_unique(apply_one(v, u, now).members),
{
    let id = u.node_id;
    let w = apply_one(v, u, now);
    if has_member(v.members, id) {
        let i = member_pos(v.members, id);
        let m = v.members[i];
        match u.state {
            NodeState::Alive => {
                match u.address {
                    Some(a) => {
                        lemma_update_takes_maximum(m, NodeState::Alive, u.incarnation, now);
                        let (m1, took) = member_after_update(m, NodeState::Alive, u.incarnation, now);
                        let m2 = if took {
                            crate::swim::member_after_probe_success(MemberView { address: a, ..m1 }, now)
                        } else {
                            m
                        };
                        lemma_not_lowered_update(v.members, i, m2);
                    }
                    None => {
                        lemma_not_lowered_refl(v.members);
                    }
                }
            }
            NodeState::Suspect => {
                if id == v.local_node_id {
                    lemma_not_lowered_refl(v.members);
                } else {
                    lemma_update_takes_maximum(m, NodeState::Suspect, u.incarnation, now);
                    lemma_not_lowered_update(v.members, i, member_after_update(m, NodeState::Suspect, u.incarnation, now).0);
                }
            }
            NodeState::Dead => {
                if active(m.state) {
                    lemma_not_lowered_update(v.members, i, MemberView { state: NodeState::Dead, state_changed_at: now, ..m });
                } else {
                    lemma_not_lowered_refl(v.members);
                }
            }
            NodeState::Left => {
                lemma_update_takes_maximum(m, NodeState::Left, u.incarnation, now);
                lemma_not_lowered_update(v.members, i, member_after_update(m, NodeState::Left, u.incarnation, now).0);
            }
        }
    } else {
        match u.state {
            NodeState::Alive => {
                match u.address {
                    Some(a) => {
                        let x = MemberView { incarnation: u.incarnation, ..crate::swim::fresh_member(id, a, now) };
                        lemma_not_lowered_push(v.members, x);
                    }
                    None => {
                        lemma_not_lowered_refl(v.members);
                    }
                }
            }
            _ => {
                lemma_not_lowered_refl(v.members);
            }
        }
    }
}

/// Applying received updates, in any number, never forgets or lowers a known
/// member: gossip only moves a member's `(incarnation, state)` up.
pub proof fn lemma_apply_updates_not_lowered(v: ProtocolView, us: Seq<crate::swim::UpdateView>, now: Instant)
    requires
        members_unique(v.members),
    ensures
        members_not_lowered(v, apply_all(v, us, now)),
        members_unique(apply_all(v, us, now).members),
    decreases us.len(),
{
    if us.len() == 0 {
        lemma_not_lowered_refl(v.members);
    } else {
        lemma_apply_updates_not_lowered(v, us.drop_last(), now);
        let mid = apply_all(v, us.drop_last(), now);
        lemma_apply_one_not_lowered(mid, us.last(), now);
        lemma_not_lowered_trans(v.members, mid.members, apply_all(v, us, now).members);
    }
}

/// Merging a peer's state never forgets or lowers a known member, and every
/// remote member that is not the local node and is known or active ends up
/// known at least as high as the peer reported it.
pub proof fn lemma_merge_monotone_and_dominating(v: ProtocolView, rs: Seq<MemberView>, now: Instant)
    requires
        members_unique(v.members),
    ensures
        members_unique(after_merge(v, rs, now).members),
        members_not_lowered(v, after_merge(v, rs, now)),
        forall|j: int| 0 <= j < rs.len() && rs[j].node_id != v.local_node_id
            && (has_member(v.members, rs[j].node_id) || active(rs[j].state))
            ==> #[trigger] known_at_least(after_merge(v, rs, now).members, rs[j]),
    decreases rs.len(),
{
    lemma_merge_all(v, rs, now);
}

/// Induction for [`lemma_merge_monotone_and_dominating`] over `merge_all`.
proof fn lemma_merge_all(v: ProtocolView, rs: Seq<MemberView>, now: Instant)
    requires
        members_unique(v.members),
    ensures
        members_unique(merge_all(v, rs, now).members),
        seq_not_lowered(v.members, merge_all(v, rs, now).members),
        merge_all(v, rs, now).local_node_id == v.local_node_id,
        forall|j: int| 0 <= j < rs.len() && rs[j].node_id != v.local_node_id
            && (has_member(v.members, rs[j].node_id) || active(rs[j].state))
            ==> #[trigger] known_at_least(merge_all(v, rs, now).members, rs[j]),
    decreases rs.len(),
{
    if rs.len() == 0 {
        lemma_not_lowered_refl(v.members);
    } else {
        let rest = rs.drop_last();
        lemma_merge_all(v, rest, now);
        let mid = merge_all(v, rest, now);
        let r = rs.last();
        let w = merge_one(mid, r, now);
        lemma_merge_one(mid, r, now);
        lemma_not_lowered_trans(v.members, mid.members, w.members);
        assert forall|j: int| 0 <= j < rs.len() && rs[j].node_id != v.local_node_id
            && (has_member(v.members, rs[j].node_id) || active(rs[j].state))
            implies #[trigger] known_at_least(w.members, rs[j]) by {
            if j < rs.len() - 1 {
                assert(rs[j] == rest[j]);
                assert(known_at_least(mid.members, rest[j]));
                let a = choose|a: int|
                    0 <= a < mid.members.len() && (#[trigger] mid.members[a]).node_id == rest[j].node_id
                        && at_least(mid.members[a].incarnation, mid.members[a].state, rest[j].incarnation, rest[j].state);
                assert(known_at_least(w.members, mid.members[a]));
            } else {
                if has_member(v.members, r.node_id) {
                    let vp = member_pos(v.members, r.node_id);
                    assert(known_at_least(mid.members, v.members[vp]));
                    let a = choose|a: int|
                        0 <= a < mid.members.len() && (#[trigger] mid.members[a]).node_id == v.members[vp].node_id
                            && at_least(mid.members[a].incarnation, mid.members[a].state, v.members[vp].incarnation, v.members[vp].state);
                    assert(has_member(mid.members, r.node_id));
                }
            }
        }
    }
}

/// One merge step never lowers a member and dominates the merged member.
proof fn lemma_merge_one(v: ProtocolView, r: MemberView, now: Instant)
    requires
        members_unique(v.members),
    ensures
        members_unique(merge_one(v, r, now).members),
        seq_not_lowered(v.members, merge_one(v, r, now).members),
        merge_one(v, r, now).local_node_id == v.local_node_id,
        r.node_id != v.local_node_id && (has_member(v.members, r.node_id) || active(r.state))
            ==> known_at_least(merge_one(v, r, now).members, r),
{
    let w = merge_one(v, r, now).members;
    if r.node_id == v.local_node_id {
        lemma_not_lowered_refl(v.members);
    } else if has_member(v.members, r.node_id) {
        let i = member_pos(v.members, r.node_id);
        let l = v.members[i];
        if r.incarnation > l.incarnation {
            lemma_not_lowered_update(v.members, i, r);
            assert(w[i] == r);
        } else if r.incarnation == l.incarnation && rank(r.state) > rank(l.state) {
            lemma_not_lowered_update(v.members, i, MemberView { state: r.state, state_changed_at: now, ..l });
            assert(w[i].node_id == r.node_id);
        } else {
            lemma_not_lowered_refl(v.members);
            assert(rank(r.state) == rank(l.state) ==> r.state == l.state);
            assert(w[i] == l);
        }
    } else if active(r.state) {
        lemma_not_lowered_push(v.members, r);
        assert(w[v.members.len() as int] == r);
    } else {
        lemma_not_lowered_refl(v.members);
    }
}

/// What merging the peer's member `r` makes of the entry `known` for its node
/// ID at `now`: a known member takes a higher incarnation wholesale, or at the
/// same incarnation a more severe state; an unknown member is added only when
/// it is active.
pub open spec fn merged_entry(known: Option<MemberView>, r: MemberView, now: Instant) -> Option<MemberView> {
    match known {
        Some(l) => Some(
            if r.incarnation > l.incarnation {
                r
            } else if r.incarnation == l.incarnation && rank(r.state) > rank(l.state) {
                MemberView { state: r.state, state_changed_at: now, ..l }
            } else {
                l
            },
        ),
        None => if active(r.state) { Some(r) } else { None },
    }
}

/// No two members of a peer's state share a node ID.
pub open spec fn remote_ids_distinct(rs: Seq<MemberView>) -> bool {
    forall|i: int, j: int| 0 <= i < rs.len() && 0 <= j < rs.len() && i != j ==> rs[i].node_id != rs[j].node_id
}

/// No member of a peer's state has node ID `id`.
pub open spec fn not_in_remote(rs: Seq<MemberView>, id: Seq<char>) -> bool {
    forall|j: int| 0 <= j < rs.len() ==> (#[trigger] rs[j]).node_id != id
}

/// Replacing the member at `i` by one with the same ID changes the lookup of
/// that ID only.
proof fn lemma_lookup_after_replace(v: ProtocolView, w: ProtocolView, i: int, x: MemberView)
    requires
        members_unique(v.members),
        0 <= i < v.members.len(),
        x.node_id == v.members[i].node_id,
        w.members == v.members.update(i, x),
    ensures
        members_unique(w.members),
        forall|id: Seq<char>| #[trigger] lookup(w, id) == (if id == x.node_id { Some(x) } else { lookup(v, id) }),
{
    let ms = v.members;
    let ns = w.members;
    assert(members_unique(ns)) by {
        assert forall|a: int, b: int| 0 <= a < ns.len() && 0 <= b < ns.len() && a != b
            implies ns[a].node_id != ns[b].node_id by {
            assert(ns[a].node_id == ms[a].node_id);
            assert(ns[b].node_id == ms[b].node_id);
        }
    }
    assert forall|id: Seq<char>| #[trigger] lookup(w, id) == (if id == x.node_id { Some(x) } else { lookup(v, id) }) by {
        if id == x.node_id {
            lemma_pos_of_unique(ns, i);
        } else if has_member(ms, id) {
            let p = member_pos(ms, id);
            assert(ns[p] == ms[p]);
            lemma_pos_of_unique(ns, p);
        } else {
            if has_member(ns, id) {
                let q = member_pos(ns, id);
                assert(ms[q].node_id == id);
            }
        }
    }
}

/// Appending a member with a new ID changes the lookup of that ID only.
proof fn lemma_lookup_after_append(v: ProtocolView, w: ProtocolView, x: MemberView)
    requires
        members_unique(v.members),
        !has_member(v.members, x.node_id),
        w.members == v.members.push(x),
    ensures
        members_unique(w.members),
        forall|id: Seq<char>| #[trigger] lookup(w, id) == (if id == x.node_id { Some(x) } else { lookup(v, id) }),
{
    let ms = v.members;
    let ns = w.members;
    lemma_not_lowered_push(ms, x);
    assert forall|id: Seq<char>| #[trigger] lookup(w, id) == (if id == x.node_id { Some(x) } else { lookup(v, id) }) by {
        if id == x.node_id {
            lemma_pos_of_unique(ns, ms.len() as int);
        } else if has_member(ms, id) {
            let p = member_pos(ms, id);
            assert(ns[p] == ms[p]);
            lemma_pos_of_unique(ns, p);
        } else {
            if has_member(ns, id) {
                let q = member_pos(ns, id);
                assert(q < ms.len());
                assert(ms[q].node_id == id);
            }
        }
    }
}

/// One merge step changes the entry of the merged node only, and nothing but
/// the members.
proof fn lemma_merge_one_lookup(v: ProtocolView, r: MemberView, now: Instant)
    requires
        members_unique(v.members),
    ensures
        members_unique(merge_one(v, r, now).members),
        merge_one(v, r, now) == (ProtocolView { members: merge_one(v, r, now).members, ..v }),
        forall|id: Seq<char>| #[trigger] lookup(merge_one(v, r, now), id) == (
            if id == r.node_id && r.node_id != v.local_node_id {
                merged_entry(lookup(v, id), r, now)
            } else {
                lookup(v, id)
            }),
{
    let w = merge_one(v, r, now);
    if r.node_id == v.local_node_id {
    } else if has_member(v.members, r.node_id) {
        let i = member_pos(v.members, r.node_id);
        let l = v.members[i];
        if r.incarnation > l.incarnation {
            lemma_lookup_after_replace(v, w, i, r);
        } else if r.incarnation == l.incarnation && rank(r.state) > rank(l.state) {
            lemma_lookup_after_replace(v, w, i, MemberView { state: r.state, state_changed_at: now, ..l });
        } else {
        }
    } else if active(r.state) {
        lemma_lookup_after_append(v, w, r);
    } else {
    }
}

/// Induction for [`lemma_merge_member_by_member`] over `merge_all`.
proof fn lemma_merge_all_lookup(v: ProtocolView, rs: Seq<MemberView>, now: Instant)
    requires
        members_unique(v.members),
        remote_ids_distinct(rs),
    ensures
        members_unique(merge_all(v, rs, now).members),
        merge_all(v, rs, now) == (ProtocolView { members: merge_all(v, rs, now).members, ..v }),
        forall|j: int| 0 <= j < rs.len() && rs[j].node_id != v.local_node_id
            ==> lookup(merge_all(v, rs, now), #[trigger] rs[j].node_id) == merged_entry(lookup(v, rs[j].node_id), rs[j], now),
        forall|id: Seq<char>| (id == v.local_node_id || not_in_remote(rs, id))
            ==> #[trigger] lookup(merge_all(v, rs, now), id) == lookup(v, id),
    decreases rs.len(),
{
    if rs.len() > 0 {
        let rest = rs.drop_last();
        let r = rs.last();
        assert(remote_ids_distinct(rest));
        lemma_merge_all_lookup(v, rest, now);
        let mid = merge_all(v, rest, now);
        lemma_merge_one_lookup(mid, r, now);
        let w = merge_all(v, rs, now);
        assert(w == merge_one(mid, r, now));
        assert(not_in_remote(rest, r.node_id)) by {
            assert forall|j: int| 0 <= j < rest.len() implies (#[trigger] rest[j]).node_id != r.node_id by {
                assert(rest[j] == rs[j]);
            }
        }
        assert forall|j: int| 0 <= j < rs.len() && rs[j].node_id != v.local_node_id
            implies lookup(w, #[trigger] rs[j].node_id) == merged_entry(lookup(v, rs[j].node_id), rs[j], now) by {
            if j < rs.len() - 1 {
                assert(rs[j] == rest[j]);
                assert(rs[j].node_id != r.node_id);
                assert(lookup(mid, rest[j].node_id) == merged_entry(lookup(v, rest[j].node_id), rest[j], now));
            } else {
                assert(lookup(mid, r.node_id) == lookup(v, r.node_id));
            }
        }
        assert forall|id: Seq<char>| (id == v.local_node_id || not_in_remote(rs, id))
            implies #[trigger] lookup(w, id) == lookup(v, id) by {
            if id != v.local_node_id {
                assert(rs[rs.len() - 1] == r);
                assert(not_in_remote(rest, id)) by {
                    assert forall|j: int| 0 <= j < rest.len() implies (#[trigger] rest[j]).node_id != id by {
                        assert(rest[j] == rs[j]);
                    }
                }
            }
            assert(lookup(mid, id) == lookup(v, id));
        }
    }
}

/// Merging a peer's full state whose node IDs are distinct acts member by
/// member: for each remote member other than the local node, its entry
/// becomes what [`merged_entry`] makes of the entry known before (an unknown
/// member is added only when active; a known one takes a higher incarnation,
/// or at the same incarnation a more severe state, and is otherwise kept);
/// no other entry changes, the local node's included; the count of
/// anti-entropy syncs goes up by one and nothing else changes.
pub proof fn lemma_merge_member_by_member(v: ProtocolView, rs: Seq<MemberView>, now: Instant)
    requires
        members_unique(v.members),
        remote_ids_distinct(rs),
    ensures
        members_unique(after_merge(v, rs, now).members),
        forall|j: int| 0 <= j < rs.len() && rs[j].node_id != v.local_node_id
            ==> lookup(after_merge(v, rs, now), #[trigger] rs[j].node_id) == merged_entry(lookup(v, rs[j].node_id), rs[j], now),
        forall|id: Seq<char>| (id == v.local_node_id || not_in_remote(rs, id))
            ==> #[trigger] lookup(after_merge(v, rs, now), id) == lookup(v, id),
        after_merge(v, rs, now) == (ProtocolView {
            members: after_merge(v, rs, now).members,
            stats: SwimStatsSnapshot { anti_entropy_syncs: wrap_add(v.stats.anti_entropy_syncs, 1), ..v.stats },
            ..v
        }),
{
    lemma_merge_all_lookup(v, rs, now);
    let m = merge_all(v, rs, now);
    let w = after_merge(v, rs, now);
    assert forall|id: Seq<char>| #[trigger] lookup(w, id) == lookup(m, id) by {}
}

/// Disconnecting from a node marks it as having left: a known active member
/// is afterwards found in state `Left` (changed at `now`, all else kept); a
/// member already dead or gone, or an unknown node, is left as it was; no
/// other member changes.
pub proof fn lemma_mark_left_then_lookup(v: ProtocolView, id: Seq<char>, now: Instant)
    requires
        protocol_wf(v),
    ensures
        lookup(after_mark_left(v, id, now), id) == (match lookup(v, id) {
            Some(m) => Some(if active(m.state) { MemberView { state: NodeState::Left, state_changed_at: now, ..m } } else { m }),
            None => None,
        }),
        forall|other: Seq<char>| other != id ==> #[trigger] lookup(after_mark_left(v, id, now), other) == lookup(v, other),
{
    let w = after_mark_left(v, id, now);
    if has_member(v.members, id) && active(v.members[member_pos(v.members, id)].state) {
        let i = member_pos(v.members, id);
        let x = MemberView { state: NodeState::Left, state_changed_at: now, ..v.members[i] };
        lemma_lookup_after_replace(v, w, i, x);
    }
}

// ============================================================================
// Reads after writes
// ============================================================================

/// After adding a member, the member is known with at least its incarnation;
/// when it was new or newer than what was known, exactly as given.
pub proof fn lemma_upsert_then_lookup(v: ProtocolView, m: MemberView, now: Instant)
    requires
        protocol_wf(v),
    ensures
        lookup(after_upsert(v, m, now), m.node_id) is Some,
        lookup(after_upsert(v, m, now), m.node_id).unwrap().incarnation >= m.incarnation,
        (!has_member(v.members, m.node_id) || m.incarnation > lookup(v, m.node_id).unwrap().incarnation)
            ==> lookup(after_upsert(v, m, now), m.node_id) == Some(m),
        members_not_lowered(v, after_upsert(v, m, now)),
{
    let w = after_upsert(v, m, now);
    if has_member(v.members, m.node_id) {
        let i = member_pos(v.members, m.node_id);
        if m.incarnation > v.members[i].incarnation {
            lemma_not_lowered_update(v.members, i, m);
            lemma_pos_of_unique(w.members, i);
        } else {
            lemma_not_lowered_refl(v.members);
        }
    } else {
        lemma_not_lowered_push(v.members, m);
        lemma_pos_of_unique(w.members, v.members.len() as int);
    }
}

/// A suspicion about the local node is refuted: the local incarnation goes up
/// by one, no member changes, and (when the queue can hold anything) the
/// queue ends with the local node's alive announcement at the new incarnation.
pub proof fn lemma_refutation(v: ProtocolView, inc: u64, now: Instant)
    requires
        protocol_wf(v),
        v.local_incarnation < u64::MAX,
    ensures
        after_suspicion(v, v.local_node_id, inc, now).local_incarnation == v.local_incarnation + 1,
        after_suspicion(v, v.local_node_id, inc, now).members == v.members,
        queue_capacity(v) > 0 && (crate::swim_protocol::has_update(v.queue, v.local_node_id)
            ==> v.queue[crate::swim_protocol::update_pos(v.queue, v.local_node_id)].incarnation <= v.local_incarnation + 1) ==> {
            let q = after_suspicion(v, v.local_node_id, inc, now).queue;
            crate::swim_protocol::has_update(q, v.local_node_id)
                && q[crate::swim_protocol::update_pos(q, v.local_node_id)]
                    == self_announcement(v, (v.local_incarnation + 1) as u64, now)
        },
{
    let n = (v.local_incarnation + 1) as u64;
    let u = self_announcement(v, n, now);
    let q = v.queue;
    let cap = queue_capacity(v);
    let w = after_suspicion(v, v.local_node_id, inc, now);
    if cap > 0 && (crate::swim_protocol::has_update(q, v.local_node_id)
        ==> q[crate::swim_protocol::update_pos(q, v.local_node_id)].incarnation <= v.local_incarnation + 1) {
        if crate::swim_protocol::has_update(q, u.node_id) {
            let i = crate::swim_protocol::update_pos(q, u.node_id);
            if u.incarnation >= q[i].incarnation {
                let q1 = q.update(i, u);
                assert(w.queue == q1);
                assert(q1[i] == u);
                assert forall|a: int| 0 <= a < q1.len() && q1[a].node_id == u.node_id implies a == i by {
                    if a != i {
                        assert(q1[a] == q[a]);
                    }
                }
            }
        } else {
            let q1 = q.push(u);
            let q2 = if q1.len() > cap { q1.subrange(q1.len() - cap, q1.len() as int) } else { q1 };
            assert(w.queue == q2);
            assert(q2[q2.len() - 1] == u);
            assert forall|a: int| 0 <= a < q2.len() && q2[a].node_id == u.node_id implies a == q2.len() - 1 by {
                if a != q2.len() - 1 {
                    if q1.len() > cap {
                        assert(q2[a] == q1[a + q1.len() - cap]);
                        assert(q1[a + q1.len() - cap] == q[a + q1.len() - cap]);
                    } else {
                        assert(q2[a] == q[a]);
                    }
                }
            }
        }
    }
}

// ============================================================================
// Reaping
// ============================================================================

/// Reaping removes exactly the members dead or gone for longer than the
/// timeout and never removes an active member.
pub proof fn lemma_reap_exact(v: ProtocolView, timeout: crate::time::Duration, now: Instant)
    ensures
        forall|i: int| 0 <= i < v.members.len() ==>
            (after_reap(v, timeout, now).members.contains(v.members[i]) <==> !reapable(v.members[i], timeout, now)),
        forall|j: int| 0 <= j < after_reap(v, timeout, now).members.len() ==>
            v.members.contains(after_reap(v, timeout, now).members[j])
                && !reapable(after_reap(v, timeout, now).members[j], timeout, now),
        forall|i: int| 0 <= i < v.members.len() && active(v.members[i].state) ==>
            after_reap(v, timeout, now).members.contains(v.members[i]),
{
    broadcast use vstd::seq_lib::group_filter_ensures;
    let keep = reap_keeps(timeout, now);
    let kept = v.members.filter(keep);
    assert forall|i: int| 0 <= i < v.members.len() implies
        (kept.contains(v.members[i]) <==> !reapable(v.members[i], timeout, now)) by {
        if kept.contains(v.members[i]) {
            let j = choose|j: int| 0 <= j < kept.len() && kept[j] == v.members[i];
            assert(keep(kept[j]));
        } else {
            if keep(v.members[i]) {
                v.members.lemma_filter_contains(keep, i);
            }
        }
    }
    assert forall|j: int| 0 <= j < kept.len() implies v.members.contains(kept[j]) && !reapable(kept[j], timeout, now) by {
        assert(kept.contains(kept[j]));
        v.members.lemma_filter_contains_rev(keep, kept[j]);
        assert(keep(kept[j]));
    }
}

// ============================================================================
// Probing
// ============================================================================

/// A probe target is a known, active member other than the local node.
pub proof fn lemma_probe_target_is_active_peer(v: ProtocolView)
    ensures
        after_probe_selection(v).1 matches Some(m) ==> {
            &&& v.members.contains(m)
            &&& active(m.state)
            &&& m.node_id != v.local_node_id
        },
{
    let c = probe_candidates(v);
    if c.len() > 0 {
        let m = c[((v.probe_sequence as usize) as int) % (c.len() as int)];
        assert(c.contains(m));
        v.members.lemma_filter_contains_rev(selection(false, true, v.local_node_id, None), m);
    }
}

/// Probing goes round the candidates: while the candidates stay the same,
/// consecutive selections pick consecutive candidates.
pub proof fn lemma_probe_round_robin(v: ProtocolView)
    requires
        probe_candidates(v).len() > 0,
        v.probe_sequence < usize::MAX,
        v.probe_sequence < u64::MAX,
    ensures
        ({
            let c = probe_candidates(v);
            let w = after_probe_selection(v).0;
            &&& after_probe_selection(v).1 == Some(c[(v.probe_sequence as int) % (c.len() as int)])
            &&& after_probe_selection(w).1 == Some(c[(v.probe_sequence as int + 1) % (c.len() as int)])
        }),
{
    let w = after_probe_selection(v).0;
    assert(w.members == v.members);
    assert(probe_candidates(w) == probe_candidates(v));
    assert(w.probe_sequence == v.probe_sequence + 1);
}

/// Intermediaries of an indirect ping are alive members other than the
/// local node and the probed node, and never members marked thin.
pub proof fn lemma_indirect_candidates_exclude_target(v: ProtocolView, exclude: Seq<char>, m: MemberView)
    requires
        indirect_candidates(v, exclude).contains(m),
    ensures
        v.members.contains(m),
        m.state == NodeState::Alive,
        m.node_id != v.local_node_id,
        m.node_id != exclude,
        !is_thin(m),
{
    let sel = v.members.filter(selection(true, true, v.local_node_id, Some(exclude)));
    sel.lemma_filter_contains_rev(not_thin(), m);
    v.members.lemma_filter_contains_rev(selection(true, true, v.local_node_id, Some(exclude)), m);
}

// ============================================================================
// Piggybacking
// ============================================================================

/// The picked updates are broadcast fewer than `limit` times, no more than
/// `k` of them, and come from the queue.
proof fn lemma_picked_below_limit(q: Seq<crate::swim::UpdateView>, limit: u32, k: nat)
    ensures
        picked_updates(q, limit, k).len() <= k,
        forall|j: int| 0 <= j < picked_updates(q, limit, k).len()
            ==> (#[trigger] picked_updates(q, limit, k)[j]).broadcast_count < limit
                && q.contains(picked_updates(q, limit, k)[j]),
    decreases q.len(),
{
    if q.len() > 0 {
        let d = q.drop_last();
        lemma_picked_below_limit(d, limit, k);
        let p = picked_updates(d, limit, k);
        assert forall|j: int| 0 <= j < picked_updates(q, limit, k).len()
            implies (#[trigger] picked_updates(q, limit, k)[j]).broadcast_count < limit
                && q.contains(picked_updates(q, limit, k)[j]) by {
            if j < p.len() {
                assert(picked_updates(q, limit, k)[j] == p[j]);
                assert(d.contains(p[j]));
                let w = choose|w: int| 0 <= w < d.len() && d[w] == p[j];
                assert(q[w] == p[j]);
            } else {
                assert(picked_updates(q, limit, k)[j] == q.last());
                assert(q[q.len() - 1] == q.last());
            }
        }
    }
}

/// An update is handed out for piggybacking only while it has been broadcast
/// fewer times than the limit, at most `max_piggyback_updates` of them go
/// out at once, and every update left queued afterwards is still under the
/// limit: an update goes out at most `limit` times.
pub proof fn lemma_broadcast_respects_limit(v: ProtocolView, limit: u32)
    ensures
        ({
            let (w, p) = after_broadcast(v, limit);
            &&& p.len() <= v.config.max_piggyback_updates
            &&& forall|j: int| 0 <= j < p.len() ==> (#[trigger] p[j]).broadcast_count < limit && v.queue.contains(p[j])
            &&& forall|j: int| 0 <= j < w.queue.len() ==> (#[trigger] w.queue[j]).broadcast_count < limit
        }),
{
    let p = picked_updates(v.queue, limit, v.config.max_piggyback_updates as nat);
    lemma_picked_below_limit(v.queue, limit, v.config.max_piggyback_updates as nat);
    let bumped_queue = v.queue.map_values(bumped(p));
    let w = after_broadcast(v, limit).0;
    assert forall|j: int| 0 <= j < w.queue.len() implies (#[trigger] w.queue[j]).broadcast_count < limit by {
        bumped_queue.lemma_filter_pred(below_limit(limit), j);
    }
}


// ============================================================================
// Health report
// ============================================================================

/// Every member is in exactly one of the four states.
proof fn lemma_states_partition(ms: Seq<MemberView>)
    ensures
        ms.filter(|m: MemberView| m.state == NodeState::Alive).len()
            + ms.filter(|m: MemberView| m.state == NodeState::Suspect).len()
            + ms.filter(|m: MemberView| m.state == NodeState::Dead).len()
            + ms.filter(|m: MemberView| m.state == NodeState::Left).len() == ms.len(),
    decreases ms.len(),
{
    reveal(Seq::filter);
    if ms.len() > 0 {
        lemma_states_partition(ms.drop_last());
    }
}

/// The health report counts each member of a protocol by its state: the
/// alive, suspect and dead counts are the numbers of members in those
/// states, the total is their sum, and the total together with the departed
/// members is the number of members.
pub proof fn lemma_health_counts(v: ProtocolView)
    requires
        v.members.len() <= usize::MAX,
    ensures
        health_of(v).alive_members == v.members.filter(|m: MemberView| m.state == NodeState::Alive).len(),
        health_of(v).suspect_members == v.members.filter(|m: MemberView| m.state == NodeState::Suspect).len(),
        health_of(v).dead_members == v.members.filter(|m: MemberView| m.state == NodeState::Dead).len(),
        health_of(v).total_members == health_of(v).alive_members + health_of(v).suspect_members + health_of(v).dead_members,
        health_of(v).total_members + v.members.filter(|m: MemberView| m.state == NodeState::Left).len() == v.members.len(),
        health_of(v).is_running == v.running,
        health_of(v).local_incarnation == v.local_incarnation,
{
    let ms = v.members;
    lemma_states_partition(ms);
    assert(ms.filter(in_state(NodeState::Alive)) =~= ms.filter(|m: MemberView| m.state == NodeState::Alive));
    assert(ms.filter(in_state(NodeState::Suspect)) =~= ms.filter(|m: MemberView| m.state == NodeState::Suspect));
    assert(ms.filter(in_state(NodeState::Dead)) =~= ms.filter(|m: MemberView| m.state == NodeState::Dead));
    assert(ms.filter(in_state(NodeState::Left)) =~= ms.filter(|m: MemberView| m.state == NodeState::Left));
}

} // verus!
