//! Process groups (Erlang `pg`-style): the names under which groups and
//! memberships are registered, how members and groups are read back from
//! those names, the local join counts of this node's members, and which
//! members receive a published message.

use vstd::prelude::*;

use crate::swim_protocol::lemma_filter_take_step;
use crate::text::{concat, contains_seq, contains_str, has_prefix, owned, signed_decimal, signed_decimal_of, starts_with, str_eq};

verus! {

// ============================================================================
// Registered names
// ============================================================================

/// Key of a group in the local cache: `tenant:namespace:group`.
pub fn cache_key(tenant_id: &str, namespace: &str, group_name: &str) -> (s: String)
    ensures
        s@ == tenant_id@ + ":"@ + namespace@ + ":"@ + group_name@,
{
    let mut s = concat(tenant_id, ":");
    s.append(namespace);
    s.append(":");
    s.append(group_name);
    s
}

/// Object ID of a group's registration: `tenant:namespace:pg:group`.
pub fn group_object_id(tenant_id: &str, namespace: &str, group_name: &str) -> (s: String)
    ensures
        s@ == tenant_id@ + ":"@ + namespace@ + ":pg:"@ + group_name@,
{
    let mut s = group_prefix(tenant_id, namespace);
    s.append(group_name);
    s
}

/// The prefix of the object IDs of a group's memberships:
/// `tenant:namespace:pg:group:member:`.
pub fn membership_prefix(tenant_id: &str, namespace: &str, group_name: &str) -> (s: String)
    ensures
        s@ == tenant_id@ + ":"@ + namespace@ + ":pg:"@ + group_name@ + ":member:"@,
{
    let mut s = group_object_id(tenant_id, namespace, group_name);
    s.append(":member:");
    s
}

/// Object ID of an actor's membership registered by node `node_id`:
/// `tenant:namespace:pg:group:member:actor@node`.
pub fn membership_object_id(
    tenant_id: &str,
    namespace: &str,
    group_name: &str,
    actor_id: &str,
    node_id: &str,
) -> (s: String)
    ensures
        s@ == tenant_id@ + ":"@ + namespace@ + ":pg:"@ + group_name@ + ":member:"@ + actor_id@ + "@"@ + node_id@,
{
    let mut s = membership_prefix(tenant_id, namespace, group_name);
    s.append(actor_id);
    s.append("@");
    s.append(node_id);
    s
}

/// The prefix of the object IDs of the groups of a tenant's namespace:
/// `tenant:namespace:pg:`.
pub fn group_prefix(tenant_id: &str, namespace: &str) -> (s: String)
    ensures
        s@ == tenant_id@ + ":"@ + namespace@ + ":pg:"@,
{
    let mut s = concat(tenant_id, ":");
    s.append(namespace);
    s.append(":pg:");
    s
}

/// Object name of a membership: `actor@group`.
pub fn membership_object_name(actor_id: &str, group_name: &str) -> (s: String)
    ensures
        s@ == actor_id@ + "@"@ + group_name@,
{
    let mut s = concat(actor_id, "@");
    s.append(group_name);
    s
}

/// The label recording a membership's join count: `join_count:N`.
pub fn join_count_label(join_count: i32) -> (s: String)
    ensures
        s@ == "join_count:"@ + signed_decimal_of(join_count as int),
{
    concat("join_count:", signed_decimal(join_count as i64).as_str())
}

/// The labels of a membership registration: its topics, then its join count.
pub fn membership_labels(topics: &Vec<String>, join_count: i32) -> (labels: Vec<String>)
    ensures
        labels@.len() == topics@.len() + 1,
        forall|i: int| 0 <= i < topics@.len() ==> #[trigger] labels@[i]@ == topics@[i]@,
        labels@[topics@.len() as int]@ == "join_count:"@ + signed_decimal_of(join_count as int),
{
    let mut labels: Vec<String> = Vec::new();
    let mut i: usize = 0;
    while i < topics.len()
        invariant
            i <= topics@.len(),
            labels@.len() == i,
            forall|j: int| 0 <= j < i ==> #[trigger] labels@[j]@ == topics@[j]@,
        decreases topics.len() - i,
    {
        labels.push(topics[i].clone());
        i = i + 1;
    }
    labels.push(join_count_label(join_count));
    labels
}

// ============================================================================
// Reading names back
// ============================================================================

/// The part of `s` before the first `c`, or all of `s` when it holds no `c`.
pub open spec fn before_first(s: Seq<char>, c: char) -> Seq<char> {
    if exists|i: int| 0 <= i < s.len() && s[i] == c {
        s.subrange(0, choose|i: int| 0 <= i < s.len() && s[i] == c && forall|j: int| 0 <= j < i ==> s[j] != c)
    } else {
        s
    }
}

/// The actor named by a membership object ID under `prefix`: the part after
/// the prefix and before the first `@`; none when the ID lies outside the
/// prefix or names no actor.
pub open spec fn member_actor_of(object_id: Seq<char>, prefix: Seq<char>) -> Option<Seq<char>> {
    if has_prefix(object_id, prefix) {
        let a = before_first(object_id.subrange(prefix.len() as int, object_id.len() as int), '@');
        if a.len() > 0 { Some(a) } else { None }
    } else {
        None
    }
}

/// The actor named by a membership object ID under `prefix`.
pub fn member_actor_from_object_id(object_id: &str, prefix: &str) -> (r: Option<String>)
    ensures
        match member_actor_of(object_id@, prefix@) {
            Some(a) => r matches Some(s) && s@ == a,
            None => r.is_none(),
        },
{
    if !starts_with(object_id, prefix) {
        return None;
    }
    let n = object_id.unicode_len();
    let p = prefix.unicode_len();
    let ghost rest = object_id@.subrange(p as int, n as int);
    let mut i: usize = p;
    while i < n && object_id.get_char(i) != '@'
        invariant
            n == object_id@.len(),
            p == prefix@.len(),
            p <= i <= n,
            rest == object_id@.subrange(p as int, n as int),
            forall|j: int| 0 <= j < i - p ==> rest[j] != '@',
        decreases n - i,
    {
        i = i + 1;
    }
    let ghost k = (i - p) as int;
    proof {
        if i < n {
            assert(rest[k] == '@');
            let w = choose|w: int| 0 <= w < rest.len() && rest[w] == '@' && forall|j: int| 0 <= j < w ==> rest[j] != '@';
            if w < k {
                assert(rest[w] != '@');
            } else if w > k {
                assert(rest[k] != '@');
            }
            assert(before_first(rest, '@') =~= rest.subrange(0, k));
        } else {
            assert(!(exists|w: int| 0 <= w < rest.len() && rest[w] == '@'));
            assert(before_first(rest, '@') =~= rest.subrange(0, k));
        }
        assert(object_id@.subrange(p as int, i as int) =~= rest.subrange(0, k));
    }
    if i == p {
        return None;
    }
    Some(owned(object_id.substring_char(p, i)))
}

/// The group named by a group object ID under `prefix` with category
/// `category`: the part after the prefix, for `pubsub` registrations only.
pub open spec fn group_name_of(object_id: Seq<char>, category: Seq<char>, prefix: Seq<char>) -> Option<Seq<char>> {
    if has_prefix(object_id, prefix) && category == "pubsub"@ && object_id.len() > prefix.len() {
        Some(object_id.subrange(prefix.len() as int, object_id.len() as int))
    } else {
        None
    }
}

/// The group named by a group registration under `prefix`.
pub fn group_name_from_object_id(object_id: &str, category: &str, prefix: &str) -> (r: Option<String>)
    ensures
        match group_name_of(object_id@, category@, prefix@) {
            Some(g) => r matches Some(s) && s@ == g,
            None => r.is_none(),
        },
{
    if !starts_with(object_id, prefix) || !str_eq(category, "pubsub") {
        return None;
    }
    let n = object_id.unicode_len();
    let p = prefix.unicode_len();
    if n <= p {
        return None;
    }
    Some(owned(object_id.substring_char(p, n)))
}

// ============================================================================
// Ordering member names
// ============================================================================

/// `a` comes before `b` in the order of `String`: character by character,
/// a proper prefix first.
pub open spec fn lex_lt(a: Seq<char>, b: Seq<char>) -> bool
    decreases a.len(),
{
    if a.len() == 0 {
        b.len() > 0
    } else if b.len() == 0 {
        false
    } else if a[0] != b[0] {
        (a[0] as int) < (b[0] as int)
    } else {
        lex_lt(a.drop_first(), b.drop_first())
    }
}

/// The order is irreflexive and total on distinct strings.
pub proof fn lemma_lex_trichotomy(a: Seq<char>, b: Seq<char>)
    ensures
        !lex_lt(a, a),
        a != b ==> lex_lt(a, b) || lex_lt(b, a),
        !(lex_lt(a, b) && lex_lt(b, a)),
    decreases a.len(),
{
    if a.len() > 0 && b.len() > 0 {
        lemma_lex_trichotomy(a.drop_first(), b.drop_first());
        lemma_lex_trichotomy(a.drop_first(), a.drop_first());
        if a[0] == b[0] && a.drop_first() == b.drop_first() {
            assert forall|k: int| 0 <= k < a.len() implies a[k] == b[k] by {
                if k > 0 {
                    assert(a[k] == a.drop_first()[k - 1]);
                    assert(b[k] == b.drop_first()[k - 1]);
                }
            }
            assert(a =~= b);
        }
    } else if a.len() > 0 {
        lemma_lex_trichotomy(a.drop_first(), a.drop_first());
    } else if b.len() == 0 {
        assert(a =~= b);
    }
}

/// The order is transitive.
pub proof fn lemma_lex_transitive(a: Seq<char>, b: Seq<char>, c: Seq<char>)
    requires
        lex_lt(a, b),
        lex_lt(b, c),
    ensures
        lex_lt(a, c),
    decreases a.len(),
{
    if a.len() > 0 && b.len() > 0 && c.len() > 0 && a[0] == b[0] && b[0] == c[0] {
        lemma_lex_transitive(a.drop_first(), b.drop_first(), c.drop_first());
    }
}

/// `a` comes before `b` in the order of `String`.
pub fn str_lt(a: &str, b: &str) -> (r: bool)
    ensures
        r == lex_lt(a@, b@),
{
    let n = a.unicode_len();
    let m = b.unicode_len();
    let mut i: usize = 0;
    assert(a@.skip(0) =~= a@);
    assert(b@.skip(0) =~= b@);
    while i < n && i < m
        invariant
            n == a@.len(),
            m == b@.len(),
            i <= n,
            i <= m,
            forall|j: int| 0 <= j < i ==> a@[j] == b@[j],
            lex_lt(a@, b@) == lex_lt(a@.skip(i as int), b@.skip(i as int)),
        decreases n - i,
    {
        let x = a.get_char(i);
        let y = b.get_char(i);
        proof {
            assert(a@.skip(i as int)[0] == x);
            assert(b@.skip(i as int)[0] == y);
            assert(a@.skip(i as int).drop_first() =~= a@.skip(i + 1));
            assert(b@.skip(i as int).drop_first() =~= b@.skip(i + 1));
        }
        if x != y {
            return x < y;
        }
        i = i + 1;
    }
    i == n && i < m
}

/// The strictly increasing strings: sorted and without duplicates.
pub open spec fn strictly_sorted(s: Seq<Seq<char>>) -> bool {
    forall|i: int, j: int| 0 <= i < j < s.len() ==> lex_lt(s[i], s[j])
}

/// Inserts `x` into a strictly sorted list, unless it is there already.
pub(crate) fn insert_sorted_unique(v: &mut Vec<String>, x: String)
    requires
        strictly_sorted(crate::text::string_views(old(v)@)),
    ensures
        strictly_sorted(crate::text::string_views(final(v)@)),
        forall|y: Seq<char>| crate::text::string_views(final(v)@).contains(y)
            <==> (crate::text::string_views(old(v)@).contains(y) || y == x@),
{
    let ghost old_views = crate::text::string_views(v@);
    let ghost xv = x@;
    let mut i: usize = 0;
    while i < v.len() && str_lt(v[i].as_str(), x.as_str())
        invariant
            old_views == crate::text::string_views(v@),
            strictly_sorted(old_views),
            i <= v.len(),
            forall|j: int| 0 <= j < i ==> lex_lt(#[trigger] old_views[j], xv),
            xv == x@,
        decreases v.len() - i,
    {
        i = i + 1;
    }
    if i < v.len() && str_eq(v[i].as_str(), x.as_str()) {
        assert(old_views[i as int] == xv);
        return;
    }
    proof {
        if i < v.len() {
            assert(!lex_lt(old_views[i as int], xv));
            lemma_lex_trichotomy(old_views[i as int], xv);
            assert(lex_lt(xv, old_views[i as int]));
        }
    }
    v.insert(i, x);
    proof {
        let nv = crate::text::string_views(v@);
        assert(nv =~= old_views.insert(i as int, xv));
        assert forall|a: int, b: int| 0 <= a < b < nv.len() implies lex_lt(nv[a], nv[b]) by {
            if b < i {
            } else if a < i && b == i {
            } else if a <= i {
                assert(lex_lt(xv, old_views[b - 1])) by {
                    if b - 1 > i {
                        assert(lex_lt(old_views[i as int], old_views[b - 1]));
                        lemma_lex_transitive(xv, old_views[i as int], old_views[b - 1]);
                    }
                }
                if a < i {
                    assert(lex_lt(old_views[a], xv));
                    lemma_lex_transitive(nv[a], xv, nv[b]);
                }
            } else {
                assert(nv[a] == old_views[a - 1]);
                assert(nv[b] == old_views[b - 1]);
            }
        }
        assert forall|y: Seq<char>| nv.contains(y) <==> (old_views.contains(y) || y == xv) by {
            if nv.contains(y) {
                let k = choose|k: int| 0 <= k < nv.len() && nv[k] == y;
                if k < i {
                    assert(old_views[k] == y);
                } else if k > i {
                    assert(old_views[k - 1] == y);
                }
            }
            if old_views.contains(y) {
                let k = choose|k: int| 0 <= k < old_views.len() && old_views[k] == y;
                if k < i {
                    assert(nv[k] == y);
                } else {
                    assert(nv[k + 1] == y);
                }
            }
            if y == xv {
                assert(nv[i as int] == y);
            }
        }
    }
}

/// The members of a group from the object IDs of membership registrations
/// under `prefix`: each actor once, in order.
pub fn group_members_from_object_ids(object_ids: &Vec<String>, prefix: &str) -> (members: Vec<String>)
    ensures
        strictly_sorted(crate::text::string_views(members@)),
        forall|a: Seq<char>| crate::text::string_views(members@).contains(a) <==>
            exists|i: int| 0 <= i < object_ids@.len() && member_actor_of(#[trigger] object_ids@[i]@, prefix@) == Some(a),
{
    let mut members: Vec<String> = Vec::new();
    let mut i: usize = 0;
    while i < object_ids.len()
        invariant
            i <= object_ids@.len(),
            strictly_sorted(crate::text::string_views(members@)),
            forall|a: Seq<char>| crate::text::string_views(members@).contains(a) <==>
                exists|k: int| 0 <= k < i && member_actor_of(#[trigger] object_ids@[k]@, prefix@) == Some(a),
        decreases object_ids.len() - i,
    {
        let found = member_actor_from_object_id(object_ids[i].as_str(), prefix);
        let ghost before = crate::text::string_views(members@);
        match found {
            Some(a) => {
                let ghost av = a@;
                insert_sorted_unique(&mut members, a);
                proof {
                    assert forall|b: Seq<char>| crate::text::string_views(members@).contains(b) <==>
                        exists|k: int| 0 <= k < i + 1 && member_actor_of(#[trigger] object_ids@[k]@, prefix@) == Some(b) by {
                        if b == av {
                            assert(member_actor_of(object_ids@[i as int]@, prefix@) == Some(b));
                        }
                        if exists|k: int| 0 <= k < i + 1 && member_actor_of(#[trigger] object_ids@[k]@, prefix@) == Some(b) {
                            let k = choose|k: int| 0 <= k < i + 1 && member_actor_of(#[trigger] object_ids@[k]@, prefix@) == Some(b);
                            if k < i {
                                assert(before.contains(b));
                            }
                        }
                    }
                }
            },
            None => {
                proof {
                    assert forall|b: Seq<char>| crate::text::string_views(members@).contains(b) <==>
                        exists|k: int| 0 <= k < i + 1 && member_actor_of(#[trigger] object_ids@[k]@, prefix@) == Some(b) by {
                        if exists|k: int| 0 <= k < i + 1 && member_actor_of(#[trigger] object_ids@[k]@, prefix@) == Some(b) {
                            let k = choose|k: int| 0 <= k < i + 1 && member_actor_of(#[trigger] object_ids@[k]@, prefix@) == Some(b);
                            if k == i {
                                assert(member_actor_of(object_ids@[i as int]@, prefix@).is_none());
                            }
                        }
                    }
                }
            },
        }
        i = i + 1;
    }
    members
}

// ============================================================================
// Local memberships
// ============================================================================

/// One actor's membership of one group on this node.
#[derive(Debug)]
pub struct LocalMembership {
    /// Key of the group (see [`cache_key`]).
    pub group_key: String,
    pub actor_id: String,
    /// How many times the actor joined without leaving.
    pub join_count: i32,
    /// Topics the actor subscribed to; none means all.
    pub topics: Vec<String>,
}

/// The value of a [`LocalMembership`].
pub struct MembershipView {
    pub group_key: Seq<char>,
    pub actor_id: Seq<char>,
    pub join_count: i32,
    pub topics: Seq<Seq<char>>,
}

impl View for LocalMembership {
    type V = MembershipView;

    open spec fn view(&self) -> MembershipView {
        MembershipView {
            group_key: self.group_key@,
            actor_id: self.actor_id@,
            join_count: self.join_count,
            topics: crate::text::string_views(self.topics@),
        }
    }
}

/// The local view of a node's process groups.
pub struct GroupsView {
    /// Keys of the groups known locally.
    pub groups: Seq<Seq<char>>,
    /// The memberships of local actors.
    pub memberships: Seq<MembershipView>,
}

/// The process groups known on this node and the memberships of its actors.
///
/// Entries are held in a vector kept unique by group key (and actor) rather than in a map
/// keyed by it: the key is text, and for a map keyed by `String` the
/// verifier has no model of the keys to prove these contracts against.
pub struct LocalGroups {
    groups: Vec<String>,
    memberships: Vec<LocalMembership>,
}

impl View for LocalGroups {
    type V = GroupsView;

    closed spec fn view(&self) -> GroupsView {
        GroupsView {
            groups: crate::text::string_views(self.groups@),
            memberships: self.memberships@.map_values(|m: LocalMembership| m@),
        }
    }
}

/// Groups are listed once; an actor is a member of a group at most once,
/// with a positive join count, and only of a listed group.
pub open spec fn groups_wf(v: GroupsView) -> bool {
    &&& forall|i: int, j: int| 0 <= i < v.groups.len() && 0 <= j < v.groups.len() && i != j ==> v.groups[i] != v.groups[j]
    &&& forall|i: int, j: int| 0 <= i < v.memberships.len() && 0 <= j < v.memberships.len() && i != j ==>
        !same_membership(v.memberships[i], v.memberships[j])
    &&& forall|i: int| 0 <= i < v.memberships.len() ==> v.memberships[i].join_count >= 1
    &&& forall|i: int| 0 <= i < v.memberships.len() ==> v.groups.contains(#[trigger] v.memberships[i].group_key)
}

/// Two memberships of the same actor in the same group.
pub open spec fn same_membership(a: MembershipView, b: MembershipView) -> bool {
    a.group_key == b.group_key && a.actor_id == b.actor_id
}

/// Actor `actor` is a local member of group `key`.
pub open spec fn is_member(ms: Seq<MembershipView>, key: Seq<char>, actor: Seq<char>) -> bool {
    exists|i: int| 0 <= i < ms.len() && ms[i].group_key == key && ms[i].actor_id == actor
}

/// The position of actor `actor`'s membership of group `key`.
pub open spec fn membership_pos(ms: Seq<MembershipView>, key: Seq<char>, actor: Seq<char>) -> int {
    choose|i: int| 0 <= i < ms.len() && ms[i].group_key == key && ms[i].actor_id == actor
}

/// The membership of actor `actor` in group `key`, if any.
pub open spec fn membership_of(v: GroupsView, key: Seq<char>, actor: Seq<char>) -> Option<MembershipView> {
    if is_member(v.memberships, key, actor) {
        Some(v.memberships[membership_pos(v.memberships, key, actor)])
    } else {
        None
    }
}

/// Memberships of groups other than `key`.
pub open spec fn outside_group(key: Seq<char>) -> spec_fn(MembershipView) -> bool {
    |m: MembershipView| m.group_key != key
}

/// `topics` with each of `added` appended unless already present.
pub open spec fn merged_topics(topics: Seq<Seq<char>>, added: Seq<Seq<char>>) -> Seq<Seq<char>>
    decreases added.len(),
{
    if added.len() == 0 {
        topics
    } else {
        let t = merged_topics(topics, added.drop_last());
        if t.contains(added.last()) { t } else { t.push(added.last()) }
    }
}

/// Group `key` is (re)created locally: it is listed with no members.
pub open spec fn after_create(v: GroupsView, key: Seq<char>) -> GroupsView {
    GroupsView {
        groups: if v.groups.contains(key) { v.groups } else { v.groups.push(key) },
        memberships: v.memberships.filter(outside_group(key)),
    }
}

/// Group `key` is deleted locally with its memberships.
pub open spec fn after_delete(v: GroupsView, key: Seq<char>) -> GroupsView {
    GroupsView {
        groups: if v.groups.contains(key) { v.groups.remove(v.groups.index_of(key)) } else { v.groups },
        memberships: v.memberships.filter(outside_group(key)),
    }
}

/// Actor `actor` joins group `key` with `topics`: the group becomes known,
/// the join count goes up by one (from zero for a new member) and the new
/// topics are added.
pub open spec fn after_join(v: GroupsView, key: Seq<char>, actor: Seq<char>, topics: Seq<Seq<char>>) -> GroupsView {
    let groups = if v.groups.contains(key) { v.groups } else { v.groups.push(key) };
    match membership_of(v, key, actor) {
        Some(m) => GroupsView {
            groups,
            memberships: v.memberships.update(
                membership_pos(v.memberships, key, actor),
                MembershipView { join_count: (m.join_count + 1) as i32, topics: merged_topics(m.topics, topics), ..m },
            ),
        },
        None => GroupsView {
            groups,
            memberships: v.memberships.push(
                MembershipView { group_key: key, actor_id: actor, join_count: 1, topics: merged_topics(Seq::empty(), topics) },
            ),
        },
    }
}

/// Why a local leave failed.
#[derive(Debug, PartialEq, Eq, Structural)]
pub enum LeaveError {
    /// The group is not known locally.
    GroupNotFound,
    /// The actor is not a local member of the group.
    NotMember,
}

/// Actor `actor` leaves group `key`: the join count goes down by one and the
/// membership ends at zero.
pub open spec fn after_leave(v: GroupsView, key: Seq<char>, actor: Seq<char>) -> GroupsView {
    match membership_of(v, key, actor) {
        Some(m) => {
            let p = membership_pos(v.memberships, key, actor);
            if m.join_count <= 1 {
                GroupsView { memberships: v.memberships.remove(p), ..v }
            } else {
                GroupsView {
                    memberships: v.memberships.update(p, MembershipView { join_count: (m.join_count - 1) as i32, ..m }),
                    ..v
                }
            }
        },
        None => v,
    }
}

/// The actors of group `key` that are members on this node.
pub open spec fn local_members_of(v: GroupsView, key: Seq<char>) -> Seq<Seq<char>> {
    v.memberships.filter(|m: MembershipView| m.group_key == key).map_values(|m: MembershipView| m.actor_id)
}

/// A copy of a list of strings.
fn copy_strings(v: &Vec<String>) -> (r: Vec<String>)
    ensures
        crate::text::string_views(r@) == crate::text::string_views(v@),
{
    let mut r: Vec<String> = Vec::new();
    let mut i: usize = 0;
    while i < v.len()
        invariant
            i <= v@.len(),
            crate::text::string_views(r@) == crate::text::string_views(v@).take(i as int),
        decreases v.len() - i,
    {
        let ghost before = r@;
        r.push(owned(v[i].as_str()));
        proof {
            assert(crate::text::string_views(r@) =~= crate::text::string_views(before).push(v@[i as int]@));
            assert(crate::text::string_views(v@).take(i + 1) =~= crate::text::string_views(v@).take(i as int).push(v@[i as int]@));
        }
        i = i + 1;
    }
    assert(crate::text::string_views(v@).take(v@.len() as int) =~= crate::text::string_views(v@));
    r
}

/// `topics` merged with `added`: each new topic appended once.
fn merge_topics(topics: &mut Vec<String>, added: &Vec<String>)
    ensures
        crate::text::string_views(final(topics)@)
            == merged_topics(crate::text::string_views(old(topics)@), crate::text::string_views(added@)),
{
    let ghost t0 = crate::text::string_views(topics@);
    let ghost av = crate::text::string_views(added@);
    let mut i: usize = 0;
    assert(av.take(0) =~= Seq::<Seq<char>>::empty());
    while i < added.len()
        invariant
            i <= added@.len(),
            av == crate::text::string_views(added@),
            crate::text::string_views(topics@) == merged_topics(t0, av.take(i as int)),
        decreases added.len() - i,
    {
        proof {
            assert(av.take(i + 1).drop_last() =~= av.take(i as int));
            assert(av.take(i + 1).last() == added@[i as int]@);
        }
        let mut present = false;
        let mut j: usize = 0;
        while j < topics.len()
            invariant
                j <= topics@.len(),
                present == exists|k: int| 0 <= k < j && topics@[k]@ == added@[i as int]@,
                i < added@.len(),
            decreases topics.len() - j,
        {
            if str_eq(topics[j].as_str(), added[i].as_str()) {
                present = true;
            }
            j = j + 1;
        }
        let ghost before = crate::text::string_views(topics@);
        proof {
            if present {
                let k = choose|k: int| 0 <= k < j && topics@[k]@ == added@[i as int]@;
                assert(before[k] == added@[i as int]@);
            } else {
                assert forall|k: int| 0 <= k < before.len() implies before[k] != added@[i as int]@ by {
                    assert(before[k] == topics@[k]@);
                }
            }
        }
        if !present {
            topics.push(owned(added[i].as_str()));
            proof {
                assert(crate::text::string_views(topics@) =~= before.push(added@[i as int]@));
            }
        }
        i = i + 1;
    }
    assert(av.take(added@.len() as int) =~= av);
}

impl LocalGroups {
    /// No groups.
    pub fn new() -> (g: LocalGroups)
        ensures
            g@.groups.len() == 0,
            g@.memberships.len() == 0,
            groups_wf(g@),
    {
        let g = LocalGroups { groups: Vec::new(), memberships: Vec::new() };
        assert(g@.groups =~= Seq::<Seq<char>>::empty());
        assert(g@.memberships =~= Seq::<MembershipView>::empty());
        g
    }

    /// The position of group `key`, if listed.
    fn find_group(&self, key: &str) -> (r: Option<usize>)
        requires
            groups_wf(self@),
        ensures
            match r {
                Some(i) => i < self@.groups.len() && self@.groups[i as int] == key@
                    && self@.groups.contains(key@) && self@.groups.index_of(key@) == i,
                None => !self@.groups.contains(key@),
            },
    {
        let mut i: usize = 0;
        while i < self.groups.len()
            invariant
                groups_wf(self@),
                i <= self.groups@.len(),
                self@.groups.len() == self.groups@.len(),
                forall|j: int| 0 <= j < i ==> self@.groups[j] != key@,
            decreases self.groups.len() - i,
        {
            assert(self@.groups[i as int] == self.groups@[i as int]@);
            if str_eq(self.groups[i].as_str(), key) {
                proof {
                    assert(self@.groups[i as int] == key@);
                    self@.groups.index_of_first_ensures(key@);
                    let f = self@.groups.index_of(key@);
                    assert(self@.groups.contains(key@));
                }
                return Some(i);
            }
            i = i + 1;
        }
        None
    }

    /// The position of actor `actor`'s membership of group `key`, if any.
    fn find_membership(&self, key: &str, actor: &str) -> (r: Option<usize>)
        requires
            groups_wf(self@),
        ensures
            match r {
                Some(i) => i < self@.memberships.len() && is_member(self@.memberships, key@, actor@)
                    && membership_pos(self@.memberships, key@, actor@) == i,
                None => !is_member(self@.memberships, key@, actor@),
            },
    {
        let ghost ms = self@.memberships;
        let mut i: usize = 0;
        while i < self.memberships.len()
            invariant
                groups_wf(self@),
                ms == self@.memberships,
                i <= self.memberships@.len(),
                ms.len() == self.memberships@.len(),
                forall|j: int| 0 <= j < i ==> !(ms[j].group_key == key@ && ms[j].actor_id == actor@),
            decreases self.memberships.len() - i,
        {
            assert(ms[i as int] == self.memberships@[i as int]@);
            if str_eq(self.memberships[i].group_key.as_str(), key) && str_eq(self.memberships[i].actor_id.as_str(), actor) {
                proof {
                    assert(ms[i as int].group_key == key@ && ms[i as int].actor_id == actor@);
                    assert(is_member(ms, key@, actor@));
                    let p = membership_pos(ms, key@, actor@);
                    if p != i {
                        assert(same_membership(ms[p], ms[i as int]));
                    }
                }
                return Some(i);
            }
            i = i + 1;
        }
        None
    }

    /// Drops the memberships of group `key`.
    fn retain_outside_group(&mut self, key: &str)
        requires
            groups_wf(old(self)@),
        ensures
            final(self)@.groups == old(self)@.groups,
            final(self)@.memberships == old(self)@.memberships.filter(outside_group(key@)),
    {
        let ghost ms = self@.memberships;
        let ghost keep = outside_group(key@);
        let mut i: usize = 0;
        let ghost mut j: int = 0;
        proof {
            reveal(Seq::filter);
            assert(ms.take(0).filter(keep) =~= Seq::<MembershipView>::empty());
            assert(self@.memberships =~= ms.take(0).filter(keep) + ms.skip(0));
        }
        while i < self.memberships.len()
            invariant
                keep == outside_group(key@),
                0 <= j <= ms.len(),
                self@.groups == old(self)@.groups,
                self@.memberships == ms.take(j).filter(keep) + ms.skip(j),
                i == ms.take(j).filter(keep).len(),
            decreases ms.len() - j,
        {
            proof {
                lemma_filter_take_step(ms, keep, j);
                assert(self@.memberships[i as int] == ms[j]);
            }
            let ghost before = self@.memberships;
            if str_eq(self.memberships[i].group_key.as_str(), key) {
                self.memberships.remove(i);
                proof {
                    assert(!keep(ms[j]));
                    assert(ms.take(j + 1).filter(keep) =~= ms.take(j).filter(keep));
                    assert(ms.skip(j) =~= seq![ms[j]] + ms.skip(j + 1));
                    assert(before =~= ms.take(j).filter(keep) + (seq![ms[j]] + ms.skip(j + 1)));
                    assert(self@.memberships =~= before.remove(i as int));
                    assert(self@.memberships =~= ms.take(j + 1).filter(keep) + ms.skip(j + 1));
                }
            } else {
                proof {
                    assert(keep(ms[j]));
                    assert(ms.take(j + 1).filter(keep) =~= ms.take(j).filter(keep).push(ms[j]));
                    assert(ms.skip(j) =~= seq![ms[j]] + ms.skip(j + 1));
                    assert(self@.memberships =~= ms.take(j + 1).filter(keep) + ms.skip(j + 1));
                }
                i = i + 1;
            }
            proof {
                j = j + 1;
            }
        }
        proof {
            assert(j == ms.len()) by {
                if j < ms.len() {
                    assert(self@.memberships.len() > i);
                }
            }
            assert(ms.take(j) =~= ms);
            assert(self@.memberships =~= ms.filter(keep));
        }
    }

    /// (Re)creates group `key` locally with no members.
    pub fn create_group(&mut self, key: &str)
        requires
            groups_wf(old(self)@),
        ensures
            final(self)@ == after_create(old(self)@, key@),
            groups_wf(final(self)@),
    {
        let ghost v0 = self@;
        self.retain_outside_group(key);
        proof {
            lemma_filter_memberships_wf(v0, key@);
        }
        if self.find_group(key).is_none() {
            self.groups.push(owned(key));
            proof {
                assert(self@.groups =~= v0.groups.push(key@));
                let v = self@;
                assert forall|i: int| 0 <= i < v.memberships.len() implies v.groups.contains(#[trigger] v.memberships[i].group_key) by {
                    assert(v0.groups.contains(v.memberships[i].group_key));
                    let k = choose|k: int| 0 <= k < v0.groups.len() && v0.groups[k] == v.memberships[i].group_key;
                    assert(v.groups[k] == v0.groups[k]);
                }
            }
        }
    }

    /// Deletes group `key` locally with its memberships.
    pub fn delete_group(&mut self, key: &str)
        requires
            groups_wf(old(self)@),
        ensures
            final(self)@ == after_delete(old(self)@, key@),
            groups_wf(final(self)@),
    {
        let ghost v0 = self@;
        self.retain_outside_group(key);
        proof {
            lemma_filter_memberships_wf(v0, key@);
        }
        match self.find_group(key) {
            Some(i) => {
                let ghost mid = self@;
                self.groups.remove(i);
                proof {
                    assert(self@.groups =~= v0.groups.remove(i as int));
                    let v = self@;
                    assert forall|a: int, b: int| 0 <= a < v.groups.len() && 0 <= b < v.groups.len() && a != b
                        implies v.groups[a] != v.groups[b] by {
                        let a0 = if a < i { a } else { a + 1 };
                        let b0 = if b < i { b } else { b + 1 };
                        assert(v.groups[a] == v0.groups[a0]);
                        assert(v.groups[b] == v0.groups[b0]);
                    }
                    assert forall|x: int| 0 <= x < v.memberships.len() implies v.groups.contains(#[trigger] v.memberships[x].group_key) by {
                        let g = v.memberships[x].group_key;
                        assert(mid.groups.contains(g));
                        assert(g != key@) by {
                            assert(v.memberships.contains(v.memberships[x]));
                            v0.memberships.lemma_filter_contains_rev(outside_group(key@), v.memberships[x]);
                        }
                        let k = choose|k: int| 0 <= k < v0.groups.len() && v0.groups[k] == g;
                        assert(k != i);
                        let k2 = if k < i { k } else { k - 1 };
                        assert(v.groups[k2] == g);
                    }
                }
            },
            None => {},
        }
    }

    /// Actor `actor` joins group `key` with `topics`; returns the new join count.
    pub fn join(&mut self, key: &str, actor: &str, topics: &Vec<String>) -> (count: i32)
        requires
            groups_wf(old(self)@),
            membership_of(old(self)@, key@, actor@) matches Some(m) ==> m.join_count < i32::MAX,
        ensures
            final(self)@ == after_join(old(self)@, key@, actor@, crate::text::string_views(topics@)),
            groups_wf(final(self)@),
            membership_of(final(self)@, key@, actor@) matches Some(m) && m.join_count == count,
    {
        let ghost v0 = self@;
        let ghost tv = crate::text::string_views(topics@);
        if self.find_group(key).is_none() {
            self.groups.push(owned(key));
            proof {
                assert(self@.groups =~= v0.groups.push(key@));
                let v = self@;
                assert forall|a: int, b: int| 0 <= a < v.groups.len() && 0 <= b < v.groups.len() && a != b
                    implies v.groups[a] != v.groups[b] by {
                    if a < v0.groups.len() {
                        assert(v.groups[a] == v0.groups[a]);
                    }
                    if b < v0.groups.len() {
                        assert(v.groups[b] == v0.groups[b]);
                    }
                }
                assert forall|i: int| 0 <= i < v.memberships.len() implies v.groups.contains(#[trigger] v.memberships[i].group_key) by {
                    let k = choose|k: int| 0 <= k < v0.groups.len() && v0.groups[k] == v.memberships[i].group_key;
                    assert(v.groups[k] == v0.groups[k]);
                }
            }
        }
        let ghost v1 = self@;
        assert(v1.groups.contains(key@)) by {
            if v0.groups.contains(key@) {
            } else {
                assert(v1.groups[v0.groups.len() as int] == key@);
            }
        }
        match self.find_membership(key, actor) {
            Some(i) => {
                let mut m = self.memberships.remove(i);
                let ghost mv = m@;
                assert(mv == v1.memberships[i as int]);
                m.join_count = m.join_count + 1;
                merge_topics(&mut m.topics, topics);
                let count = m.join_count;
                let ghost nv = m@;
                self.memberships.insert(i, m);
                proof {
                    assert(self@.memberships =~= v1.memberships.update(i as int, nv));
                    let v = self@;
                    assert forall|a: int, b: int| 0 <= a < v.memberships.len() && 0 <= b < v.memberships.len() && a != b
                        implies !same_membership(v.memberships[a], v.memberships[b]) by {
                        assert(!same_membership(v1.memberships[a], v1.memberships[b]));
                        if a != i {
                            assert(v.memberships[a] == v1.memberships[a]);
                        }
                        if b != i {
                            assert(v.memberships[b] == v1.memberships[b]);
                        }
                    }
                    assert forall|x: int| 0 <= x < v.memberships.len() implies v.groups.contains(#[trigger] v.memberships[x].group_key) by {
                        if x != i {
                            assert(v.memberships[x] == v1.memberships[x]);
                        }
                    }
                    assert forall|x: int| 0 <= x < v.memberships.len() implies v.memberships[x].join_count >= 1 by {
                        if x != i {
                            assert(v.memberships[x] == v1.memberships[x]);
                        }
                    }
                    assert(is_member(v.memberships, key@, actor@)) by {
                        assert(v.memberships[i as int].group_key == key@);
                    }
                    let q = membership_pos(v.memberships, key@, actor@);
                    if q != i {
                        assert(same_membership(v.memberships[q], v.memberships[i as int]));
                    }
                    assert(v1.memberships == v0.memberships);
                }
                count
            },
            None => {
                let mut new_topics: Vec<String> = Vec::new();
                assert(crate::text::string_views(new_topics@) =~= Seq::<Seq<char>>::empty());
                merge_topics(&mut new_topics, topics);
                let m = LocalMembership {
                    group_key: owned(key),
                    actor_id: owned(actor),
                    join_count: 1,
                    topics: new_topics,
                };
                let ghost nv = m@;
                self.memberships.push(m);
                proof {
                    assert(crate::text::string_views(Seq::<String>::empty()) =~= Seq::<Seq<char>>::empty());
                    assert(self@.memberships =~= v1.memberships.push(nv));
                    let v = self@;
                    let n = v1.memberships.len() as int;
                    assert forall|a: int, b: int| 0 <= a < v.memberships.len() && 0 <= b < v.memberships.len() && a != b
                        implies !same_membership(v.memberships[a], v.memberships[b]) by {
                        if a < n {
                            assert(v.memberships[a] == v1.memberships[a]);
                        }
                        if b < n {
                            assert(v.memberships[b] == v1.memberships[b]);
                        }
                    }
                    assert forall|x: int| 0 <= x < v.memberships.len() implies v.groups.contains(#[trigger] v.memberships[x].group_key) by {
                        if x < n {
                            assert(v.memberships[x] == v1.memberships[x]);
                        }
                    }
                    assert forall|x: int| 0 <= x < v.memberships.len() implies v.memberships[x].join_count >= 1 by {
                        if x < n {
                            assert(v.memberships[x] == v1.memberships[x]);
                        }
                    }
                    assert(is_member(v.memberships, key@, actor@)) by {
                        assert(v.memberships[n].group_key == key@);
                    }
                    let q = membership_pos(v.memberships, key@, actor@);
                    if q != n {
                        assert(same_membership(v.memberships[q], v.memberships[n]));
                    }
                    assert(v1.memberships == v0.memberships);
                }
                1
            },
        }
    }

    /// Actor `actor` leaves group `key`.  Returns whether the membership
    /// ended, the remaining join count and the member's topics.
    pub fn leave(&mut self, key: &str, actor: &str) -> (r: Result<(bool, i32, Vec<String>), LeaveError>)
        requires
            groups_wf(old(self)@),
        ensures
            groups_wf(final(self)@),
            final(self)@ == if old(self)@.groups.contains(key@) { after_leave(old(self)@, key@, actor@) } else { old(self)@ },
            !old(self)@.groups.contains(key@) ==> r == Err::<(bool, i32, Vec<String>), LeaveError>(LeaveError::GroupNotFound),
            old(self)@.groups.contains(key@) ==> match membership_of(old(self)@, key@, actor@) {
                None => r == Err::<(bool, i32, Vec<String>), LeaveError>(LeaveError::NotMember),
                Some(m) => r matches Ok((ended, count, topics))
                    && ended == (m.join_count <= 1)
                    && count == (if m.join_count <= 1 { 0 } else { m.join_count - 1 })
                    && crate::text::string_views(topics@) == m.topics,
            },
    {
        let ghost v0 = self@;
        if self.find_group(key).is_none() {
            return Err(LeaveError::GroupNotFound);
        }
        match self.find_membership(key, actor) {
            None => Err(LeaveError::NotMember),
            Some(i) => {
                let ghost mv = self@.memberships[i as int];
                assert(self.memberships@[i as int]@ == mv);
                let topics = copy_strings(&self.memberships[i].topics);
                if self.memberships[i].join_count <= 1 {
                    self.memberships.remove(i);
                    proof {
                        assert(self@.memberships =~= v0.memberships.remove(i as int));
                        let v = self@;
                        assert forall|a: int, b: int| 0 <= a < v.memberships.len() && 0 <= b < v.memberships.len() && a != b
                            implies !same_membership(v.memberships[a], v.memberships[b]) by {
                            let a0 = if a < i { a } else { a + 1 };
                            let b0 = if b < i { b } else { b + 1 };
                            assert(v.memberships[a] == v0.memberships[a0]);
                            assert(v.memberships[b] == v0.memberships[b0]);
                        }
                        assert forall|x: int| 0 <= x < v.memberships.len() implies v.groups.contains(#[trigger] v.memberships[x].group_key) by {
                            let x0 = if x < i { x } else { x + 1 };
                            assert(v.memberships[x] == v0.memberships[x0]);
                        }
                        assert forall|x: int| 0 <= x < v.memberships.len() implies v.memberships[x].join_count >= 1 by {
                            let x0 = if x < i { x } else { x + 1 };
                            assert(v.memberships[x] == v0.memberships[x0]);
                        }
                    }
                    Ok((true, 0, topics))
                } else {
                    let mut m = self.memberships.remove(i);
                    assert(m@ == v0.memberships[i as int]);
                    m.join_count = m.join_count - 1;
                    let count = m.join_count;
                    let ghost nv = m@;
                    self.memberships.insert(i, m);
                    proof {
                        assert(self@.memberships =~= v0.memberships.update(i as int, nv));
                        let v = self@;
                        assert forall|a: int, b: int| 0 <= a < v.memberships.len() && 0 <= b < v.memberships.len() && a != b
                            implies !same_membership(v.memberships[a], v.memberships[b]) by {
                            assert(!same_membership(v0.memberships[a], v0.memberships[b]));
                            if a != i {
                                assert(v.memberships[a] == v0.memberships[a]);
                            }
                            if b != i {
                                assert(v.memberships[b] == v0.memberships[b]);
                            }
                        }
                        assert forall|x: int| 0 <= x < v.memberships.len() implies v.groups.contains(#[trigger] v.memberships[x].group_key) by {
                            if x != i {
                                assert(v.memberships[x] == v0.memberships[x]);
                            }
                        }
                        assert forall|x: int| 0 <= x < v.memberships.len() implies v.memberships[x].join_count >= 1 by {
                            if x != i {
                                assert(v.memberships[x] == v0.memberships[x]);
                            }
                        }
                    }
                    Ok((false, count, topics))
                }
            },
        }
    }

    /// The actors of group `key` that are members on this node (none when
    /// the group is unknown here).
    pub fn local_members(&self, key: &str) -> (r: Vec<String>)
        ensures
            crate::text::string_views(r@) == local_members_of(self@, key@),
    {
        let ghost ms = self@.memberships;
        let ghost sel = |m: MembershipView| m.group_key == key@;
        let ghost pick = |m: MembershipView| m.actor_id;
        let mut r: Vec<String> = Vec::new();
        let mut i: usize = 0;
        proof {
            reveal(Seq::filter);
            assert(ms.take(0) =~= Seq::<MembershipView>::empty());
            assert(crate::text::string_views(r@) =~= ms.take(0).filter(sel).map_values(pick));
        }
        while i < self.memberships.len()
            invariant
                ms == self@.memberships,
                sel == (|m: MembershipView| m.group_key == key@),
                pick == (|m: MembershipView| m.actor_id),
                i <= self.memberships@.len(),
                crate::text::string_views(r@) == ms.take(i as int).filter(sel).map_values(pick),
            decreases self.memberships.len() - i,
        {
            proof {
                lemma_filter_take_step(ms, sel, i as int);
                assert(ms[i as int] == self.memberships@[i as int]@);
            }
            let ghost before = r@;
            if str_eq(self.memberships[i].group_key.as_str(), key) {
                r.push(owned(self.memberships[i].actor_id.as_str()));
                proof {
                    assert(crate::text::string_views(r@) =~= crate::text::string_views(before).push(ms[i as int].actor_id));
                    assert(ms.take(i + 1).filter(sel).map_values(pick)
                        =~= ms.take(i as int).filter(sel).map_values(pick).push(ms[i as int].actor_id));
                }
            }
            i = i + 1;
        }
        proof {
            assert(ms.take(ms.len() as int) =~= ms);
        }
        r
    }

    /// The topics of actor `actor` in group `key`, when it is a local member.
    pub fn member_topics(&self, key: &str, actor: &str) -> (r: Option<Vec<String>>)
        requires
            groups_wf(self@),
        ensures
            match membership_of(self@, key@, actor@) {
                Some(m) => r matches Some(t) && crate::text::string_views(t@) == m.topics,
                None => r.is_none(),
            },
    {
        match self.find_membership(key, actor) {
            Some(i) => {
                assert(self.memberships@[i as int]@ == self@.memberships[i as int]);
                Some(copy_strings(&self.memberships[i].topics))
            },
            None => None,
        }
    }
}

/// Dropping a group's memberships keeps the memberships well formed.
proof fn lemma_filter_memberships_wf(v: GroupsView, key: Seq<char>)
    requires
        groups_wf(v),
    ensures
        groups_wf(GroupsView { memberships: v.memberships.filter(outside_group(key)), ..v }),
{
    let f = v.memberships.filter(outside_group(key));
    assert forall|i: int| 0 <= i < f.len() implies v.memberships.contains(#[trigger] f[i]) by {
        assert(f.contains(f[i]));
        v.memberships.lemma_filter_contains_rev(outside_group(key), f[i]);
    }
    lemma_filter_unique_memberships(v.memberships, outside_group(key));
    assert forall|i: int| 0 <= i < f.len() implies f[i].join_count >= 1 && v.groups.contains(#[trigger] f[i].group_key) by {
        assert(v.memberships.contains(f[i]));
        let k = choose|k: int| 0 <= k < v.memberships.len() && v.memberships[k] == f[i];
        assert(v.groups.contains(v.memberships[k].group_key));
    }
}

/// Filtering keeps memberships distinct.
proof fn lemma_filter_unique_memberships(s: Seq<MembershipView>, p: spec_fn(MembershipView) -> bool)
    requires
        forall|i: int, j: int| 0 <= i < s.len() && 0 <= j < s.len() && i != j ==> !same_membership(s[i], s[j]),
    ensures
        forall|i: int, j: int| 0 <= i < s.filter(p).len() && 0 <= j < s.filter(p).len() && i != j
            ==> !same_membership(s.filter(p)[i], s.filter(p)[j]),
    decreases s.len(),
{
    reveal(Seq::filter);
    if s.len() > 0 {
        let rest = s.drop_last();
        assert forall|i: int, j: int| 0 <= i < rest.len() && 0 <= j < rest.len() && i != j
            implies !same_membership(rest[i], rest[j]) by {
            assert(rest[i] == s[i]);
            assert(rest[j] == s[j]);
        }
        lemma_filter_unique_memberships(rest, p);
        let f = rest.filter(p);
        if p(s.last()) {
            let g = f.push(s.last());
            assert forall|a: int, b: int| 0 <= a < g.len() && 0 <= b < g.len() && a != b
                implies !same_membership(g[a], g[b]) by {
                if a < f.len() && b < f.len() {
                    assert(g[a] == f[a]);
                    assert(g[b] == f[b]);
                } else {
                    let x = if a < f.len() { a } else { b };
                    assert(g[x] == f[x]);
                    assert(f.contains(f[x]));
                    rest.lemma_filter_contains_rev(p, f[x]);
                    let k = choose|k: int| 0 <= k < rest.len() && rest[k] == f[x];
                    assert(s[k] == rest[k]);
                    assert(!same_membership(s[k], s[s.len() - 1]));
                }
            }
        }
    }
}

// ============================================================================
// Publishing and errors
// ============================================================================

/// Member `actor` of group `key` receives a message on `topic`: a local
/// member receives it when subscribed to the topic or to all topics; a
/// member on another node always does (its topics are not known here).
pub open spec fn receives(v: GroupsView, key: Seq<char>, actor: Seq<char>, topic: Seq<char>) -> bool {
    match membership_of(v, key, actor) {
        Some(m) => m.topics.len() == 0 || m.topics.contains(topic),
        None => true,
    }
}

/// The recipients among `members` of a message to group `key`: all of them
/// without a topic or when the group is not known locally, else those that
/// receive the topic.
pub open spec fn recipients_of(v: GroupsView, key: Seq<char>, members: Seq<Seq<char>>, topic: Option<Seq<char>>) -> Seq<Seq<char>> {
    match topic {
        Some(t) => if v.groups.contains(key) {
            members.filter(|a: Seq<char>| receives(v, key, a, t))
        } else {
            members
        },
        None => members,
    }
}

impl LocalGroups {
    /// The recipients among `members` of a message to group `key` on `topic`.
    pub fn publish_recipients(&self, key: &str, members: Vec<String>, topic: Option<&str>) -> (r: Vec<String>)
        requires
            groups_wf(self@),
        ensures
            crate::text::string_views(r@) == recipients_of(self@, key@, crate::text::string_views(members@),
                match topic { Some(t) => Some(t@), None => None }),
    {
        let t = match topic {
            Some(t) => t,
            None => return members,
        };
        if self.find_group(key).is_none() {
            return members;
        }
        let ghost mv = crate::text::string_views(members@);
        let ghost sel = |a: Seq<char>| receives(self@, key@, a, t@);
        let mut r: Vec<String> = Vec::new();
        let mut i: usize = 0;
        proof {
            reveal(Seq::filter);
            assert(mv.take(0) =~= Seq::<Seq<char>>::empty());
            assert(crate::text::string_views(r@) =~= Seq::<Seq<char>>::empty());
        }
        while i < members.len()
            invariant
                groups_wf(self@),
                mv == crate::text::string_views(members@),
                sel == (|a: Seq<char>| receives(self@, key@, a, t@)),
                i <= members@.len(),
                crate::text::string_views(r@) == mv.take(i as int).filter(sel),
            decreases members.len() - i,
        {
            proof {
                lemma_filter_take_step(mv, sel, i as int);
            }
            let wanted = match self.member_topics(key, members[i].as_str()) {
                Some(topics) => {
                    let mut hit = false;
                    let mut j: usize = 0;
                    while j < topics.len()
                        invariant
                            j <= topics@.len(),
                            hit == exists|k: int| 0 <= k < j && topics@[k]@ == t@,
                        decreases topics.len() - j,
                    {
                        if str_eq(topics[j].as_str(), t) {
                            hit = true;
                        }
                        j = j + 1;
                    }
                    proof {
                        let tv = crate::text::string_views(topics@);
                        if hit {
                            let k = choose|k: int| 0 <= k < j && topics@[k]@ == t@;
                            assert(tv[k] == t@);
                        } else {
                            assert forall|k: int| 0 <= k < tv.len() implies tv[k] != t@ by {
                                assert(tv[k] == topics@[k]@);
                            }
                        }
                    }
                    topics.len() == 0 || hit
                },
                None => true,
            };
            assert(wanted == sel(mv[i as int]));
            let ghost before = r@;
            if wanted {
                r.push(owned(members[i].as_str()));
                proof {
                    assert(crate::text::string_views(r@) =~= crate::text::string_views(before).push(mv[i as int]));
                }
            }
            i = i + 1;
        }
        proof {
            assert(mv.take(mv.len() as int) =~= mv);
        }
        r
    }
}

/// The error for creating a group that exists: `Group already exists: g`.
pub fn group_exists_error(group_name: &str) -> (s: String)
    ensures
        s@ == "Group already exists: "@ + group_name@,
{
    concat("Group already exists: ", group_name)
}

/// The error for a group that does not exist: `Group not found: g`.
pub fn group_not_found_error(group_name: &str) -> (s: String)
    ensures
        s@ == "Group not found: "@ + group_name@,
{
    concat("Group not found: ", group_name)
}

/// The error for leaving a group one is not in: `Actor a not in group g`.
pub fn not_member_error(actor_id: &str, group_name: &str) -> (s: String)
    ensures
        s@ == "Actor "@ + actor_id@ + " not in group "@ + group_name@,
{
    let mut s = concat("Actor ", actor_id);
    s.append(" not in group ");
    s.append(group_name);
    s
}

/// The message of a failed local leave of `actor_id` from `group_name`.
pub fn leave_error_message(e: &LeaveError, actor_id: &str, group_name: &str) -> (s: String)
    ensures
        s@ == match e {
            LeaveError::GroupNotFound => "Group not found: "@ + group_name@,
            LeaveError::NotMember => "Actor "@ + actor_id@ + " not in group "@ + group_name@,
        },
{
    match e {
        LeaveError::GroupNotFound => group_not_found_error(group_name),
        LeaveError::NotMember => not_member_error(actor_id, group_name),
    }
}

/// Requests are refused while the node shuts down.
pub fn check_accepting_requests(shutdown_requested: bool) -> (r: Result<(), String>)
    ensures
        shutdown_requested ==> (r matches Err(m) && m@ == "Service is shutting down"@),
        !shutdown_requested ==> r is Ok,
{
    if shutdown_requested {
        Err(owned("Service is shutting down"))
    } else {
        Ok(())
    }
}

/// How a failed group request is answered.
pub enum GroupStatus {
    NotFound(String),
    AlreadyExists(String),
    Unavailable(String),
    PermissionDenied(String),
    Internal(String),
}

/// The kind of answer for a failure message, by the words it contains:
/// 0 not found, 1 already exists, 2 unavailable, 3 permission denied,
/// 4 internal.
pub open spec fn group_status_kind(msg: Seq<char>) -> int {
    if contains_seq(msg, "not found"@) || contains_seq(msg, "not in group"@) {
        0
    } else if contains_seq(msg, "already exists"@) {
        1
    } else if contains_seq(msg, "shutting down"@) {
        2
    } else if contains_seq(msg, "permission"@) || contains_seq(msg, "unauthorized"@) {
        3
    } else {
        4
    }
}

/// The answer to a group request that failed with `message`; the message is
/// passed on.
pub fn group_error_status(message: &str) -> (s: GroupStatus)
    ensures
        match s {
            GroupStatus::NotFound(m) => group_status_kind(message@) == 0 && m@ == message@,
            GroupStatus::AlreadyExists(m) => group_status_kind(message@) == 1 && m@ == message@,
            GroupStatus::Unavailable(m) => group_status_kind(message@) == 2 && m@ == message@,
            GroupStatus::PermissionDenied(m) => group_status_kind(message@) == 3 && m@ == message@,
            GroupStatus::Internal(m) => group_status_kind(message@) == 4 && m@ == message@,
        },
{
    let m = owned(message);
    if contains_str(message, "not found") || contains_str(message, "not in group") {
        GroupStatus::NotFound(m)
    } else if contains_str(message, "already exists") {
        GroupStatus::AlreadyExists(m)
    } else if contains_str(message, "shutting down") {
        GroupStatus::Unavailable(m)
    } else if contains_str(message, "permission") || contains_str(message, "unauthorized") {
        GroupStatus::PermissionDenied(m)
    } else {
        GroupStatus::Internal(m)
    }
}

// ============================================================================
// Laws
// ============================================================================

/// No two memberships of the same actor in the same group.
pub open spec fn memberships_distinct(ms: Seq<MembershipView>) -> bool {
    forall|i: int, j: int| 0 <= i < ms.len() && 0 <= j < ms.len() && i != j ==> !same_membership(ms[i], ms[j])
}

/// In distinct memberships, the one at `p` is found at `p`.
proof fn lemma_membership_at(ms: Seq<MembershipView>, key: Seq<char>, actor: Seq<char>, p: int)
    requires
        memberships_distinct(ms),
        0 <= p < ms.len(),
        ms[p].group_key == key,
        ms[p].actor_id == actor,
    ensures
        is_member(ms, key, actor),
        membership_pos(ms, key, actor) == p,
{
    assert(is_member(ms, key, actor));
    let q = membership_pos(ms, key, actor);
    if q != p {
        assert(same_membership(ms[q], ms[p]));
    }
}

/// Joining and then leaving a group leaves the actor's join count as it
/// was; an actor that was not a member is not one afterwards.
pub proof fn lemma_join_then_leave_restores(v: GroupsView, key: Seq<char>, actor: Seq<char>, topics: Seq<Seq<char>>)
    requires
        groups_wf(v),
        membership_of(v, key, actor) matches Some(m) ==> m.join_count < i32::MAX,
    ensures
        ({
            let w = after_leave(after_join(v, key, actor, topics), key, actor);
            match membership_of(v, key, actor) {
                Some(m) => membership_of(w, key, actor) matches Some(n) && n.join_count == m.join_count
                    && n.group_key == key && n.actor_id == actor,
                None => membership_of(w, key, actor).is_none(),
            }
        }),
{
    let j = after_join(v, key, actor, topics);
    let ms = v.memberships;
    match membership_of(v, key, actor) {
        Some(m) => {
            let p = membership_pos(ms, key, actor);
            let js = j.memberships;
            assert(js[p].group_key == key && js[p].actor_id == actor);
            assert(memberships_distinct(js)) by {
                assert forall|a: int, b: int| 0 <= a < js.len() && 0 <= b < js.len() && a != b
                    implies !same_membership(js[a], js[b]) by {
                    assert(!same_membership(ms[a], ms[b]));
                }
            }
            lemma_membership_at(js, key, actor, p);
            let w = after_leave(j, key, actor);
            let ws = w.memberships;
            assert(ws[p].group_key == key && ws[p].actor_id == actor);
            assert(memberships_distinct(ws)) by {
                assert forall|a: int, b: int| 0 <= a < ws.len() && 0 <= b < ws.len() && a != b
                    implies !same_membership(ws[a], ws[b]) by {
                    assert(!same_membership(js[a], js[b]));
                }
            }
            lemma_membership_at(ws, key, actor, p);
        },
        None => {
            let n = ms.len() as int;
            let js = j.memberships;
            assert(js[n].group_key == key && js[n].actor_id == actor);
            assert(memberships_distinct(js)) by {
                assert forall|a: int, b: int| 0 <= a < js.len() && 0 <= b < js.len() && a != b
                    implies !same_membership(js[a], js[b]) by {
                    if a < n && b < n {
                        assert(!same_membership(ms[a], ms[b]));
                    } else if a < n {
                        assert(js[a] == ms[a]);
                        if same_membership(js[a], js[b]) {
                            assert(is_member(ms, key, actor));
                        }
                    } else if b < n {
                        assert(js[b] == ms[b]);
                        if same_membership(js[a], js[b]) {
                            assert(is_member(ms, key, actor));
                        }
                    }
                }
            }
            lemma_membership_at(js, key, actor, n);
            let w = after_leave(j, key, actor);
            assert(w.memberships =~= ms);
        },
    }
}

/// A member that joined once is gone after one leave.
pub proof fn lemma_last_leave_ends_membership(v: GroupsView, key: Seq<char>, actor: Seq<char>)
    requires
        groups_wf(v),
        membership_of(v, key, actor) matches Some(m) && m.join_count == 1,
    ensures
        membership_of(after_leave(v, key, actor), key, actor).is_none(),
{
    let ms = v.memberships;
    let p = membership_pos(ms, key, actor);
    let ws = after_leave(v, key, actor).memberships;
    assert(ws =~= ms.remove(p));
    if is_member(ws, key, actor) {
        let q = membership_pos(ws, key, actor);
        let q0 = if q < p { q } else { q + 1 };
        assert(ws[q] == ms[q0]);
        assert(same_membership(ms[q0], ms[p]));
    }
}

/// Joining or leaving one group leaves the memberships of other groups as
/// they were.
pub proof fn lemma_other_groups_unaffected(
    v: GroupsView,
    key: Seq<char>,
    actor: Seq<char>,
    topics: Seq<Seq<char>>,
    other_key: Seq<char>,
    other_actor: Seq<char>,
)
    requires
        groups_wf(v),
        other_key != key,
    ensures
        membership_of(after_join(v, key, actor, topics), other_key, other_actor) == membership_of(v, other_key, other_actor),
        membership_of(after_leave(v, key, actor), other_key, other_actor) == membership_of(v, other_key, other_actor),
{
    let ms = v.memberships;
    let js = after_join(v, key, actor, topics).memberships;
    let ls = after_leave(v, key, actor).memberships;
    if is_member(ms, other_key, other_actor) {
        let o = membership_pos(ms, other_key, other_actor);
        assert(memberships_distinct(js)) by {
            assert forall|a: int, b: int| 0 <= a < js.len() && 0 <= b < js.len() && a != b
                implies !same_membership(js[a], js[b]) by {
                if a < ms.len() && b < ms.len() {
                    assert(!same_membership(ms[a], ms[b]));
                } else if a < ms.len() {
                    if same_membership(js[a], js[b]) {
                        assert(js[a] == ms[a]);
                        assert(is_member(ms, key, actor));
                    }
                } else if b < ms.len() {
                    if same_membership(js[a], js[b]) {
                        assert(js[b] == ms[b]);
                        assert(is_member(ms, key, actor));
                    }
                }
            }
        }
        assert(js[o] == ms[o]);
        lemma_membership_at(js, other_key, other_actor, o);
        if is_member(ms, key, actor) {
            let p = membership_pos(ms, key, actor);
            assert(o != p);
            if ms[p].join_count <= 1 {
                let o2 = if o < p { o } else { o - 1 };
                assert(ls[o2] == ms[o]);
                assert(memberships_distinct(ls)) by {
                    assert forall|a: int, b: int| 0 <= a < ls.len() && 0 <= b < ls.len() && a != b
                        implies !same_membership(ls[a], ls[b]) by {
                        let a0 = if a < p { a } else { a + 1 };
                        let b0 = if b < p { b } else { b + 1 };
                        assert(!same_membership(ms[a0], ms[b0]));
                    }
                }
                lemma_membership_at(ls, other_key, other_actor, o2);
            } else {
                assert(ls[o] == ms[o]);
                assert(memberships_distinct(ls)) by {
                    assert forall|a: int, b: int| 0 <= a < ls.len() && 0 <= b < ls.len() && a != b
                        implies !same_membership(ls[a], ls[b]) by {
                        assert(!same_membership(ms[a], ms[b]));
                    }
                }
                lemma_membership_at(ls, other_key, other_actor, o);
            }
        }
    } else {
        if is_member(js, other_key, other_actor) {
            let q = membership_pos(js, other_key, other_actor);
            if q < ms.len() {
                assert(js[q].group_key == ms[q].group_key && js[q].actor_id == ms[q].actor_id);
            }
        }
        if is_member(ls, other_key, other_actor) {
            let q = membership_pos(ls, other_key, other_actor);
            if is_member(ms, key, actor) {
                let p = membership_pos(ms, key, actor);
                if ms[p].join_count <= 1 {
                    let q0 = if q < p { q } else { q + 1 };
                    assert(ls[q] == ms[q0]);
                } else {
                    assert(ls[q].group_key == ms[q].group_key && ls[q].actor_id == ms[q].actor_id);
                }
            }
        }
    }
}


/// The groups after actor `actor` joined group `key` `k` times.
pub open spec fn joined_times(v: GroupsView, key: Seq<char>, actor: Seq<char>, topics: Seq<Seq<char>>, k: nat) -> GroupsView
    decreases k,
{
    if k == 0 { v } else { after_join(joined_times(v, key, actor, topics, (k - 1) as nat), key, actor, topics) }
}

/// The groups after actor `actor` left group `key` `k` times.
pub open spec fn left_times(v: GroupsView, key: Seq<char>, actor: Seq<char>, k: nat) -> GroupsView
    decreases k,
{
    if k == 0 { v } else { after_leave(left_times(v, key, actor, (k - 1) as nat), key, actor) }
}

/// One join keeps memberships distinct and counts one more join.
proof fn lemma_join_step(v: GroupsView, key: Seq<char>, actor: Seq<char>, topics: Seq<Seq<char>>)
    requires
        memberships_distinct(v.memberships),
        membership_of(v, key, actor) matches Some(m) ==> m.join_count < i32::MAX,
    ensures
        memberships_distinct(after_join(v, key, actor, topics).memberships),
        membership_of(after_join(v, key, actor, topics), key, actor) matches Some(n)
            && n.join_count == (match membership_of(v, key, actor) { Some(m) => m.join_count + 1, None => 1 }),
{
    let ms = v.memberships;
    let js = after_join(v, key, actor, topics).memberships;
    match membership_of(v, key, actor) {
        Some(m) => {
            let p = membership_pos(ms, key, actor);
            assert(js[p].group_key == key && js[p].actor_id == actor);
            assert(memberships_distinct(js)) by {
                assert forall|a: int, b: int| 0 <= a < js.len() && 0 <= b < js.len() && a != b
                    implies !same_membership(js[a], js[b]) by {
                    assert(!same_membership(ms[a], ms[b]));
                }
            }
            lemma_membership_at(js, key, actor, p);
        },
        None => {
            let n = ms.len() as int;
            assert(js[n].group_key == key && js[n].actor_id == actor);
            assert(memberships_distinct(js)) by {
                assert forall|a: int, b: int| 0 <= a < js.len() && 0 <= b < js.len() && a != b
                    implies !same_membership(js[a], js[b]) by {
                    if a < n && b < n {
                        assert(!same_membership(ms[a], ms[b]));
                    } else if a < n {
                        assert(js[a] == ms[a]);
                        if same_membership(js[a], js[b]) {
                            assert(is_member(ms, key, actor));
                        }
                    } else if b < n {
                        assert(js[b] == ms[b]);
                        if same_membership(js[a], js[b]) {
                            assert(is_member(ms, key, actor));
                        }
                    }
                }
            }
            lemma_membership_at(js, key, actor, n);
        },
    }
}

/// One leave of a member keeps memberships distinct and counts one join
/// less, ending the membership at the last one.
proof fn lemma_leave_step(v: GroupsView, key: Seq<char>, actor: Seq<char>)
    requires
        memberships_distinct(v.memberships),
        membership_of(v, key, actor) matches Some(m) && m.join_count >= 1,
    ensures
        memberships_distinct(after_leave(v, key, actor).memberships),
        membership_of(v, key, actor) matches Some(m) && (if m.join_count <= 1 {
            membership_of(after_leave(v, key, actor), key, actor) is None
        } else {
            membership_of(after_leave(v, key, actor), key, actor) matches Some(n) && n.join_count == m.join_count - 1
        }),
{
    let ms = v.memberships;
    let p = membership_pos(ms, key, actor);
    let m = ms[p];
    let ws = after_leave(v, key, actor).memberships;
    if m.join_count <= 1 {
        assert(ws =~= ms.remove(p));
        assert(memberships_distinct(ws)) by {
            assert forall|a: int, b: int| 0 <= a < ws.len() && 0 <= b < ws.len() && a != b
                implies !same_membership(ws[a], ws[b]) by {
                let a0 = if a < p { a } else { a + 1 };
                let b0 = if b < p { b } else { b + 1 };
                assert(ws[a] == ms[a0] && ws[b] == ms[b0]);
            }
        }
        if is_member(ws, key, actor) {
            let q = membership_pos(ws, key, actor);
            let q0 = if q < p { q } else { q + 1 };
            assert(ws[q] == ms[q0]);
            assert(same_membership(ms[q0], ms[p]));
        }
    } else {
        assert(ws[p].group_key == key && ws[p].actor_id == actor);
        assert(memberships_distinct(ws)) by {
            assert forall|a: int, b: int| 0 <= a < ws.len() && 0 <= b < ws.len() && a != b
                implies !same_membership(ws[a], ws[b]) by {
                assert(!same_membership(ms[a], ms[b]));
            }
        }
        lemma_membership_at(ws, key, actor, p);
    }
}

/// `i` joins of a non-member make it a member joined `i` times.
proof fn lemma_joins_count(v: GroupsView, key: Seq<char>, actor: Seq<char>, topics: Seq<Seq<char>>, i: nat)
    requires
        memberships_distinct(v.memberships),
        membership_of(v, key, actor) is None,
        i < i32::MAX,
    ensures
        memberships_distinct(joined_times(v, key, actor, topics, i).memberships),
        i == 0 ==> membership_of(joined_times(v, key, actor, topics, i), key, actor) is None,
        i > 0 ==> (membership_of(joined_times(v, key, actor, topics, i), key, actor) matches Some(m) && m.join_count == i),
    decreases i,
{
    if i > 0 {
        lemma_joins_count(v, key, actor, topics, (i - 1) as nat);
        lemma_join_step(joined_times(v, key, actor, topics, (i - 1) as nat), key, actor, topics);
    }
}

/// `i` leaves of a member joined `c` times, for `i <= c`, leave it joined
/// `c - i` times, and not a member at `i == c`.
proof fn lemma_leaves_count(w: GroupsView, key: Seq<char>, actor: Seq<char>, c: int, i: nat)
    requires
        memberships_distinct(w.memberships),
        membership_of(w, key, actor) matches Some(m) && m.join_count == c,
        1 <= c,
        i <= c,
    ensures
        memberships_distinct(left_times(w, key, actor, i).memberships),
        i < c ==> (membership_of(left_times(w, key, actor, i), key, actor) matches Some(m) && m.join_count == c - i),
        i == c ==> membership_of(left_times(w, key, actor, i), key, actor) is None,
    decreases i,
{
    if i > 0 {
        lemma_leaves_count(w, key, actor, c, (i - 1) as nat);
        lemma_leave_step(left_times(w, key, actor, (i - 1) as nat), key, actor);
    }
}

/// An actor that joins a group `k` times (and was not a member) stays a
/// member through the first `k - 1` leaves, its join count going down by one
/// each time; the `k`-th leave ends its membership.  (A further leave is
/// then refused as "not a member", see [`LocalGroups::leave`].)
pub proof fn lemma_k_joins_then_k_leaves(v: GroupsView, key: Seq<char>, actor: Seq<char>, topics: Seq<Seq<char>>, k: nat)
    requires
        groups_wf(v),
        membership_of(v, key, actor) is None,
        1 <= k < i32::MAX,
    ensures
        membership_of(joined_times(v, key, actor, topics, k), key, actor) matches Some(m) && m.join_count == k,
        forall|i: nat| i < k ==> (#[trigger] membership_of(left_times(joined_times(v, key, actor, topics, k), key, actor, i), key, actor)
            matches Some(m) && m.join_count == k - i),
        membership_of(left_times(joined_times(v, key, actor, topics, k), key, actor, k), key, actor) is None,
{
    lemma_joins_count(v, key, actor, topics, k);
    let w = joined_times(v, key, actor, topics, k);
    assert forall|i: nat| i < k implies (#[trigger] membership_of(left_times(w, key, actor, i), key, actor)
        matches Some(m) && m.join_count == k - i) by {
        lemma_leaves_count(w, key, actor, k as int, i);
    }
    lemma_leaves_count(w, key, actor, k as int, k);
}

} // verus!
