//! Which nodes a node listing shows.  Registrations come from several
//! sources in order of precedence; the first registration of each node ID
//! is kept; of registrations that share an address, a concrete node ID is
//! preferred over a seed placeholder; the result is ordered by node ID and
//! cut to the page size.

use vstd::prelude::*;

use crate::node_registry::{NodeRegistration, RegistrationView, begins_with, unknown_prefix};
use crate::process_groups::{lemma_lex_transitive, lemma_lex_trichotomy, lex_lt};
use crate::text::str_eq;

verus! {

/// A registration offered for a listing, with the canonical key of its
/// address (equal keys name the same node address).
#[derive(Debug)]
pub struct ListedNode {
    pub registration: NodeRegistration,
    pub address_key: String,
}

/// The value of a [`ListedNode`].
pub struct ListedView {
    pub registration: RegistrationView,
    pub address_key: Seq<char>,
}

impl View for ListedNode {
    type V = ListedView;

    open spec fn view(&self) -> ListedView {
        ListedView { registration: self.registration@, address_key: self.address_key@ }
    }
}

/// The views of a list of offered registrations.
pub open spec fn listed_views(v: Seq<ListedNode>) -> Seq<ListedView> {
    v.map_values(|n: ListedNode| n@)
}

/// The node ID of an offered registration.
pub open spec fn id_of(n: ListedView) -> Seq<char> {
    n.registration.node_id
}

/// A seed placeholder: its node ID is not known yet.
pub open spec fn is_placeholder(n: ListedView) -> bool {
    begins_with(id_of(n), unknown_prefix())
}

/// `s` holds a registration of node `id`.
pub open spec fn has_id(s: Seq<ListedView>, id: Seq<char>) -> bool {
    exists|i: int| 0 <= i < s.len() && id_of(s[i]) == id
}

/// `s` holds a registration with address key `k`.
pub open spec fn has_key(s: Seq<ListedView>, k: Seq<char>) -> bool {
    exists|i: int| 0 <= i < s.len() && s[i].address_key == k
}

/// The position of the registration with address key `k` in `s`.
pub open spec fn key_pos(s: Seq<ListedView>, k: Seq<char>) -> int {
    choose|i: int| 0 <= i < s.len() && s[i].address_key == k
}

/// The first registration of each node ID, in order.
pub open spec fn first_per_id(s: Seq<ListedView>) -> Seq<ListedView>
    decreases s.len(),
{
    if s.len() == 0 {
        Seq::empty()
    } else {
        let r = first_per_id(s.drop_last());
        if has_id(r, id_of(s.last())) { r } else { r.push(s.last()) }
    }
}

/// One registration per address: a later registration replaces an earlier
/// one with the same address only when it replaces a placeholder by a
/// concrete node ID.
pub open spec fn one_per_address(s: Seq<ListedView>) -> Seq<ListedView>
    decreases s.len(),
{
    if s.len() == 0 {
        Seq::empty()
    } else {
        let r = one_per_address(s.drop_last());
        let x = s.last();
        if has_key(r, x.address_key) {
            let p = key_pos(r, x.address_key);
            if is_placeholder(r[p]) && !is_placeholder(x) { r.update(p, x) } else { r }
        } else {
            r.push(x)
        }
    }
}

/// The registrations a listing chooses from.
pub open spec fn listing_pool(s: Seq<ListedView>) -> Seq<ListedView> {
    one_per_address(first_per_id(s))
}

/// How many registrations a page shows: all of them for page size 0.
pub open spec fn page_limit(page_size: u32, n: nat) -> nat {
    if page_size == 0 || page_size as nat > n { n } else { page_size as nat }
}

/// Node IDs strictly increase along `s`.
pub open spec fn ids_increasing(s: Seq<RegistrationView>) -> bool {
    forall|i: int, j: int| 0 <= i < j < s.len() ==> lex_lt(s[i].node_id, s[j].node_id)
}

/// No two registrations of `s` share a node ID.
pub open spec fn ids_distinct(s: Seq<ListedView>) -> bool {
    forall|i: int, j: int| 0 <= i < s.len() && 0 <= j < s.len() && i != j ==> id_of(s[i]) != id_of(s[j])
}

/// No two registrations of `s` share an address key.
pub open spec fn keys_distinct(s: Seq<ListedView>) -> bool {
    forall|i: int, j: int| 0 <= i < s.len() && 0 <= j < s.len() && i != j ==> s[i].address_key != s[j].address_key
}

/// The registrations of a sequence of offered ones.
pub open spec fn registrations_of(s: Seq<ListedView>) -> Seq<RegistrationView> {
    s.map_values(|n: ListedView| n.registration)
}

// ============================================================================
// Building the pool
// ============================================================================

/// `first_per_id` keeps node IDs distinct.
proof fn lemma_first_per_id_distinct(s: Seq<ListedView>)
    ensures
        ids_distinct(first_per_id(s)),
        forall|i: int| 0 <= i < first_per_id(s).len() ==> s.contains(#[trigger] first_per_id(s)[i]),
    decreases s.len(),
{
    if s.len() > 0 {
        lemma_first_per_id_distinct(s.drop_last());
        let r = first_per_id(s.drop_last());
        assert forall|i: int| 0 <= i < first_per_id(s).len() implies s.contains(#[trigger] first_per_id(s)[i]) by {
            if i < r.len() {
                assert(s.drop_last().contains(r[i]));
                let k = choose|k: int| 0 <= k < s.drop_last().len() && s.drop_last()[k] == r[i];
                assert(s[k] == r[i]);
            } else {
                assert(first_per_id(s)[i] == s[s.len() - 1]);
            }
        }
        if !has_id(r, id_of(s.last())) {
            let f = r.push(s.last());
            assert forall|i: int, j: int| 0 <= i < f.len() && 0 <= j < f.len() && i != j implies id_of(f[i]) != id_of(f[j]) by {
                if i < r.len() && j < r.len() {
                } else if i < r.len() {
                    assert(f[i] == r[i]);
                } else {
                    assert(f[j] == r[j]);
                }
            }
        }
    }
}

/// `one_per_address` keeps address keys distinct, and takes its elements
/// from its input.
proof fn lemma_one_per_address_shape(s: Seq<ListedView>)
    ensures
        keys_distinct(one_per_address(s)),
        forall|i: int| 0 <= i < one_per_address(s).len() ==> s.contains(#[trigger] one_per_address(s)[i]),
    decreases s.len(),
{
    if s.len() > 0 {
        lemma_one_per_address_shape(s.drop_last());
        let r = one_per_address(s.drop_last());
        let x = s.last();
        let out = one_per_address(s);
        assert forall|i: int| 0 <= i < out.len() implies s.contains(#[trigger] out[i]) by {
            if out[i] == x {
                assert(s[s.len() - 1] == x);
            } else {
                assert(i < r.len());
                assert(out[i] == r[i]);
                assert(s.drop_last().contains(r[i]));
                let k = choose|k: int| 0 <= k < s.drop_last().len() && s.drop_last()[k] == r[i];
                assert(s[k] == r[i]);
            }
        }
        if has_key(r, x.address_key) {
            let p = key_pos(r, x.address_key);
            assert forall|i: int, j: int| 0 <= i < out.len() && 0 <= j < out.len() && i != j
                implies out[i].address_key != out[j].address_key by {
                assert(out[i].address_key == r[i].address_key);
                assert(out[j].address_key == r[j].address_key);
            }
        } else {
            assert forall|i: int, j: int| 0 <= i < out.len() && 0 <= j < out.len() && i != j
                implies out[i].address_key != out[j].address_key by {
                if i < r.len() && j < r.len() {
                } else if i < r.len() {
                    assert(out[i] == r[i]);
                } else {
                    assert(out[j] == r[j]);
                }
            }
        }
    }
}

/// The pool has distinct node IDs.
proof fn lemma_pool_ids_distinct(s: Seq<ListedView>)
    ensures
        ids_distinct(listing_pool(s)),
        keys_distinct(listing_pool(s)),
{
    let d = first_per_id(s);
    lemma_first_per_id_distinct(s);
    lemma_one_per_address_shape(d);
    let p = listing_pool(s);
    assert forall|i: int, j: int| 0 <= i < p.len() && 0 <= j < p.len() && i != j implies id_of(p[i]) != id_of(p[j]) by {
        assert(d.contains(p[i]));
        assert(d.contains(p[j]));
        let a = choose|a: int| 0 <= a < d.len() && d[a] == p[i];
        let b = choose|b: int| 0 <= b < d.len() && d[b] == p[j];
        if id_of(p[i]) == id_of(p[j]) {
            assert(a == b);
            assert(p[i].address_key != p[j].address_key);
        }
    }
}

/// With distinct address keys, the registration at `q` is the one found by
/// its key.
proof fn lemma_key_pos_unique(t: Seq<ListedView>, q: int)
    requires
        keys_distinct(t),
        0 <= q < t.len(),
    ensures
        has_key(t, t[q].address_key),
        key_pos(t, t[q].address_key) == q,
{
    assert(t[q].address_key == t[q].address_key);
}

/// Every address of the input keeps a registration in `one_per_address`, and
/// a concrete node ID offered for an address is never given up for a
/// placeholder.
proof fn lemma_one_per_address_covers(d: Seq<ListedView>)
    ensures
        forall|j: int| 0 <= j < d.len() ==> has_key(one_per_address(d), (#[trigger] d[j]).address_key),
        forall|j: int| 0 <= j < d.len() && !is_placeholder(#[trigger] d[j]) ==>
            !is_placeholder(one_per_address(d)[key_pos(one_per_address(d), d[j].address_key)]),
    decreases d.len(),
{
    if d.len() > 0 {
        let rest = d.drop_last();
        let x = d.last();
        let r = one_per_address(rest);
        let out = one_per_address(d);
        lemma_one_per_address_covers(rest);
        lemma_one_per_address_shape(rest);
        lemma_one_per_address_shape(d);
        assert forall|j: int| 0 <= j < d.len() implies has_key(out, (#[trigger] d[j]).address_key)
            && (!is_placeholder(d[j]) ==> !is_placeholder(out[key_pos(out, d[j].address_key)])) by {
            let y = d[j];
            if j < d.len() - 1 {
                assert(y == rest[j]);
                let q = key_pos(r, y.address_key);
                assert(0 <= q < r.len() && r[q].address_key == y.address_key);
                assert(q < out.len() && out[q].address_key == y.address_key);
                lemma_key_pos_unique(out, q);
            } else {
                assert(y == x);
                if has_key(r, x.address_key) {
                    let p = key_pos(r, x.address_key);
                    assert(out[p].address_key == x.address_key);
                    lemma_key_pos_unique(out, p);
                } else {
                    assert(out[r.len() as int] == x);
                    lemma_key_pos_unique(out, r.len() as int);
                }
            }
        }
    }
}

/// The rules of the listing pool: no two registrations share a node ID or
/// an address key; each comes from the offered ones; and a placeholder is
/// kept for an address only when no concrete node ID among the first
/// registrations of each node ID has that address.
pub proof fn lemma_listing_pool_rules(s: Seq<ListedView>)
    ensures
        ids_distinct(listing_pool(s)),
        keys_distinct(listing_pool(s)),
        forall|i: int| 0 <= i < listing_pool(s).len() ==> s.contains(#[trigger] listing_pool(s)[i]),
        forall|i: int, j: int| 0 <= i < listing_pool(s).len() && 0 <= j < first_per_id(s).len()
            && is_placeholder(#[trigger] listing_pool(s)[i])
            && (#[trigger] first_per_id(s)[j]).address_key == listing_pool(s)[i].address_key
            ==> is_placeholder(first_per_id(s)[j]),
{
    let d = first_per_id(s);
    let p = listing_pool(s);
    lemma_pool_ids_distinct(s);
    lemma_first_per_id_distinct(s);
    lemma_one_per_address_shape(d);
    lemma_one_per_address_covers(d);
    assert forall|i: int| 0 <= i < p.len() implies s.contains(#[trigger] p[i]) by {
        assert(d.contains(p[i]));
        let a = choose|a: int| 0 <= a < d.len() && d[a] == p[i];
        assert(s.contains(d[a]));
    }
    assert forall|i: int, j: int| 0 <= i < p.len() && 0 <= j < d.len()
        && is_placeholder(#[trigger] p[i]) && (#[trigger] d[j]).address_key == p[i].address_key
        implies is_placeholder(d[j]) by {
        lemma_key_pos_unique(p, i);
    }
}

/// Whether `out` holds a registration of node `id`.
fn holds_id(out: &Vec<ListedNode>, id: &str) -> (b: bool)
    ensures
        b == has_id(listed_views(out@), id@),
{
    let mut i: usize = 0;
    while i < out.len()
        invariant
            i <= out@.len(),
            forall|j: int| 0 <= j < i ==> id_of(listed_views(out@)[j]) != id@,
        decreases out.len() - i,
    {
        if str_eq(out[i].registration.node_id.as_str(), id) {
            assert(id_of(listed_views(out@)[i as int]) == id@);
            return true;
        }
        i = i + 1;
    }
    false
}

/// The position of the registration with address key `k` in `out`, if any.
fn position_of_key(out: &Vec<ListedNode>, k: &str) -> (r: Option<usize>)
    requires
        keys_distinct(listed_views(out@)),
    ensures
        match r {
            Some(p) => has_key(listed_views(out@), k@) && key_pos(listed_views(out@), k@) == p && p < out@.len(),
            None => !has_key(listed_views(out@), k@),
        },
{
    let ghost v = listed_views(out@);
    let mut i: usize = 0;
    while i < out.len()
        invariant
            v == listed_views(out@),
            keys_distinct(v),
            i <= out@.len(),
            forall|j: int| 0 <= j < i ==> v[j].address_key != k@,
        decreases out.len() - i,
    {
        if str_eq(out[i].address_key.as_str(), k) {
            proof {
                assert(v[i as int].address_key == k@);
                assert(has_key(v, k@));
                let q = key_pos(v, k@);
                assert(v[q].address_key == k@);
            }
            return Some(i);
        }
        i = i + 1;
    }
    None
}

/// A copy of an offered registration.
pub(crate) fn copy_listed(n: &ListedNode) -> (r: ListedNode)
    ensures
        r@ == n@,
{
    ListedNode { registration: n.registration.clone(), address_key: n.address_key.clone() }
}

/// The registrations a listing chooses from.
pub fn build_listing_pool(candidates: &Vec<ListedNode>) -> (pool: Vec<ListedNode>)
    ensures
        listed_views(pool@) == listing_pool(listed_views(candidates@)),
{
    let ghost cv = listed_views(candidates@);
    let mut by_id: Vec<ListedNode> = Vec::new();
    let mut i: usize = 0;
    assert(cv.take(0) =~= Seq::<ListedView>::empty());
    assert(listed_views(by_id@) =~= Seq::<ListedView>::empty());
    while i < candidates.len()
        invariant
            cv == listed_views(candidates@),
            i <= candidates@.len(),
            listed_views(by_id@) == first_per_id(cv.take(i as int)),
        decreases candidates.len() - i,
    {
        proof {
            assert(cv.take(i + 1).drop_last() =~= cv.take(i as int));
            assert(cv.take(i + 1).last() == cv[i as int]);
        }
        if !holds_id(&by_id, candidates[i].registration.node_id.as_str()) {
            let ghost before = listed_views(by_id@);
            by_id.push(copy_listed(&candidates[i]));
            assert(listed_views(by_id@) =~= before.push(cv[i as int]));
        }
        i = i + 1;
    }
    assert(cv.take(cv.len() as int) =~= cv);
    one_per_address_of(&by_id)
}

/// One registration per address key: a later registration replaces an
/// earlier one under the same key only when it replaces a placeholder by a
/// concrete node ID; keys keep the order in which they first occur.
pub fn one_per_address_of(nodes: &Vec<ListedNode>) -> (pool: Vec<ListedNode>)
    ensures
        listed_views(pool@) == one_per_address(listed_views(nodes@)),
{
    let ghost d = listed_views(nodes@);
    let mut pool: Vec<ListedNode> = Vec::new();
    let mut j: usize = 0;
    assert(d.take(0) =~= Seq::<ListedView>::empty());
    assert(listed_views(pool@) =~= Seq::<ListedView>::empty());
    while j < nodes.len()
        invariant
            d == listed_views(nodes@),
            j <= nodes@.len(),
            listed_views(pool@) == one_per_address(d.take(j as int)),
        decreases nodes.len() - j,
    {
        proof {
            assert(d.take(j + 1).drop_last() =~= d.take(j as int));
            assert(d.take(j + 1).last() == d[j as int]);
            lemma_one_per_address_shape(d.take(j as int));
        }
        let ghost before = listed_views(pool@);
        match position_of_key(&pool, nodes[j].address_key.as_str()) {
            Some(p) => {
                let existing_placeholder = crate::node_registry::NodeRegistry::is_unknown_node_id(pool[p].registration.node_id.as_str());
                let new_placeholder = crate::node_registry::NodeRegistry::is_unknown_node_id(nodes[j].registration.node_id.as_str());
                if existing_placeholder && !new_placeholder {
                    pool.set(p, copy_listed(&nodes[j]));
                    assert(listed_views(pool@) =~= before.update(p as int, d[j as int]));
                }
            },
            None => {
                pool.push(copy_listed(&nodes[j]));
                assert(listed_views(pool@) =~= before.push(d[j as int]));
            },
        }
        j = j + 1;
    }
    assert(d.take(d.len() as int) =~= d);
    pool
}

// ============================================================================
// Ordering and paging
// ============================================================================

/// Inserts `x` into `out`, kept in increasing order of node ID.
fn insert_by_id(out: &mut Vec<NodeRegistration>, x: NodeRegistration)
    requires
        ids_increasing(old(out)@.map_values(|r: NodeRegistration| r@)),
        forall|i: int| 0 <= i < old(out)@.len() ==> old(out)@[i]@.node_id != x@.node_id,
    ensures
        ids_increasing(final(out)@.map_values(|r: NodeRegistration| r@)),
        final(out)@.map_values(|r: NodeRegistration| r@).to_multiset()
            == old(out)@.map_values(|r: NodeRegistration| r@).to_multiset().insert(x@),
        final(out)@.len() == old(out)@.len() + 1,
{
    let ghost ov = out@.map_values(|r: NodeRegistration| r@);
    let ghost xv = x@;
    let mut i: usize = 0;
    while i < out.len() && str_lt_node(&out[i], &x)
        invariant
            ov == out@.map_values(|r: NodeRegistration| r@),
            ids_increasing(ov),
            forall|k: int| 0 <= k < ov.len() ==> ov[k].node_id != xv.node_id,
            xv == x@,
            i <= out@.len(),
            forall|k: int| 0 <= k < i ==> lex_lt(#[trigger] ov[k].node_id, xv.node_id),
        decreases out.len() - i,
    {
        i = i + 1;
    }
    proof {
        if i < ov.len() {
            assert(!lex_lt(ov[i as int].node_id, xv.node_id));
            lemma_lex_trichotomy(ov[i as int].node_id, xv.node_id);
        }
    }
    out.insert(i, x);
    proof {
        let nv = out@.map_values(|r: NodeRegistration| r@);
        assert(nv =~= ov.insert(i as int, xv));
        assert forall|a: int, b: int| 0 <= a < b < nv.len() implies lex_lt(nv[a].node_id, nv[b].node_id) by {
            if b < i {
            } else if a <= i {
                if b > i {
                    assert(nv[b] == ov[b - 1]);
                    assert(lex_lt(xv.node_id, ov[b - 1].node_id)) by {
                        if b - 1 > i {
                            assert(lex_lt(ov[i as int].node_id, ov[b - 1].node_id));
                            lemma_lex_transitive(xv.node_id, ov[i as int].node_id, ov[b - 1].node_id);
                        }
                    }
                    if a < i {
                        assert(lex_lt(ov[a].node_id, xv.node_id));
                        lemma_lex_transitive(nv[a].node_id, xv.node_id, nv[b].node_id);
                    }
                }
            } else {
                assert(nv[a] == ov[a - 1]);
                assert(nv[b] == ov[b - 1]);
            }
        }
        vstd::seq_lib::to_multiset_insert(ov, i as int, xv);
    }
}

/// `a`'s node ID comes before `b`'s.
fn str_lt_node(a: &NodeRegistration, b: &NodeRegistration) -> (r: bool)
    ensures
        r == lex_lt(a@.node_id, b@.node_id),
{
    crate::process_groups::str_lt(a.node_id.as_str(), b.node_id.as_str())
}

/// The registrations a node listing shows: the pool of `candidates` ordered
/// by node ID and cut to `page_size` (all of them for 0).
pub fn select_listed_nodes(candidates: &Vec<ListedNode>, page_size: u32) -> (r: Vec<NodeRegistration>)
    ensures
        ({
            let pool = registrations_of(listing_pool(listed_views(candidates@)));
            let rv = r@.map_values(|x: NodeRegistration| x@);
            &&& ids_increasing(rv)
            &&& rv.len() == page_limit(page_size, pool.len())
            &&& forall|i: int| 0 <= i < rv.len() ==> pool.contains(#[trigger] rv[i])
            &&& forall|x: RegistrationView| pool.contains(x) && !rv.contains(x) ==>
                    forall|i: int| 0 <= i < rv.len() ==> lex_lt(#[trigger] rv[i].node_id, x.node_id)
        }),
{
    let pool = build_listing_pool(candidates);
    let ghost pv = listed_views(pool@);
    let ghost regs = registrations_of(pv);
    proof {
        lemma_pool_ids_distinct(listed_views(candidates@));
    }
    let mut sorted: Vec<NodeRegistration> = Vec::new();
    let mut i: usize = 0;
    proof {
        assert(sorted@.map_values(|x: NodeRegistration| x@) =~= Seq::<RegistrationView>::empty());
        assert(regs.take(0) =~= Seq::<RegistrationView>::empty());
        assert(sorted@.map_values(|x: NodeRegistration| x@).to_multiset() =~= regs.take(0).to_multiset());
    }
    while i < pool.len()
        invariant
            pv == listed_views(pool@),
            regs == registrations_of(pv),
            ids_distinct(pv),
            i <= pool@.len(),
            ids_increasing(sorted@.map_values(|x: NodeRegistration| x@)),
            sorted@.map_values(|x: NodeRegistration| x@).to_multiset() == regs.take(i as int).to_multiset(),
            sorted@.len() == i,
        decreases pool.len() - i,
    {
        let ghost sv = sorted@.map_values(|x: NodeRegistration| x@);
        proof {
            assert forall|k: int| 0 <= k < sorted@.len() implies sorted@[k]@.node_id != regs[i as int].node_id by {
                assert(sv[k] == sorted@[k]@);
                assert(sv.contains(sv[k]));
                sv.to_multiset_ensures();
                regs.take(i as int).to_multiset_ensures();
                assert(sv.to_multiset().count(sv[k]) > 0);
                assert(regs.take(i as int).to_multiset().count(sv[k]) > 0);
                assert(regs.take(i as int).contains(sv[k]));
                let m = choose|m: int| 0 <= m < i && regs.take(i as int)[m] == sv[k];
                assert(regs[m] == sv[k]);
                assert(id_of(pv[m]) != id_of(pv[i as int]));
            }
            assert(regs.take(i + 1) =~= regs.take(i as int).push(regs[i as int]));
            regs.take(i as int).to_multiset_ensures();
        }
        insert_by_id(&mut sorted, pool[i].registration.clone());
        proof {
            assert(regs[i as int] == pool@[i as int].registration@);
        }
        i = i + 1;
    }
    proof {
        assert(regs.take(regs.len() as int) =~= regs);
    }
    let ghost full = sorted@.map_values(|x: NodeRegistration| x@);
    let limit: usize = if page_size == 0 || page_size as usize > sorted.len() { sorted.len() } else { page_size as usize };
    sorted.truncate(limit);
    proof {
        let rv = sorted@.map_values(|x: NodeRegistration| x@);
        full.to_multiset_ensures();
        regs.to_multiset_ensures();
        assert(rv =~= full.take(limit as int));
        assert forall|k: int| 0 <= k < rv.len() implies regs.contains(#[trigger] rv[k]) by {
            assert(full.contains(full[k]));
            assert(full.to_multiset().count(full[k]) > 0);
        }
        assert forall|x: RegistrationView| regs.contains(x) && !rv.contains(x) implies
            forall|k: int| 0 <= k < rv.len() ==> lex_lt(#[trigger] rv[k].node_id, x.node_id) by {
            assert(regs.to_multiset().count(x) > 0);
            assert(full.to_multiset().count(x) > 0);
            assert(full.contains(x));
            let m = choose|m: int| 0 <= m < full.len() && full[m] == x;
            assert forall|k: int| 0 <= k < rv.len() implies lex_lt(#[trigger] rv[k].node_id, x.node_id) by {
                if m < limit {
                    assert(rv[m] == x);
                } else {
                    assert(rv[k] == full[k]);
                }
            }
        }
    }
    sorted
}

} // verus!
