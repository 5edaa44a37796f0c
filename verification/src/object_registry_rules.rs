//! Answers of the object-registry service that do not depend on how the
//! registry stores its objects: heartbeats for objects that no longer exist,
//! the tally of a batch of heartbeats, and the number of registered objects
//! of each type.

use vstd::prelude::*;

use crate::accounts::RequestError;
use crate::node_directory::{reports_missing, reports_missing_object};
use crate::text::owned;

verus! {

/// The answer to a heartbeat, given what the registry made of it: accepted
/// when the registry took it; not accepted when the object does not exist;
/// an internal error carrying the registry's message otherwise.
pub fn heartbeat_answer(outcome: &Result<(), String>) -> (r: Result<bool, RequestError>)
    ensures
        match outcome {
            Ok(_) => r matches Ok(true),
            Err(e) => if reports_missing(e@) {
                r matches Ok(false)
            } else {
                r matches Err(RequestError::Internal(m)) && m@ == e@
            },
        },
{
    match outcome {
        Ok(_) => Ok(true),
        Err(e) => {
            if reports_missing_object(e.as_str()) {
                Ok(false)
            } else {
                Err(RequestError::Internal(owned(e.as_str())))
            }
        },
    }
}

/// How many entries of `s` are set.
pub open spec fn accepted_count(s: Seq<bool>) -> nat
    decreases s.len(),
{
    if s.len() == 0 {
        0
    } else {
        accepted_count(s.drop_last()) + if s.last() { 1nat } else { 0nat }
    }
}

/// The tally of a batch of heartbeats: how many were accepted and how many
/// were not.
pub fn tally_heartbeats(accepted: &Vec<bool>) -> (r: (i32, i32))
    requires
        accepted@.len() <= i32::MAX,
    ensures
        r.0 == accepted_count(accepted@),
        r.0 + r.1 == accepted@.len(),
{
    let mut success: i32 = 0;
    let mut failure: i32 = 0;
    let mut i: usize = 0;
    assert(accepted@.take(0) =~= Seq::<bool>::empty());
    while i < accepted.len()
        invariant
            accepted@.len() <= i32::MAX,
            i <= accepted@.len(),
            success == accepted_count(accepted@.take(i as int)),
            success + failure == i,
            success >= 0,
            failure >= 0,
        decreases accepted.len() - i,
    {
        proof {
            assert(accepted@.take(i + 1).drop_last() =~= accepted@.take(i as int));
        }
        if accepted[i] {
            success = success + 1;
        } else {
            failure = failure + 1;
        }
        i = i + 1;
    }
    assert(accepted@.take(accepted@.len() as int) =~= accepted@);
    (success, failure)
}

/// How often type `t` occurs in `s`.
pub open spec fn occurrences(s: Seq<i32>, t: i32) -> nat
    decreases s.len(),
{
    if s.len() == 0 {
        0
    } else {
        occurrences(s.drop_last(), t) + if s.last() == t { 1nat } else { 0nat }
    }
}

/// A type occurs at most as often as `s` is long.
proof fn lemma_occurrences_bounded(s: Seq<i32>, t: i32)
    ensures
        occurrences(s, t) <= s.len(),
    decreases s.len(),
{
    if s.len() > 0 {
        lemma_occurrences_bounded(s.drop_last(), t);
    }
}

/// `r` counts the types of `s`: each type of `s` once, with its number of
/// occurrences.
pub open spec fn counts_types(r: Seq<(i32, i64)>, s: Seq<i32>) -> bool {
    &&& forall|i: int| 0 <= i < r.len() ==> s.contains(#[trigger] r[i].0) && r[i].1 == occurrences(s, r[i].0)
    &&& forall|i: int, j: int| 0 <= i < j < r.len() ==> r[i].0 != r[j].0
    &&& forall|t: i32| s.contains(t) ==> exists|i: int| 0 <= i < r.len() && r[i].0 == t
}

/// The number of registered objects of each type that occurs among
/// `types`, in the order in which the types first occur.
pub fn object_type_counts(types: &Vec<i32>) -> (r: Vec<(i32, i64)>)
    requires
        types@.len() <= i64::MAX,
    ensures
        counts_types(r@, types@),
{
    let ghost s = types@;
    let mut r: Vec<(i32, i64)> = Vec::new();
    let mut k: usize = 0;
    assert(s.take(0) =~= Seq::<i32>::empty());
    while k < types.len()
        invariant
            s == types@,
            s.len() <= i64::MAX,
            k <= s.len(),
            counts_types(r@, s.take(k as int)),
        decreases types.len() - k,
    {
        let ghost before = s.take(k as int);
        let ghost after = s.take(k + 1);
        let t = types[k];
        proof {
            assert(after.drop_last() =~= before);
            assert(after.last() == t);
        }
        let mut p: usize = 0;
        while p < r.len() && r[p].0 != t
            invariant
                p <= r@.len(),
                forall|q: int| 0 <= q < p ==> r@[q].0 != t,
            decreases r.len() - p,
        {
            p = p + 1;
        }
        let ghost r0 = r@;
        if p < r.len() {
            proof {
                lemma_occurrences_bounded(before, t);
            }
            let n = r[p].1;
            r.set(p, (t, n + 1));
            proof {
                assert forall|i: int| 0 <= i < r@.len() implies after.contains(#[trigger] r@[i].0)
                    && r@[i].1 == occurrences(after, r@[i].0) by {
                    assert(before.contains(r0[i].0));
                    let w = choose|w: int| 0 <= w < before.len() && before[w] == r0[i].0;
                    assert(after[w] == before[w]);
                }
                assert forall|t2: i32| after.contains(t2) implies exists|i: int| 0 <= i < r@.len() && r@[i].0 == t2 by {
                    let w = choose|w: int| 0 <= w < after.len() && after[w] == t2;
                    if w < before.len() {
                        assert(before[w] == t2);
                        assert(before.contains(t2));
                        let i = choose|i: int| 0 <= i < r0.len() && r0[i].0 == t2;
                        assert(r@[i].0 == t2);
                    } else {
                        assert(r@[p as int].0 == t2);
                    }
                }
            }
        } else {
            r.push((t, 1));
            proof {
                assert(!before.contains(t)) by {
                    if before.contains(t) {
                        let i = choose|i: int| 0 <= i < r0.len() && r0[i].0 == t;
                        assert(r0[i].0 != t);
                    }
                }
                assert(occurrences(before, t) == 0) by {
                    if occurrences(before, t) > 0 {
                        lemma_counted_type_occurs(before, t);
                    }
                }
                assert forall|i: int| 0 <= i < r@.len() implies after.contains(#[trigger] r@[i].0)
                    && r@[i].1 == occurrences(after, r@[i].0) by {
                    if i < r0.len() {
                        assert(r@[i] == r0[i]);
                        assert(before.contains(r0[i].0));
                        let w = choose|w: int| 0 <= w < before.len() && before[w] == r0[i].0;
                        assert(after[w] == before[w]);
                    } else {
                        assert(after[before.len() as int] == t);
                    }
                }
                assert forall|t2: i32| after.contains(t2) implies exists|i: int| 0 <= i < r@.len() && r@[i].0 == t2 by {
                    let w = choose|w: int| 0 <= w < after.len() && after[w] == t2;
                    if w < before.len() {
                        assert(before[w] == t2);
                        assert(before.contains(t2));
                        let i = choose|i: int| 0 <= i < r0.len() && r0[i].0 == t2;
                        assert(r@[i].0 == t2);
                    } else {
                        assert(r@[r0.len() as int].0 == t2);
                    }
                }
            }
        }
        k = k + 1;
    }
    assert(s.take(s.len() as int) =~= s);
    r
}

/// A type counted at least once occurs in `s`.
proof fn lemma_counted_type_occurs(s: Seq<i32>, t: i32)
    requires
        occurrences(s, t) > 0,
    ensures
        s.contains(t),
    decreases s.len(),
{
    if s.last() != t {
        lemma_counted_type_occurs(s.drop_last(), t);
        let k = choose|k: int| 0 <= k < s.drop_last().len() && s.drop_last()[k] == t;
        assert(s[k] == t);
    } else {
        assert(s[s.len() - 1] == t);
    }
}

/// The tenant, namespace and administrator flag a request acts under: those
/// of its authenticated context, where the context names a tenant or a
/// namespace, else the ones in the request body; without an authenticated
/// context, the body's, and not as administrator.
pub open spec fn request_scope(
    auth: Option<(Seq<char>, Seq<char>, bool)>,
    body_tenant: Seq<char>,
    body_namespace: Seq<char>,
) -> (Seq<char>, Seq<char>, bool) {
    match auth {
        Some((t, n, admin)) => (
            if t.len() == 0 { body_tenant } else { t },
            if n.len() == 0 { body_namespace } else { n },
            admin,
        ),
        None => (body_tenant, body_namespace, false),
    }
}

/// The scope of a request, given the authenticated context (tenant,
/// namespace, administrator) when there is one.
pub fn ctx_from_request(auth: &Option<(String, String, bool)>, body_tenant_id: &str, body_namespace: &str) -> (r: (String, String, bool))
    ensures
        (r.0@, r.1@, r.2) == request_scope(
            match auth { Some(a) => Some((a.0@, a.1@, a.2)), None => None },
            body_tenant_id@,
            body_namespace@,
        ),
{
    match auth {
        Some((t, n, admin)) => {
            let tenant = if t.unicode_len() == 0 { owned(body_tenant_id) } else { owned(t.as_str()) };
            let namespace = if n.unicode_len() == 0 { owned(body_namespace) } else { owned(n.as_str()) };
            (tenant, namespace, *admin)
        },
        None => (owned(body_tenant_id), owned(body_namespace), false),
    }
}

} // verus!
