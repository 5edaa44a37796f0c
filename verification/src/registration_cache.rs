//! The node registry's cache of registrations: one entry per node ID, each
//! live until its expiry time, with counters of lookups answered from it
//! (hits) and lookups it could not answer (misses).

use vstd::prelude::*;

use crate::node_registry::{CachedNodeRegistration, NodeRegistration, RegistrationView, Timestamp};
use crate::swim_protocol::{wrap_add, wrapping_increase};
use crate::text::str_eq;
use crate::time::{Duration, Instant};

verus! {

/// A cache entry as a value: node ID, registration and expiry time.
pub struct CacheEntryView {
    pub node_id: Seq<char>,
    pub registration: RegistrationView,
    pub expires_at: Instant,
}

/// The value of a [`RegistrationCache`].
pub struct CacheView {
    pub entries: Seq<CacheEntryView>,
    pub ttl: Duration,
    pub hits: u64,
    pub misses: u64,
}

/// The registry's registration cache.
///
/// Entries are held in a vector kept unique by node ID rather than in a map
/// keyed by it: the key is text, and for a map keyed by `String` the
/// verifier has no model of the keys to prove these contracts against.
pub struct RegistrationCache {
    entries: Vec<CachedNodeRegistration>,
    ttl: Duration,
    hits: u64,
    misses: u64,
}

/// The value of a cached registration.
pub open spec fn entry_view(e: CachedNodeRegistration) -> CacheEntryView {
    CacheEntryView { node_id: e.registration@.node_id, registration: e.registration@, expires_at: e.expires_at }
}

impl View for RegistrationCache {
    type V = CacheView;

    closed spec fn view(&self) -> CacheView {
        CacheView {
            entries: self.entries@.map_values(|e: CachedNodeRegistration| entry_view(e)),
            ttl: self.ttl,
            hits: self.hits,
            misses: self.misses,
        }
    }
}

/// No two entries are for the same node.
pub open spec fn cache_wf(v: CacheView) -> bool {
    forall|i: int, j: int| 0 <= i < v.entries.len() && 0 <= j < v.entries.len() && i != j
        ==> v.entries[i].node_id != v.entries[j].node_id
}

/// The entry for node `id`, if any.
pub open spec fn cached(v: CacheView, id: Seq<char>) -> Option<CacheEntryView> {
    if exists|i: int| 0 <= i < v.entries.len() && v.entries[i].node_id == id {
        Some(v.entries[choose|i: int| 0 <= i < v.entries.len() && v.entries[i].node_id == id])
    } else {
        None
    }
}

/// An entry is live at `now` until its expiry time has passed.
pub open spec fn live(e: CacheEntryView, now: Instant) -> bool {
    now.nanos <= e.expires_at.nanos
}

/// The expiry time of an entry written at `now` with time to live `ttl`.
pub open spec fn expiry(now: Instant, ttl: Duration) -> Instant {
    Instant {
        nanos: if now.nanos + ttl.millis * 1_000_000 <= u128::MAX {
            (now.nanos + ttl.millis * 1_000_000) as u128
        } else {
            u128::MAX
        },
    }
}

/// In a well-formed cache, the entry at `i` is the one found for its node.
proof fn lemma_cached_at(v: CacheView, i: int)
    requires
        cache_wf(v),
        0 <= i < v.entries.len(),
    ensures
        cached(v, v.entries[i].node_id) == Some(v.entries[i]),
{
    let id = v.entries[i].node_id;
    let j = choose|j: int| 0 <= j < v.entries.len() && v.entries[j].node_id == id;
    assert(j == i);
}

/// The entries of `s` that are live at `now`, in order.
pub open spec fn live_only(s: Seq<CacheEntryView>, now: Instant) -> Seq<CacheEntryView>
    decreases s.len(),
{
    if s.len() == 0 {
        Seq::empty()
    } else {
        let r = live_only(s.drop_last(), now);
        if live(s.last(), now) { r.push(s.last()) } else { r }
    }
}

/// The live entries are those of `s` that are live.
proof fn lemma_live_only_members(s: Seq<CacheEntryView>, now: Instant)
    ensures
        forall|x: CacheEntryView| #[trigger] live_only(s, now).contains(x) <==> (s.contains(x) && live(x, now)),
    decreases s.len(),
{
    if s.len() > 0 {
        let d = s.drop_last();
        lemma_live_only_members(d, now);
        let r = live_only(d, now);
        assert forall|x: CacheEntryView| #[trigger] live_only(s, now).contains(x) <==> (s.contains(x) && live(x, now)) by {
            if live_only(s, now).contains(x) {
                let k = choose|k: int| 0 <= k < live_only(s, now).len() && live_only(s, now)[k] == x;
                if k < r.len() {
                    assert(r[k] == x);
                    assert(live_only(d, now).contains(x));
                    assert(d.contains(x));
                    let j = choose|j: int| 0 <= j < d.len() && d[j] == x;
                    assert(s[j] == x);
                } else {
                    assert(x == s.last());
                    assert(s[s.len() - 1] == x);
                }
            }
            if s.contains(x) && live(x, now) {
                let j = choose|j: int| 0 <= j < s.len() && s[j] == x;
                if j < s.len() - 1 {
                    assert(d[j] == x);
                    assert(d.contains(x));
                    assert(live_only(d, now).contains(x));
                    let k = choose|k: int| 0 <= k < r.len() && r[k] == x;
                    assert(live_only(s, now)[k] == x);
                } else {
                    assert(live_only(s, now)[live_only(s, now).len() - 1] == x);
                }
            }
        }
    }
}

/// Dropping entries keeps node IDs distinct.
proof fn lemma_live_only_distinct(s: Seq<CacheEntryView>, now: Instant)
    requires
        forall|i: int, j: int| 0 <= i < s.len() && 0 <= j < s.len() && i != j ==> s[i].node_id != s[j].node_id,
    ensures
        ({
            let r = live_only(s, now);
            forall|i: int, j: int| 0 <= i < r.len() && 0 <= j < r.len() && i != j ==> r[i].node_id != r[j].node_id
        }),
    decreases s.len(),
{
    if s.len() > 0 {
        let d = s.drop_last();
        assert forall|i: int, j: int| 0 <= i < d.len() && 0 <= j < d.len() && i != j implies d[i].node_id != d[j].node_id by {
            assert(d[i] == s[i]);
            assert(d[j] == s[j]);
        }
        lemma_live_only_distinct(d, now);
        lemma_live_only_members(d, now);
        let r = live_only(d, now);
        if live(s.last(), now) {
            let out = r.push(s.last());
            assert forall|i: int, j: int| 0 <= i < out.len() && 0 <= j < out.len() && i != j implies out[i].node_id != out[j].node_id by {
                if i < r.len() && j < r.len() {
                    assert(out[i] == r[i]);
                    assert(out[j] == r[j]);
                } else {
                    let k = if i < r.len() { i } else { j };
                    assert(out[k] == r[k]);
                    assert(r.contains(r[k]));
                    assert(d.contains(r[k]));
                    let m = choose|m: int| 0 <= m < d.len() && d[m] == r[k];
                    assert(s[m] == r[k]);
                    assert(s[s.len() - 1] == s.last());
                }
            }
        }
    }
}

/// In a well-formed cache, the entry found for `id` is the entry with that
/// node ID.
proof fn lemma_cached_member(v: CacheView, id: Seq<char>, e: CacheEntryView)
    requires
        cache_wf(v),
        v.entries.contains(e),
        e.node_id == id,
    ensures
        cached(v, id) == Some(e),
{
    let k = choose|k: int| 0 <= k < v.entries.len() && v.entries[k] == e;
    lemma_cached_at(v, k);
}

/// After the expired entries are dropped, a node's entry is still found
/// exactly when it was found and is live.
proof fn lemma_evicted(v0: CacheView, v1: CacheView, now: Instant)
    requires
        cache_wf(v0),
        v1.entries == live_only(v0.entries, now),
    ensures
        cache_wf(v1),
        forall|id: Seq<char>| cached(v1, id) == match cached(v0, id) {
            Some(e) => if live(e, now) { Some(e) } else { None },
            None => None,
        },
{
    lemma_live_only_distinct(v0.entries, now);
    lemma_live_only_members(v0.entries, now);
    assert forall|id: Seq<char>| cached(v1, id) == match cached(v0, id) {
        Some(e) => if live(e, now) { Some(e) } else { None },
        None => None,
    } by {
        if exists|k: int| 0 <= k < v1.entries.len() && v1.entries[k].node_id == id {
            let k = choose|k: int| 0 <= k < v1.entries.len() && v1.entries[k].node_id == id;
            let e = v1.entries[k];
            assert(v1.entries.contains(e));
            assert(v0.entries.contains(e) && live(e, now));
            lemma_cached_member(v0, id, e);
            lemma_cached_member(v1, id, e);
        } else {
            if exists|k: int| 0 <= k < v0.entries.len() && v0.entries[k].node_id == id {
                let k = choose|k: int| 0 <= k < v0.entries.len() && v0.entries[k].node_id == id;
                let e = v0.entries[k];
                lemma_cached_at(v0, k);
                if live(e, now) {
                    assert(v0.entries.contains(e));
                    assert(v1.entries.contains(e));
                    let j = choose|j: int| 0 <= j < v1.entries.len() && v1.entries[j] == e;
                    assert(v1.entries[j].node_id == id);
                }
            }
        }
    }
}

impl RegistrationCache {
    /// An empty cache whose entries live for `ttl`.
    pub fn new(ttl: Duration) -> (c: RegistrationCache)
        ensures
            c@.entries.len() == 0,
            c@.ttl == ttl,
            c@.hits == 0,
            c@.misses == 0,
            cache_wf(c@),
    {
        let c = RegistrationCache { entries: Vec::new(), ttl, hits: 0, misses: 0 };
        assert(c@.entries =~= Seq::<CacheEntryView>::empty());
        c
    }

    /// The position of node `node_id`'s entry.
    fn position(&self, node_id: &str) -> (r: Option<usize>)
        requires
            cache_wf(self@),
        ensures
            match r {
                Some(i) => i < self@.entries.len() && self@.entries[i as int].node_id == node_id@,
                None => cached(self@, node_id@) is None,
            },
    {
        let mut i: usize = 0;
        while i < self.entries.len()
            invariant
                i <= self.entries@.len(),
                self@.entries.len() == self.entries@.len(),
                forall|k: int| 0 <= k < i ==> self@.entries[k].node_id != node_id@,
            decreases self.entries.len() - i,
        {
            if str_eq(self.entries[i].registration.node_id.as_str(), node_id) {
                return Some(i);
            }
            i = i + 1;
        }
        None
    }

    /// Caches `registration` (for node `registration.node_id`) at `now`: it
    /// replaces any entry for the node and lives for the cache's time to
    /// live. Other entries and the counters are unchanged.
    pub fn update_at(&mut self, registration: NodeRegistration, now: Instant)
        requires
            cache_wf(old(self)@),
        ensures
            cache_wf(final(self)@),
            cached(final(self)@, registration@.node_id) == Some(CacheEntryView {
                node_id: registration@.node_id,
                registration: registration@,
                expires_at: expiry(now, old(self)@.ttl),
            }),
            forall|id: Seq<char>| id != registration@.node_id ==> cached(final(self)@, id) == cached(old(self)@, id),
            final(self)@.ttl == old(self)@.ttl,
            final(self)@.hits == old(self)@.hits,
            final(self)@.misses == old(self)@.misses,
    {
        let ghost v0 = self@;
        let ghost rv = registration@;
        let entry = CachedNodeRegistration::new_at(registration, self.ttl, now);
        let ghost ev = entry_view(entry);
        assert(ev.expires_at == expiry(now, v0.ttl));
        match self.position(entry.registration.node_id.as_str()) {
            Some(i) => {
                self.entries.set(i, entry);
                proof {
                    assert(self@.entries =~= v0.entries.update(i as int, ev));
                    lemma_cached_at(self@, i as int);
                    assert forall|id: Seq<char>| id != rv.node_id implies cached(self@, id) == cached(v0, id) by {
                        if exists|k: int| 0 <= k < v0.entries.len() && v0.entries[k].node_id == id {
                            let k = choose|k: int| 0 <= k < v0.entries.len() && v0.entries[k].node_id == id;
                            lemma_cached_at(v0, k);
                            assert(self@.entries[k] == v0.entries[k]);
                            lemma_cached_at(self@, k);
                        }
                        if exists|k: int| 0 <= k < self@.entries.len() && self@.entries[k].node_id == id {
                            let k = choose|k: int| 0 <= k < self@.entries.len() && self@.entries[k].node_id == id;
                            assert(self@.entries[k] == v0.entries[k]);
                        }
                    }
                }
            },
            None => {
                self.entries.push(entry);
                proof {
                    assert(self@.entries =~= v0.entries.push(ev));
                    let n = v0.entries.len() as int;
                    assert forall|k: int| 0 <= k < n implies v0.entries[k].node_id != rv.node_id by {
                        if v0.entries[k].node_id == rv.node_id {
                            lemma_cached_at(v0, k);
                        }
                    }
                    lemma_cached_at(self@, n);
                    assert forall|id: Seq<char>| id != rv.node_id implies cached(self@, id) == cached(v0, id) by {
                        if exists|k: int| 0 <= k < v0.entries.len() && v0.entries[k].node_id == id {
                            let k = choose|k: int| 0 <= k < v0.entries.len() && v0.entries[k].node_id == id;
                            lemma_cached_at(v0, k);
                            assert(self@.entries[k] == v0.entries[k]);
                            lemma_cached_at(self@, k);
                        }
                        if exists|k: int| 0 <= k < self@.entries.len() && self@.entries[k].node_id == id {
                            let k = choose|k: int| 0 <= k < self@.entries.len() && self@.entries[k].node_id == id;
                            assert(k < n);
                            assert(self@.entries[k] == v0.entries[k]);
                        }
                    }
                }
            },
        }
    }

    /// Looks node `node_id` up at `now`: a live entry is a hit and is
    /// returned; anything else is a miss. The counters wrap around.
    pub fn get_at(&mut self, node_id: &str, now: Instant) -> (r: Option<NodeRegistration>)
        requires
            cache_wf(old(self)@),
        ensures
            cache_wf(final(self)@),
            final(self)@.entries == old(self)@.entries,
            final(self)@.ttl == old(self)@.ttl,
            match cached(old(self)@, node_id@) {
                Some(e) => if live(e, now) {
                    r matches Some(x) && x@ == e.registration
                        && final(self)@.hits == wrap_add(old(self)@.hits, 1)
                        && final(self)@.misses == old(self)@.misses
                } else {
                    r is None && final(self)@.hits == old(self)@.hits
                        && final(self)@.misses == wrap_add(old(self)@.misses, 1)
                },
                None => r is None && final(self)@.hits == old(self)@.hits
                    && final(self)@.misses == wrap_add(old(self)@.misses, 1),
            },
    {
        let ghost v0 = self@;
        match self.position(node_id) {
            Some(i) => {
                proof {
                    lemma_cached_at(v0, i as int);
                }
                if !self.entries[i].is_expired_at(now) {
                    self.hits = wrapping_increase(self.hits, 1);
                    return Some(self.entries[i].registration.clone());
                }
                self.misses = wrapping_increase(self.misses, 1);
                None
            },
            None => {
                self.misses = wrapping_increase(self.misses, 1);
                None
            },
        }
    }

    /// Stamps node `node_id`'s cached registration, if any, with heartbeat
    /// `heartbeat`; its expiry and every other entry stay as they were.
    pub fn record_heartbeat(&mut self, node_id: &str, heartbeat: Timestamp)
        requires
            cache_wf(old(self)@),
        ensures
            cache_wf(final(self)@),
            cached(final(self)@, node_id@) == match cached(old(self)@, node_id@) {
                Some(e) => Some(CacheEntryView {
                    registration: RegistrationView { last_heartbeat: Some(heartbeat), ..e.registration },
                    ..e
                }),
                None => None,
            },
            forall|id: Seq<char>| id != node_id@ ==> cached(final(self)@, id) == cached(old(self)@, id),
            final(self)@.ttl == old(self)@.ttl,
            final(self)@.hits == old(self)@.hits,
            final(self)@.misses == old(self)@.misses,
    {
        let ghost v0 = self@;
        if let Some(i) = self.position(node_id) {
            proof {
                lemma_cached_at(v0, i as int);
            }
            let mut e = self.entries[i].clone_entry();
            e.registration.last_heartbeat = Some(heartbeat);
            let ghost ev = entry_view(e);
            self.entries.set(i, e);
            proof {
                assert(self@.entries =~= v0.entries.update(i as int, ev));
                assert forall|a: int, b: int| 0 <= a < self@.entries.len() && 0 <= b < self@.entries.len() && a != b
                    implies self@.entries[a].node_id != self@.entries[b].node_id by {
                    if a != i {
                        assert(self@.entries[a] == v0.entries[a]);
                    }
                    if b != i {
                        assert(self@.entries[b] == v0.entries[b]);
                    }
                }
                lemma_cached_at(self@, i as int);
                assert forall|id: Seq<char>| id != node_id@ implies cached(self@, id) == cached(v0, id) by {
                    if exists|k: int| 0 <= k < v0.entries.len() && v0.entries[k].node_id == id {
                        let k = choose|k: int| 0 <= k < v0.entries.len() && v0.entries[k].node_id == id;
                        lemma_cached_at(v0, k);
                        assert(self@.entries[k] == v0.entries[k]);
                        lemma_cached_at(self@, k);
                    }
                    if exists|k: int| 0 <= k < self@.entries.len() && self@.entries[k].node_id == id {
                        let k = choose|k: int| 0 <= k < self@.entries.len() && self@.entries[k].node_id == id;
                        assert(self@.entries[k] == v0.entries[k]);
                    }
                }
            }
        }
    }

    /// Drops node `node_id`'s entry.
    pub fn remove(&mut self, node_id: &str)
        requires
            cache_wf(old(self)@),
        ensures
            cache_wf(final(self)@),
            cached(final(self)@, node_id@) is None,
            forall|id: Seq<char>| id != node_id@ ==> cached(final(self)@, id) == cached(old(self)@, id),
            final(self)@.ttl == old(self)@.ttl,
            final(self)@.hits == old(self)@.hits,
            final(self)@.misses == old(self)@.misses,
    {
        let ghost v0 = self@;
        if let Some(i) = self.position(node_id) {
            self.entries.remove(i);
            proof {
                assert(self@.entries =~= v0.entries.remove(i as int));
                let n = self@.entries.len();
                assert forall|a: int, b: int| 0 <= a < n && 0 <= b < n && a != b
                    implies self@.entries[a].node_id != self@.entries[b].node_id by {
                    let a0 = if a < i { a } else { a + 1 };
                    let b0 = if b < i { b } else { b + 1 };
                    assert(self@.entries[a] == v0.entries[a0]);
                    assert(self@.entries[b] == v0.entries[b0]);
                }
                assert forall|k: int| 0 <= k < n implies self@.entries[k].node_id != node_id@ by {
                    let k0 = if k < i { k } else { k + 1 };
                    assert(self@.entries[k] == v0.entries[k0]);
                }
                assert forall|id: Seq<char>| id != node_id@ implies cached(self@, id) == cached(v0, id) by {
                    if exists|k: int| 0 <= k < v0.entries.len() && v0.entries[k].node_id == id {
                        let k = choose|k: int| 0 <= k < v0.entries.len() && v0.entries[k].node_id == id;
                        lemma_cached_at(v0, k);
                        assert(k != i);
                        let k1 = if k < i { k } else { k - 1 };
                        assert(self@.entries[k1] == v0.entries[k]);
                        lemma_cached_at(self@, k1);
                    }
                    if exists|k: int| 0 <= k < n && self@.entries[k].node_id == id {
                        let k = choose|k: int| 0 <= k < n && self@.entries[k].node_id == id;
                        let k0 = if k < i { k } else { k + 1 };
                        assert(self@.entries[k] == v0.entries[k0]);
                    }
                }
            }
        }
    }

    /// Drops every entry that has expired at `now`.
    pub fn evict_expired_at(&mut self, now: Instant)
        requires
            cache_wf(old(self)@),
        ensures
            cache_wf(final(self)@),
            forall|id: Seq<char>| cached(final(self)@, id) == match cached(old(self)@, id) {
                Some(e) => if live(e, now) { Some(e) } else { None },
                None => None,
            },
            final(self)@.ttl == old(self)@.ttl,
            final(self)@.hits == old(self)@.hits,
            final(self)@.misses == old(self)@.misses,
    {
        let ghost v0 = self@;
        let mut kept: Vec<CachedNodeRegistration> = Vec::new();
        let mut old_entries: Vec<CachedNodeRegistration> = Vec::new();
        std::mem::swap(&mut old_entries, &mut self.entries);
        let ghost s = v0.entries;
        assert(old_entries@.map_values(|e: CachedNodeRegistration| entry_view(e)) == s);
        let mut i: usize = 0;
        assert(s.take(0) =~= Seq::<CacheEntryView>::empty());
        assert(kept@.map_values(|e: CachedNodeRegistration| entry_view(e)) =~= Seq::<CacheEntryView>::empty());
        while i < old_entries.len()
            invariant
                i <= old_entries@.len(),
                old_entries@.map_values(|e: CachedNodeRegistration| entry_view(e)) == s,
                kept@.map_values(|e: CachedNodeRegistration| entry_view(e)) == live_only(s.take(i as int), now),
            decreases old_entries.len() - i,
        {
            proof {
                assert(s.take(i + 1).drop_last() =~= s.take(i as int));
                assert(s.take(i + 1).last() == s[i as int]);
                assert(entry_view(old_entries@[i as int]) == s[i as int]);
            }
            if !old_entries[i].is_expired_at(now) {
                let ghost k0 = kept@.map_values(|e: CachedNodeRegistration| entry_view(e));
                kept.push(old_entries[i].clone_entry());
                assert(kept@.map_values(|e: CachedNodeRegistration| entry_view(e)) =~= k0.push(s[i as int]));
            }
            i = i + 1;
        }
        assert(s.take(s.len() as int) =~= s);
        self.entries = kept;
        proof {
            lemma_evicted(v0, self@, now);
        }
    }

    /// The registrations of the entries live at `now`, in the cache's order.
    pub fn live_registrations_at(&self, now: Instant) -> (r: Vec<NodeRegistration>)
        ensures
            r@.map_values(|x: NodeRegistration| x@) == live_only(self@.entries, now).map_values(|e: CacheEntryView| e.registration),
    {
        let ghost s = self@.entries;
        let mut out: Vec<NodeRegistration> = Vec::new();
        let mut i: usize = 0;
        assert(s.take(0) =~= Seq::<CacheEntryView>::empty());
        assert(out@.map_values(|x: NodeRegistration| x@) =~= Seq::<RegistrationView>::empty());
        while i < self.entries.len()
            invariant
                s == self@.entries,
                i <= s.len(),
                s.len() == self.entries@.len(),
                out@.map_values(|x: NodeRegistration| x@)
                    == live_only(s.take(i as int), now).map_values(|e: CacheEntryView| e.registration),
            decreases self.entries.len() - i,
        {
            proof {
                assert(s.take(i + 1).drop_last() =~= s.take(i as int));
                assert(s.take(i + 1).last() == s[i as int]);
                assert(s[i as int] == entry_view(self.entries@[i as int]));
            }
            if !self.entries[i].is_expired_at(now) {
                let ghost before = out@.map_values(|x: NodeRegistration| x@);
                out.push(self.entries[i].registration.clone());
                assert(out@.map_values(|x: NodeRegistration| x@) =~= before.push(s[i as int].registration));
                assert(live_only(s.take(i + 1), now) == live_only(s.take(i as int), now).push(s[i as int]));
                assert(live_only(s.take(i + 1), now).map_values(|e: CacheEntryView| e.registration)
                    =~= live_only(s.take(i as int), now).map_values(|e: CacheEntryView| e.registration).push(s[i as int].registration));
            }
            i = i + 1;
        }
        assert(s.take(s.len() as int) =~= s);
        out
    }

    /// The number of entries, the number of hits, and the time to live.
    pub fn cache_stats(&self) -> (r: (usize, u64, Duration))
        ensures
            r.0 == self@.entries.len(),
            r.1 == self@.hits,
            r.2 == self@.ttl,
    {
        (self.entries.len(), self.hits, self.ttl)
    }
}

/// A registration cached at `now` is read back, unchanged and live, at any
/// time up to the time to live later: what `update_at` writes, `get_at`
/// returns as a hit until the entry expires.
pub proof fn lemma_cache_read_after_write(
    before: CacheView,
    after: CacheView,
    registration: RegistrationView,
    now: Instant,
    later: Instant,
)
    requires
        cached(after, registration.node_id) == Some(CacheEntryView {
            node_id: registration.node_id,
            registration,
            expires_at: expiry(now, before.ttl),
        }),
        later.nanos <= now.nanos + before.ttl.millis * 1_000_000,
    ensures
        cached(after, registration.node_id) matches Some(e) && e.registration == registration && live(e, later),
{
}

} // verus!
