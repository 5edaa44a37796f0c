//! Runtime per-actor tracing toggle.  Tracing starts disabled everywhere;
//! operators switch it on or off globally, per actor type or per actor ID.
//! An actor-ID setting wins over an actor-type setting, which wins over the
//! global switch.

use dashmap::DashMap;
use vstd::prelude::*;

use crate::accounts::RequestError;
use crate::text::owned;

verus! {

/// `dashmap::DashMap`, a concurrent hash map; here it holds the tracing
/// overrides keyed by actor type or actor ID.
#[verifier::external_type_specification]
#[verifier::external_body]
#[verifier::reject_recursive_types(K)]
#[verifier::reject_recursive_types(V)]
#[verifier::reject_recursive_types(S)]
pub struct ExDashMap<K, V, S>(DashMap<K, V, S>);

/// The overrides a `DashMap<String, bool>` holds, by key.
pub uninterp spec fn overrides_of(m: DashMap<String, bool>) -> Map<Seq<char>, bool>;

/// The override of `key` in `m`, if any.
pub open spec fn override_in(m: Map<Seq<char>, bool>, key: Seq<char>) -> Option<bool> {
    if m.dom().contains(key) { Some(m[key]) } else { None }
}

/// An empty map: `DashMap::new`.
#[verifier::external_body]
fn empty_overrides() -> (m: DashMap<String, bool>)
    ensures
        overrides_of(m) =~= Map::empty(),
{
    DashMap::new()
}

/// The value stored under `key`: `DashMap::get`, which finds the entry whose
/// key equals `key`.
#[verifier::external_body]
fn lookup_override(m: &DashMap<String, bool>, key: &str) -> (r: Option<bool>)
    ensures
        r == override_in(overrides_of(*m), key@),
{
    match m.get(key) {
        Some(entry) => Some(*entry),
        None => None,
    }
}

/// Stores `value` under `key`, replacing an earlier value: `DashMap::insert`.
#[verifier::external_body]
fn store_override(m: &mut DashMap<String, bool>, key: String, value: bool)
    ensures
        overrides_of(*final(m)) == overrides_of(*old(m)).insert(key@, value),
{
    m.insert(key, value);
}

/// Removes every entry: `DashMap::clear`.
#[verifier::external_body]
fn clear_overrides(m: &mut DashMap<String, bool>)
    ensures
        overrides_of(*final(m)) =~= Map::empty(),
{
    m.clear();
}

/// Every entry once, as (key, value) pairs: `DashMap::iter`.  The order
/// depends on the hashes and is not promised.
#[verifier::external_body]
fn override_entries(m: &DashMap<String, bool>) -> (r: Vec<(String, bool)>)
    ensures
        forall|i: int, j: int| 0 <= i < r@.len() && 0 <= j < r@.len() && i != j ==> r@[i].0@ != r@[j].0@,
        forall|i: int| 0 <= i < r@.len() ==> override_in(overrides_of(*m), #[trigger] r@[i].0@) == Some(r@[i].1),
        forall|k: Seq<char>| overrides_of(*m).dom().contains(k) ==> exists|i: int| 0 <= i < r@.len() && #[trigger] r@[i].0@ == k,
{
    m.iter().map(|e| (e.key().clone(), *e.value())).collect()
}

/// What an operator switches tracing on or off for.
#[derive(Debug, Clone, Copy, PartialEq, Eq, Structural)]
pub enum TracingTarget {
    Unspecified,
    All,
    ActorType,
    ActorId,
}

/// The tracing settings.
pub struct TracingView {
    pub global_enabled: bool,
    pub types: Map<Seq<char>, bool>,
    pub actors: Map<Seq<char>, bool>,
}

/// Whether an actor of type `actor_type` with ID `actor_id` is traced: its
/// ID setting, else its type setting, else the global switch.
pub open spec fn traced(v: TracingView, actor_type: Seq<char>, actor_id: Seq<char>) -> bool {
    match override_in(v.actors, actor_id) {
        Some(b) => b,
        None => match override_in(v.types, actor_type) {
            Some(b) => b,
            None => v.global_enabled,
        },
    }
}

/// The settings after switching tracing to `on` for `target`: the global
/// switch (turning it off also forgets every override), or the override of
/// one actor type or actor ID.
pub open spec fn after_switch(v: TracingView, on: bool, target: TracingTarget, actor_type: Seq<char>, actor_id: Seq<char>) -> TracingView {
    match target {
        TracingTarget::All | TracingTarget::Unspecified => if on {
            TracingView { global_enabled: true, ..v }
        } else {
            TracingView { global_enabled: false, types: Map::empty(), actors: Map::empty() }
        },
        TracingTarget::ActorType => TracingView { types: v.types.insert(actor_type, on), ..v },
        TracingTarget::ActorId => TracingView { actors: v.actors.insert(actor_id, on), ..v },
    }
}

/// A switch request is refused when its target names no type or ID.
pub open spec fn switch_refused(target: TracingTarget, actor_type: Seq<char>, actor_id: Seq<char>) -> bool {
    (target == TracingTarget::ActorType && actor_type.len() == 0)
        || (target == TracingTarget::ActorId && actor_id.len() == 0)
}

/// One override, as reported by the status.
#[derive(Debug)]
pub struct TracingEntry {
    pub target: TracingTarget,
    pub value: String,
    pub enabled: bool,
}

/// The runtime tracing toggle.
pub struct TracingControl {
    global_enabled: bool,
    enabled_types: DashMap<String, bool>,
    enabled_actors: DashMap<String, bool>,
}

impl View for TracingControl {
    type V = TracingView;

    closed spec fn view(&self) -> TracingView {
        TracingView {
            global_enabled: self.global_enabled,
            types: overrides_of(self.enabled_types),
            actors: overrides_of(self.enabled_actors),
        }
    }
}

impl TracingControl {
    /// Tracing disabled everywhere.
    pub fn new() -> (t: TracingControl)
        ensures
            !t@.global_enabled,
            t@.types == Map::<Seq<char>, bool>::empty(),
            t@.actors == Map::<Seq<char>, bool>::empty(),
    {
        TracingControl {
            global_enabled: false,
            enabled_types: empty_overrides(),
            enabled_actors: empty_overrides(),
        }
    }

    /// Whether the actor of type `actor_type` with ID `actor_id` is traced.
    pub fn is_enabled(&self, actor_type: &str, actor_id: &str) -> (b: bool)
        ensures
            b == traced(self@, actor_type@, actor_id@),
    {
        if let Some(v) = lookup_override(&self.enabled_actors, actor_id) {
            return v;
        }
        if let Some(v) = lookup_override(&self.enabled_types, actor_type) {
            return v;
        }
        self.global_enabled
    }

    /// Switches tracing to `on` for `target`.
    fn switch(&mut self, on: bool, target: TracingTarget, actor_type: &str, actor_id: &str) -> (r: Result<(), RequestError>)
        ensures
            switch_refused(target, actor_type@, actor_id@) ==> final(self)@ == old(self)@ && r is Err,
            target == TracingTarget::ActorType && actor_type@.len() == 0 ==>
                (r matches Err(RequestError::InvalidArgument(m)) && m@ == "actor_type required for ACTOR_TYPE target"@),
            target == TracingTarget::ActorId && actor_id@.len() == 0 ==>
                (r matches Err(RequestError::InvalidArgument(m)) && m@ == "actor_id required for ACTOR_ID target"@),
            !switch_refused(target, actor_type@, actor_id@) ==>
                r is Ok && final(self)@ == after_switch(old(self)@, on, target, actor_type@, actor_id@),
    {
        match target {
            TracingTarget::All | TracingTarget::Unspecified => {
                self.global_enabled = on;
                if !on {
                    clear_overrides(&mut self.enabled_types);
                    clear_overrides(&mut self.enabled_actors);
                }
                Ok(())
            },
            TracingTarget::ActorType => {
                if actor_type.unicode_len() == 0 {
                    return Err(RequestError::InvalidArgument(owned("actor_type required for ACTOR_TYPE target")));
                }
                store_override(&mut self.enabled_types, owned(actor_type), on);
                Ok(())
            },
            TracingTarget::ActorId => {
                if actor_id.unicode_len() == 0 {
                    return Err(RequestError::InvalidArgument(owned("actor_id required for ACTOR_ID target")));
                }
                store_override(&mut self.enabled_actors, owned(actor_id), on);
                Ok(())
            },
        }
    }

    /// Enables tracing for `target`; answers with a confirmation message.
    pub fn enable_tracing(&mut self, target: TracingTarget, actor_type: &str, actor_id: &str) -> (r: Result<String, RequestError>)
        ensures
            switch_refused(target, actor_type@, actor_id@) ==> final(self)@ == old(self)@ && r is Err,
            target == TracingTarget::ActorType && actor_type@.len() == 0 ==>
                (r matches Err(RequestError::InvalidArgument(m)) && m@ == "actor_type required for ACTOR_TYPE target"@),
            target == TracingTarget::ActorId && actor_id@.len() == 0 ==>
                (r matches Err(RequestError::InvalidArgument(m)) && m@ == "actor_id required for ACTOR_ID target"@),
            !switch_refused(target, actor_type@, actor_id@) ==>
                (r matches Ok(m) && m@ == "Tracing enabled"@)
                && final(self)@ == after_switch(old(self)@, true, target, actor_type@, actor_id@),
    {
        match self.switch(true, target, actor_type, actor_id) {
            Ok(()) => Ok(owned("Tracing enabled")),
            Err(e) => Err(e),
        }
    }

    /// Disables tracing for `target`; answers with a confirmation message.
    /// Disabling one type or ID records an override that beats the global
    /// switch; disabling globally forgets all overrides.
    pub fn disable_tracing(&mut self, target: TracingTarget, actor_type: &str, actor_id: &str) -> (r: Result<String, RequestError>)
        ensures
            switch_refused(target, actor_type@, actor_id@) ==> final(self)@ == old(self)@ && r is Err,
            target == TracingTarget::ActorType && actor_type@.len() == 0 ==>
                (r matches Err(RequestError::InvalidArgument(m)) && m@ == "actor_type required for ACTOR_TYPE target"@),
            target == TracingTarget::ActorId && actor_id@.len() == 0 ==>
                (r matches Err(RequestError::InvalidArgument(m)) && m@ == "actor_id required for ACTOR_ID target"@),
            !switch_refused(target, actor_type@, actor_id@) ==>
                (r matches Ok(m) && m@ == "Tracing disabled"@)
                && final(self)@ == after_switch(old(self)@, false, target, actor_type@, actor_id@),
    {
        match self.switch(false, target, actor_type, actor_id) {
            Ok(()) => Ok(owned("Tracing disabled")),
            Err(e) => Err(e),
        }
    }

    /// The global switch and every override: actor types first, then actor IDs.
    pub fn tracing_status(&self) -> (r: (bool, Vec<TracingEntry>))
        ensures
            r.0 == self@.global_enabled,
            forall|i: int| 0 <= i < r.1@.len() ==> {
                let e = #[trigger] r.1@[i];
                ||| e.target == TracingTarget::ActorType && override_in(self@.types, e.value@) == Some(e.enabled)
                ||| e.target == TracingTarget::ActorId && override_in(self@.actors, e.value@) == Some(e.enabled)
            },
            forall|k: Seq<char>| self@.types.dom().contains(k) ==> exists|i: int|
                0 <= i < r.1@.len() && (#[trigger] r.1@[i]).target == TracingTarget::ActorType && r.1@[i].value@ == k,
            forall|k: Seq<char>| self@.actors.dom().contains(k) ==> exists|i: int|
                0 <= i < r.1@.len() && (#[trigger] r.1@[i]).target == TracingTarget::ActorId && r.1@[i].value@ == k,
    {
        let types = override_entries(&self.enabled_types);
        let actors = override_entries(&self.enabled_actors);
        let mut entries: Vec<TracingEntry> = Vec::new();
        let mut i: usize = 0;
        while i < types.len()
            invariant
                i <= types@.len(),
                entries@.len() == i,
                forall|j: int| 0 <= j < i ==> (#[trigger] entries@[j]).target == TracingTarget::ActorType
                    && entries@[j].value@ == types@[j].0@ && entries@[j].enabled == types@[j].1,
            decreases types.len() - i,
        {
            entries.push(TracingEntry { target: TracingTarget::ActorType, value: types[i].0.clone(), enabled: types[i].1 });
            i = i + 1;
        }
        let n = entries.len();
        let mut j: usize = 0;
        while j < actors.len()
            invariant
                n == types@.len(),
                j <= actors@.len(),
                entries@.len() == n + j,
                forall|k: int| 0 <= k < n ==> (#[trigger] entries@[k]).target == TracingTarget::ActorType
                    && entries@[k].value@ == types@[k].0@ && entries@[k].enabled == types@[k].1,
                forall|k: int| n <= k < n + j ==> (#[trigger] entries@[k]).target == TracingTarget::ActorId
                    && entries@[k].value@ == actors@[k - n].0@ && entries@[k].enabled == actors@[k - n].1,
            decreases actors.len() - j,
        {
            entries.push(TracingEntry { target: TracingTarget::ActorId, value: actors[j].0.clone(), enabled: actors[j].1 });
            j = j + 1;
        }
        proof {
            assert forall|i: int| 0 <= i < entries@.len() implies {
                let e = #[trigger] entries@[i];
                ||| e.target == TracingTarget::ActorType && override_in(self@.types, e.value@) == Some(e.enabled)
                ||| e.target == TracingTarget::ActorId && override_in(self@.actors, e.value@) == Some(e.enabled)
            } by {
                if i < n {
                    assert(override_in(overrides_of(self.enabled_types), types@[i].0@) == Some(types@[i].1));
                } else {
                    assert(override_in(overrides_of(self.enabled_actors), actors@[i - n].0@) == Some(actors@[i - n].1));
                }
            }
            assert forall|k: Seq<char>| self@.types.dom().contains(k) implies exists|i: int|
                0 <= i < entries@.len() && (#[trigger] entries@[i]).target == TracingTarget::ActorType && entries@[i].value@ == k by {
                let x = choose|x: int| 0 <= x < types@.len() && #[trigger] types@[x].0@ == k;
                assert(entries@[x].value@ == k);
            }
            assert forall|k: Seq<char>| self@.actors.dom().contains(k) implies exists|i: int|
                0 <= i < entries@.len() && (#[trigger] entries@[i]).target == TracingTarget::ActorId && entries@[i].value@ == k by {
                let x = choose|x: int| 0 <= x < actors@.len() && #[trigger] actors@[x].0@ == k;
                assert(entries@[n + x].value@ == k);
            }
        }
        (self.global_enabled, entries)
    }
}

// ============================================================================
// Laws
// ============================================================================

/// An actor ID switched on is traced whatever its type and the global switch.
pub proof fn lemma_actor_id_setting_wins(v: TracingView, on: bool, actor_type: Seq<char>, actor_id: Seq<char>, any_type: Seq<char>)
    requires
        actor_id.len() > 0,
    ensures
        traced(after_switch(v, on, TracingTarget::ActorId, actor_type, actor_id), any_type, actor_id) == on,
{
}

/// An actor type switched off stays untraced when tracing is switched on
/// globally, unless its actor has its own setting.
pub proof fn lemma_type_setting_beats_global(v: TracingView, actor_type: Seq<char>, actor_id: Seq<char>)
    requires
        actor_type.len() > 0,
        override_in(v.actors, actor_id).is_none(),
    ensures
        !traced(
            after_switch(after_switch(v, false, TracingTarget::ActorType, actor_type, actor_id),
                true, TracingTarget::All, actor_type, actor_id),
            actor_type, actor_id),
{
}

/// After tracing is disabled globally, no actor is traced.
pub proof fn lemma_global_disable_silences_all(v: TracingView, actor_type: Seq<char>, actor_id: Seq<char>, any_type: Seq<char>, any_id: Seq<char>)
    ensures
        !traced(after_switch(v, false, TracingTarget::All, actor_type, actor_id), any_type, any_id),
{
}

/// Switching one actor ID or type leaves the others as they were.
pub proof fn lemma_switch_is_local(
    v: TracingView,
    on: bool,
    target: TracingTarget,
    actor_type: Seq<char>,
    actor_id: Seq<char>,
    other_type: Seq<char>,
    other_id: Seq<char>,
)
    requires
        target == TracingTarget::ActorType || target == TracingTarget::ActorId,
        other_type != actor_type,
        other_id != actor_id,
    ensures
        traced(after_switch(v, on, target, actor_type, actor_id), other_type, other_id) == traced(v, other_type, other_id),
{
}

} // verus!
