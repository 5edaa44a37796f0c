//! SWIM membership building blocks: node states, members with incarnation
//! numbers, piggybacked membership updates, the decorrelated-jitter backoff,
//! the protocol configuration and its statistics.
//!
//! ## Incarnation rules
//! A member's `(incarnation, state)` pair only ever moves up in the order
//! "higher incarnation first, then the more severe state"
//! (`Alive < Suspect < Dead < Left`): an update is applied exactly when it is
//! larger in that order, so applying a set of updates in any order gives the
//! same result as applying their maximum.

use rand::Rng;
use std::collections::HashMap;
use vstd::prelude::*;

use crate::time::{Duration, Instant, longer_than, millis_between};

verus! {

// ============================================================================
// Node state
// ============================================================================

/// Node membership state in the SWIM protocol.
#[derive(Debug, Clone, Copy, PartialEq, Eq, Structural, Hash)]
pub enum NodeState {
    /// Node is healthy and responding.
    Alive,
    /// Node failed a direct ping and is being verified via indirect pings.
    Suspect,
    /// Node confirmed dead after the suspicion timeout.
    Dead,
    /// Node gracefully left the cluster.
    Left,
}

/// Severity of a state: `Alive < Suspect < Dead < Left`.
pub open spec fn rank(s: NodeState) -> nat {
    match s {
        NodeState::Alive => 0,
        NodeState::Suspect => 1,
        NodeState::Dead => 2,
        NodeState::Left => 3,
    }
}

/// A node in this state can still receive messages.
pub open spec fn active(s: NodeState) -> bool {
    s == NodeState::Alive || s == NodeState::Suspect
}

/// The lower-case name of a state.
pub open spec fn state_name(s: NodeState) -> Seq<char> {
    match s {
        NodeState::Alive => "alive"@,
        NodeState::Suspect => "suspect"@,
        NodeState::Dead => "dead"@,
        NodeState::Left => "left"@,
    }
}

impl NodeState {
    /// The node is considered active (alive or suspect).
    pub fn is_active(&self) -> (b: bool)
        ensures
            b == active(*self),
    {
        match self {
            NodeState::Alive | NodeState::Suspect => true,
            _ => false,
        }
    }

    /// The lower-case name used for metrics and logs.
    pub fn as_str(&self) -> (s: &'static str)
        ensures
            s@ == state_name(*self),
    {
        match self {
            NodeState::Alive => "alive",
            NodeState::Suspect => "suspect",
            NodeState::Dead => "dead",
            NodeState::Left => "left",
        }
    }

    /// Numeric severity used in state resolution.
    pub fn priority(&self) -> (p: u8)
        ensures
            p == rank(*self),
    {
        match self {
            NodeState::Alive => 0,
            NodeState::Suspect => 1,
            NodeState::Dead => 2,
            NodeState::Left => 3,
        }
    }
}

/// `(inc_a, state_a)` is strictly above `(inc_b, state_b)`: a higher incarnation,
/// or the same incarnation with a more severe state.
pub open spec fn supersedes(inc_a: u64, state_a: NodeState, inc_b: u64, state_b: NodeState) -> bool {
    inc_a > inc_b || (inc_a == inc_b && rank(state_a) > rank(state_b))
}

// ============================================================================
// SWIM member
// ============================================================================

/// A SWIM cluster member with its incarnation number.
///
/// Each node starts with incarnation 0 and increments it when it refutes a
/// suspicion about itself; a higher incarnation always wins for the same node.
#[derive(Debug)]
pub struct SwimMember {
    /// Unique node identifier.
    pub node_id: String,
    /// gRPC address for communication.
    pub address: String,
    /// Current membership state.
    pub state: NodeState,
    /// Incarnation number, used to resolve conflicts.
    pub incarnation: u64,
    /// When the state last changed.
    pub state_changed_at: Instant,
    /// Consecutive failed probes.
    pub failed_probes: u32,
    /// Last successful probe time.
    pub last_probe_success: Option<Instant>,
    /// Metadata (capabilities, cluster, ...).
    pub metadata: HashMap<String, String>,
}

/// The value of a [`SwimMember`].
pub struct MemberView {
    pub node_id: Seq<char>,
    pub address: Seq<char>,
    pub state: NodeState,
    pub incarnation: u64,
    pub state_changed_at: Instant,
    pub failed_probes: u32,
    pub last_probe_success: Option<Instant>,
    pub metadata: Map<String, String>,
}

impl View for SwimMember {
    type V = MemberView;

    open spec fn view(&self) -> MemberView {
        MemberView {
            node_id: self.node_id@,
            address: self.address@,
            state: self.state,
            incarnation: self.incarnation,
            state_changed_at: self.state_changed_at,
            failed_probes: self.failed_probes,
            last_probe_success: self.last_probe_success,
            metadata: self.metadata@,
        }
    }
}

impl Clone for SwimMember {
    fn clone(&self) -> (r: Self)
        ensures
            r@ == self@,
    {
        SwimMember {
            node_id: self.node_id.clone(),
            address: self.address.clone(),
            state: self.state,
            incarnation: self.incarnation,
            state_changed_at: self.state_changed_at,
            failed_probes: self.failed_probes,
            last_probe_success: self.last_probe_success,
            metadata: self.metadata.clone(),
        }
    }
}

/// A fresh alive member created at `now`.
pub open spec fn fresh_member(node_id: Seq<char>, address: Seq<char>, now: Instant) -> MemberView {
    MemberView {
        node_id,
        address,
        state: NodeState::Alive,
        incarnation: 0,
        state_changed_at: now,
        failed_probes: 0,
        last_probe_success: Some(now),
        metadata: Map::empty(),
    }
}

/// The member moves to `state` at `now`; the change time is only touched
/// when the state actually changes.
pub open spec fn with_state(m: MemberView, state: NodeState, now: Instant) -> MemberView {
    if m.state == state {
        m
    } else {
        MemberView { state, state_changed_at: now, ..m }
    }
}

/// Applies a gossiped `(state, incarnation)` to a member at `now`, following the
/// SWIM rules; the flag tells whether the update was taken.
pub open spec fn member_after_update(m: MemberView, state: NodeState, inc: u64, now: Instant) -> (MemberView, bool) {
    if inc > m.incarnation {
        (with_state(MemberView { incarnation: inc, ..m }, state, now), true)
    } else if inc == m.incarnation && rank(state) > rank(m.state) {
        (MemberView { state, state_changed_at: now, ..m }, true)
    } else {
        (m, false)
    }
}

/// A member after a successful probe at `now`: suspicion is cleared.
pub open spec fn member_after_probe_success(m: MemberView, now: Instant) -> MemberView {
    let m1 = MemberView { failed_probes: 0, last_probe_success: Some(now), ..m };
    if m.state == NodeState::Suspect {
        MemberView { state: NodeState::Alive, state_changed_at: now, ..m1 }
    } else {
        m1
    }
}

/// A dead or departed member whose state is older than `timeout` at `now`.
pub open spec fn reapable(m: MemberView, timeout: Duration, now: Instant) -> bool {
    (m.state == NodeState::Dead || m.state == NodeState::Left)
        && longer_than(m.state_changed_at, now, timeout)
}

impl SwimMember {
    /// A new alive member at incarnation 0, created at `now`.
    pub fn new_at(node_id: String, address: String, now: Instant) -> (m: SwimMember)
        ensures
            m@ == fresh_member(node_id@, address@, now),
    {
        SwimMember {
            node_id,
            address,
            state: NodeState::Alive,
            incarnation: 0,
            state_changed_at: now,
            failed_probes: 0,
            last_probe_success: Some(now),
            metadata: HashMap::new(),
        }
    }

    /// A new alive member at incarnation 0, created at the current time.
    pub fn new(node_id: String, address: String) -> (m: SwimMember)
        ensures
            exists|now: Instant| m@ == fresh_member(node_id@, address@, now),
    {
        SwimMember::new_at(node_id, address, Instant::now())
    }

    /// The member with its metadata replaced.
    pub fn with_metadata(self, metadata: HashMap<String, String>) -> (m: SwimMember)
        ensures
            m@ == (MemberView { metadata: metadata@, ..self@ }),
    {
        let mut s = self;
        s.metadata = metadata;
        s
    }

    /// The member should be removed: dead or departed for longer than
    /// `reap_timeout` at `now`.
    pub fn should_reap_at(&self, reap_timeout: Duration, now: Instant) -> (b: bool)
        ensures
            b == reapable(self@, reap_timeout, now),
    {
        let dead_or_left = match self.state {
            NodeState::Dead | NodeState::Left => true,
            _ => false,
        };
        dead_or_left && self.state_changed_at.elapsed_exceeds(now, reap_timeout)
    }

    /// The member should be removed: dead or departed for longer than
    /// `reap_timeout` by the current clock.
    pub fn should_reap(&self, reap_timeout: Duration) -> (b: bool)
        ensures
            exists|now: Instant| b == reapable(self@, reap_timeout, now),
            b ==> !active(self.state),
    {
        self.should_reap_at(reap_timeout, Instant::now())
    }

    /// Applies a gossiped `(new_state, new_incarnation)` at `now`.
    ///
    /// 1. A higher incarnation always wins.
    /// 2. At the same incarnation the more severe state wins.
    /// 3. Anything else is ignored.
    ///
    /// Returns whether the update was taken.
    pub fn update_state_at(&mut self, new_state: NodeState, new_incarnation: u64, now: Instant) -> (updated: bool)
        ensures
            (final(self)@, updated) == member_after_update(old(self)@, new_state, new_incarnation, now),
            updated == supersedes(new_incarnation, new_state, old(self).incarnation, old(self).state),
    {
        if new_incarnation > self.incarnation {
            self.incarnation = new_incarnation;
            if self.state != new_state {
                self.state = new_state;
                self.state_changed_at = now;
            }
            return true;
        }
        if new_incarnation == self.incarnation && new_state.priority() > self.state.priority() {
            self.state = new_state;
            self.state_changed_at = now;
            return true;
        }
        false
    }

    /// Applies a gossiped `(new_state, new_incarnation)` at the current time,
    /// following the rules of [`SwimMember::update_state_at`].
    pub fn update_state(&mut self, new_state: NodeState, new_incarnation: u64) -> (updated: bool)
        ensures
            exists|now: Instant|
                (final(self)@, updated) == member_after_update(old(self)@, new_state, new_incarnation, now),
            updated == supersedes(new_incarnation, new_state, old(self).incarnation, old(self).state),
    {
        self.update_state_at(new_state, new_incarnation, Instant::now())
    }

    /// The member refutes a suspicion about itself at `now`: its incarnation
    /// goes up by one and it is alive again.
    pub fn refute_at(&mut self, now: Instant)
        requires
            old(self).incarnation < u64::MAX,
        ensures
            final(self)@ == (MemberView {
                incarnation: (old(self).incarnation + 1) as u64,
                state: NodeState::Alive,
                state_changed_at: now,
                failed_probes: 0,
                ..old(self)@
            }),
    {
        self.incarnation = self.incarnation + 1;
        self.state = NodeState::Alive;
        self.state_changed_at = now;
        self.failed_probes = 0;
    }

    /// The member refutes a suspicion about itself at the current time.
    pub fn refute(&mut self)
        requires
            old(self).incarnation < u64::MAX,
        ensures
            final(self)@ == (MemberView {
                incarnation: (old(self).incarnation + 1) as u64,
                state: NodeState::Alive,
                state_changed_at: final(self).state_changed_at,
                failed_probes: 0,
                ..old(self)@
            }),
    {
        self.refute_at(Instant::now())
    }

    /// Records a successful probe at `now`.
    pub fn record_probe_success_at(&mut self, now: Instant)
        ensures
            final(self)@ == member_after_probe_success(old(self)@, now),
    {
        self.failed_probes = 0;
        self.last_probe_success = Some(now);
        if self.state == NodeState::Suspect {
            self.state = NodeState::Alive;
            self.state_changed_at = now;
        }
    }

    /// Records a successful probe at the current time.
    pub fn record_probe_success(&mut self)
        ensures
            exists|now: Instant| final(self)@ == member_after_probe_success(old(self)@, now),
    {
        self.record_probe_success_at(Instant::now())
    }

    /// Records a failed probe; the count saturates at `u32::MAX`.
    pub fn record_probe_failure(&mut self)
        ensures
            final(self)@ == (MemberView {
                failed_probes: if old(self).failed_probes < u32::MAX { (old(self).failed_probes + 1) as u32 } else { u32::MAX },
                ..old(self)@
            }),
    {
        self.failed_probes = self.failed_probes.saturating_add(1);
    }

    /// Time since the last successful probe at `now`, if there was one.
    pub fn time_since_last_success_at(&self, now: Instant) -> (d: Option<Duration>)
        ensures
            match self.last_probe_success {
                Some(t) => d == Some(Duration { millis: millis_between(t, now) as u64 }),
                None => d.is_none(),
            },
    {
        match self.last_probe_success {
            Some(t) => Some(t.elapsed_at(now)),
            None => None,
        }
    }

    /// Time since the last successful probe by the current clock.
    pub fn time_since_last_success(&self) -> (d: Option<Duration>)
        ensures
            d.is_some() == self.last_probe_success.is_some(),
    {
        self.time_since_last_success_at(Instant::now())
    }
}


// ============================================================================
// Exponential backoff with decorrelated jitter
// ============================================================================

/// Draws a value uniformly from `low..=high` with `rand::Rng::gen_range` on the
/// thread-local generator (`rand::thread_rng`).  The crate documents that the
/// value lies in the range and that an empty range panics, hence the `requires`.
#[verifier::external_body]
pub(crate) fn random_in_range(low: u64, high: u64) -> (r: u64)
    requires
        low <= high,
    ensures
        low <= r <= high,
{
    rand::thread_rng().gen_range(low..=high)
}

/// Exponential backoff with decorrelated jitter:
/// `sleep = min(cap, random_between(base, sleep * 3))`.
#[derive(Debug, Clone, Copy)]
pub struct ExponentialBackoff {
    /// Base delay.
    base: Duration,
    /// Maximum delay cap.
    cap: Duration,
    /// Current sleep duration.
    current: Duration,
    /// Current attempt number.
    attempt: u32,
    /// Maximum attempts (0 = unlimited).
    max_attempts: u32,
}

/// The value of an [`ExponentialBackoff`], delays in milliseconds.
pub struct BackoffView {
    pub base: u64,
    pub cap: u64,
    pub current: u64,
    pub attempt: u32,
    pub max_attempts: u32,
}

impl View for ExponentialBackoff {
    type V = BackoffView;

    closed spec fn view(&self) -> BackoffView {
        BackoffView {
            base: self.base.millis,
            cap: self.cap.millis,
            current: self.current.millis,
            attempt: self.attempt,
            max_attempts: self.max_attempts,
        }
    }
}

/// All attempts are used up (a limit of 0 means unlimited).
pub open spec fn backoff_exhausted(v: BackoffView) -> bool {
    v.max_attempts > 0 && v.attempt >= v.max_attempts
}

/// Upper end of the jitter window: three times the current delay, saturating.
pub open spec fn jitter_high(v: BackoffView) -> u64 {
    if v.current * 3 <= u64::MAX { (v.current * 3) as u64 } else { u64::MAX }
}

/// `j` is a possible jitter draw: in `base..=3*current` when that window is
/// not empty, else exactly `base`.
pub open spec fn jitter_draw_ok(v: BackoffView, j: u64) -> bool {
    if jitter_high(v) > v.base {
        v.base <= j <= jitter_high(v)
    } else {
        j == v.base
    }
}

/// The smaller of two numbers.
pub open spec fn min_u64(a: u64, b: u64) -> u64 {
    if a <= b { a } else { b }
}

impl ExponentialBackoff {
    /// Defaults suitable for DB operations: base 100ms, cap 30s, 10 attempts.
    pub fn new() -> (b: ExponentialBackoff)
        ensures
            b@ == (BackoffView { base: 100, cap: 30000, current: 100, attempt: 0, max_attempts: 10 }),
    {
        ExponentialBackoff {
            base: Duration::from_millis(100),
            cap: Duration::from_secs(30),
            current: Duration::from_millis(100),
            attempt: 0,
            max_attempts: 10,
        }
    }

    /// A backoff with the given base, cap and attempt limit (0 = unlimited).
    pub fn with_params(base: Duration, cap: Duration, max_attempts: u32) -> (b: ExponentialBackoff)
        ensures
            b@ == (BackoffView {
                base: base.millis,
                cap: cap.millis,
                current: base.millis,
                attempt: 0,
                max_attempts,
            }),
    {
        ExponentialBackoff { base, cap, current: base, attempt: 0, max_attempts }
    }

    /// The next delay, or `None` once the attempt limit is reached.
    ///
    /// The delay is `min(cap, j)` for a random `j` between the base and three
    /// times the previous delay; it becomes the new current delay.
    pub fn next_backoff(&mut self) -> (r: Option<Duration>)
        requires
            old(self)@.max_attempts > 0 || old(self)@.attempt < u32::MAX,
        ensures
            backoff_exhausted(old(self)@) ==> r.is_none() && final(self)@ == old(self)@,
            !backoff_exhausted(old(self)@) ==> {
                &&& r.is_some()
                &&& final(self)@ == (BackoffView {
                    current: r.unwrap().millis,
                    attempt: (old(self)@.attempt + 1) as u32,
                    ..old(self)@
                })
                &&& exists|j: u64| #[trigger] jitter_draw_ok(old(self)@, j)
                    && r.unwrap().millis == min_u64(j, old(self)@.cap)
                &&& r.unwrap().millis <= old(self)@.cap
                &&& r.unwrap().millis >= min_u64(old(self)@.base, old(self)@.cap)
            },
    {
        if self.max_attempts > 0 && self.attempt >= self.max_attempts {
            return None;
        }
        self.attempt = self.attempt + 1;
        let min_sleep = self.base.millis;
        let max_sleep = if self.current.millis <= u64::MAX / 3 { self.current.millis * 3 } else { u64::MAX };
        let jittered = if max_sleep > min_sleep {
            random_in_range(min_sleep, max_sleep)
        } else {
            min_sleep
        };
        proof {
            assert(jitter_high(old(self)@) == max_sleep);
            assert(jitter_draw_ok(old(self)@, jittered));
        }
        self.current = Duration::from_millis(jittered).min(self.cap);
        Some(self.current)
    }

    /// Back to the base delay and attempt 0.
    pub fn reset(&mut self)
        ensures
            final(self)@ == (BackoffView { current: old(self)@.base, attempt: 0, ..old(self)@ }),
    {
        self.current = self.base;
        self.attempt = 0;
    }

    /// The current attempt number.
    pub fn attempts(&self) -> (n: u32)
        ensures
            n == self@.attempt,
    {
        self.attempt
    }

    /// The attempt limit is reached.
    pub fn is_exhausted(&self) -> (b: bool)
        ensures
            b == backoff_exhausted(self@),
    {
        self.max_attempts > 0 && self.attempt >= self.max_attempts
    }
}

impl Default for ExponentialBackoff {
    fn default() -> (b: Self)
        ensures
            b@ == (BackoffView { base: 100, cap: 30000, current: 100, attempt: 0, max_attempts: 10 }),
    {
        Self::new()
    }
}

// ============================================================================
// Membership update
// ============================================================================

/// A membership update piggybacked on protocol messages; each is broadcast a
/// limited number of times.
#[derive(Debug)]
pub struct MembershipUpdate {
    /// Node ID this update is about.
    pub node_id: String,
    /// New state.
    pub state: NodeState,
    /// Incarnation number.
    pub incarnation: u64,
    /// Address (if known).
    pub address: Option<String>,
    /// When this update was created.
    pub created_at: Instant,
    /// How many times this has been broadcast.
    pub broadcast_count: u32,
}

/// The value of a [`MembershipUpdate`].
pub struct UpdateView {
    pub node_id: Seq<char>,
    pub state: NodeState,
    pub incarnation: u64,
    pub address: Option<Seq<char>>,
    pub created_at: Instant,
    pub broadcast_count: u32,
}

/// The characters of an optional string.
pub open spec fn opt_view(s: Option<String>) -> Option<Seq<char>> {
    match s {
        Some(a) => Some(a@),
        None => None,
    }
}

impl View for MembershipUpdate {
    type V = UpdateView;

    open spec fn view(&self) -> UpdateView {
        UpdateView {
            node_id: self.node_id@,
            state: self.state,
            incarnation: self.incarnation,
            address: opt_view(self.address),
            created_at: self.created_at,
            broadcast_count: self.broadcast_count,
        }
    }
}

/// A copy of an optional string.
pub fn clone_opt_string(s: &Option<String>) -> (r: Option<String>)
    ensures
        opt_view(r) == opt_view(*s),
{
    match s {
        Some(a) => Some(a.clone()),
        None => None,
    }
}

impl Clone for MembershipUpdate {
    fn clone(&self) -> (r: Self)
        ensures
            r@ == self@,
    {
        MembershipUpdate {
            node_id: self.node_id.clone(),
            state: self.state,
            incarnation: self.incarnation,
            address: clone_opt_string(&self.address),
            created_at: self.created_at,
            broadcast_count: self.broadcast_count,
        }
    }
}

/// A fresh update created at `now`, without address, not yet broadcast.
pub open spec fn fresh_update(node_id: Seq<char>, state: NodeState, incarnation: u64, now: Instant) -> UpdateView {
    UpdateView { node_id, state, incarnation, address: None, created_at: now, broadcast_count: 0 }
}

impl MembershipUpdate {
    /// A new update created at `now`.
    pub fn new_at(node_id: String, state: NodeState, incarnation: u64, now: Instant) -> (u: MembershipUpdate)
        ensures
            u@ == fresh_update(node_id@, state, incarnation, now),
    {
        MembershipUpdate { node_id, state, incarnation, address: None, created_at: now, broadcast_count: 0 }
    }

    /// A new update created at the current time.
    pub fn new(node_id: String, state: NodeState, incarnation: u64) -> (u: MembershipUpdate)
        ensures
            u@ == fresh_update(node_id@, state, incarnation, u.created_at),
    {
        MembershipUpdate::new_at(node_id, state, incarnation, Instant::now())
    }

    /// The update with an address attached.
    pub fn with_address(self, address: String) -> (u: MembershipUpdate)
        ensures
            u@ == (UpdateView { address: Some(address@), ..self@ }),
    {
        let mut s = self;
        s.address = Some(address);
        s
    }

    /// The update has been broadcast `max_broadcasts` times or more.
    pub fn should_drop(&self, max_broadcasts: u32) -> (b: bool)
        ensures
            b == (self.broadcast_count >= max_broadcasts),
    {
        self.broadcast_count >= max_broadcasts
    }

    /// Age of this update at `now`.
    pub fn age_at(&self, now: Instant) -> (d: Duration)
        ensures
            d.millis == millis_between(self.created_at, now),
    {
        self.created_at.elapsed_at(now)
    }

    /// Age of this update by the current clock.
    pub fn age(&self) -> (d: Duration)
        ensures
            exists|now: Instant| d.millis == millis_between(self.created_at, now),
    {
        self.created_at.elapsed()
    }
}

// ============================================================================
// SWIM configuration
// ============================================================================

/// SWIM protocol configuration.
#[derive(Debug, Clone, Copy)]
pub struct SwimConfig {
    /// Protocol period (how often to probe a node).
    pub protocol_period: Duration,
    /// Direct probe timeout.
    pub probe_timeout: Duration,
    /// Number of nodes to use for indirect ping.
    pub indirect_ping_nodes: usize,
    /// Suspicion timeout multiplier (multiplied by log(n) * period).
    pub suspicion_mult: u32,
    /// Minimum suspicion timeout.
    pub suspicion_min: Duration,
    /// Maximum suspicion timeout.
    pub suspicion_max: Duration,
    /// How long to keep dead nodes before reaping.
    pub dead_node_reap_timeout: Duration,
    /// Maximum number of membership updates to piggyback.
    pub max_piggyback_updates: usize,
    /// How many times to broadcast an update before dropping it.
    pub broadcast_limit: u32,
    /// Anti-entropy sync interval.
    pub anti_entropy_interval: Duration,
    /// DB fallback backoff base.
    pub db_backoff_base: Duration,
    /// DB fallback backoff cap.
    pub db_backoff_cap: Duration,
    /// DB fallback max attempts per operation.
    pub db_max_attempts: u32,
}

/// The default configuration.
pub open spec fn default_swim_config() -> SwimConfig {
    SwimConfig {
        protocol_period: Duration { millis: 1000 },
        probe_timeout: Duration { millis: 500 },
        indirect_ping_nodes: 3,
        suspicion_mult: 4,
        suspicion_min: Duration { millis: 3000 },
        suspicion_max: Duration { millis: 30000 },
        dead_node_reap_timeout: Duration { millis: 300000 },
        max_piggyback_updates: 10,
        broadcast_limit: 5,
        anti_entropy_interval: Duration { millis: 30000 },
        db_backoff_base: Duration { millis: 100 },
        db_backoff_cap: Duration { millis: 30000 },
        db_max_attempts: 10,
    }
}

/// `raw` clamped first from below by `lo`, then from above by `hi`.
pub open spec fn clamp_millis(raw: u64, lo: u64, hi: u64) -> u64 {
    let at_least = if raw >= lo { raw } else { lo };
    if at_least <= hi { at_least } else { hi }
}

impl Default for SwimConfig {
    fn default() -> (c: Self)
        ensures
            c == default_swim_config(),
    {
        SwimConfig {
            protocol_period: Duration::from_secs(1),
            probe_timeout: Duration::from_millis(500),
            indirect_ping_nodes: 3,
            suspicion_mult: 4,
            suspicion_min: Duration::from_secs(3),
            suspicion_max: Duration::from_secs(30),
            dead_node_reap_timeout: Duration::from_secs(300),
            max_piggyback_updates: 10,
            broadcast_limit: 5,
            anti_entropy_interval: Duration::from_secs(30),
            db_backoff_base: Duration::from_millis(100),
            db_backoff_cap: Duration::from_secs(30),
            db_max_attempts: 10,
        }
    }
}

impl SwimConfig {
    /// Bounds a suspicion timeout computed from the cluster size by
    /// `[suspicion_min, suspicion_max]`: first raised to the minimum, then
    /// lowered to the maximum.
    pub fn bound_suspicion_timeout(&self, raw: Duration) -> (d: Duration)
        ensures
            d.millis == clamp_millis(raw.millis, self.suspicion_min.millis, self.suspicion_max.millis),
            d.millis <= self.suspicion_max.millis,
            self.suspicion_min.millis <= self.suspicion_max.millis ==> d.millis >= self.suspicion_min.millis,
    {
        raw.max(self.suspicion_min).min(self.suspicion_max)
    }
}

// ============================================================================
// Statistics
// ============================================================================

/// Counters of SWIM protocol activity; each counter wraps around on overflow.
#[derive(Debug)]
pub struct SwimStats {
    pub direct_pings: u64,
    pub direct_ping_success: u64,
    pub direct_ping_failed: u64,
    pub indirect_pings: u64,
    pub indirect_ping_success: u64,
    pub indirect_ping_failed: u64,
    pub suspicions: u64,
    pub deaths: u64,
    pub joins: u64,
    pub leaves: u64,
    pub reaps: u64,
    pub refutations: u64,
    pub updates_broadcast: u64,
    pub updates_received: u64,
    pub anti_entropy_syncs: u64,
    pub rounds_completed: u64,
}

/// A copy of the SWIM counters for reporting.
#[derive(Debug, Clone, Copy, PartialEq, Eq, Structural)]
pub struct SwimStatsSnapshot {
    pub direct_pings: u64,
    pub direct_ping_success: u64,
    pub direct_ping_failed: u64,
    pub indirect_pings: u64,
    pub indirect_ping_success: u64,
    pub indirect_ping_failed: u64,
    pub suspicions: u64,
    pub deaths: u64,
    pub joins: u64,
    pub leaves: u64,
    pub reaps: u64,
    pub refutations: u64,
    pub updates_broadcast: u64,
    pub updates_received: u64,
    pub anti_entropy_syncs: u64,
    pub rounds_completed: u64,
}

/// The counters of `s` as a snapshot.
pub open spec fn stats_view(s: SwimStats) -> SwimStatsSnapshot {
    SwimStatsSnapshot {
        direct_pings: s.direct_pings,
        direct_ping_success: s.direct_ping_success,
        direct_ping_failed: s.direct_ping_failed,
        indirect_pings: s.indirect_pings,
        indirect_ping_success: s.indirect_ping_success,
        indirect_ping_failed: s.indirect_ping_failed,
        suspicions: s.suspicions,
        deaths: s.deaths,
        joins: s.joins,
        leaves: s.leaves,
        reaps: s.reaps,
        refutations: s.refutations,
        updates_broadcast: s.updates_broadcast,
        updates_received: s.updates_received,
        anti_entropy_syncs: s.anti_entropy_syncs,
        rounds_completed: s.rounds_completed,
    }
}

/// All counters at zero.
pub open spec fn zero_stats() -> SwimStatsSnapshot {
    SwimStatsSnapshot {
        direct_pings: 0,
        direct_ping_success: 0,
        direct_ping_failed: 0,
        indirect_pings: 0,
        indirect_ping_success: 0,
        indirect_ping_failed: 0,
        suspicions: 0,
        deaths: 0,
        joins: 0,
        leaves: 0,
        reaps: 0,
        refutations: 0,
        updates_broadcast: 0,
        updates_received: 0,
        anti_entropy_syncs: 0,
        rounds_completed: 0,
    }
}

impl SwimStats {
    /// All counters at zero.
    pub fn new() -> (s: SwimStats)
        ensures
            stats_view(s) == zero_stats(),
    {
        SwimStats {
            direct_pings: 0,
            direct_ping_success: 0,
            direct_ping_failed: 0,
            indirect_pings: 0,
            indirect_ping_success: 0,
            indirect_ping_failed: 0,
            suspicions: 0,
            deaths: 0,
            joins: 0,
            leaves: 0,
            reaps: 0,
            refutations: 0,
            updates_broadcast: 0,
            updates_received: 0,
            anti_entropy_syncs: 0,
            rounds_completed: 0,
        }
    }

    /// A copy of the current counters.
    pub fn snapshot(&self) -> (s: SwimStatsSnapshot)
        ensures
            s == stats_view(*self),
    {
        SwimStatsSnapshot {
            direct_pings: self.direct_pings,
            direct_ping_success: self.direct_ping_success,
            direct_ping_failed: self.direct_ping_failed,
            indirect_pings: self.indirect_pings,
            indirect_ping_success: self.indirect_ping_success,
            indirect_ping_failed: self.indirect_ping_failed,
            suspicions: self.suspicions,
            deaths: self.deaths,
            joins: self.joins,
            leaves: self.leaves,
            reaps: self.reaps,
            refutations: self.refutations,
            updates_broadcast: self.updates_broadcast,
            updates_received: self.updates_received,
            anti_entropy_syncs: self.anti_entropy_syncs,
            rounds_completed: self.rounds_completed,
        }
    }
}

impl Default for SwimStats {
    fn default() -> (s: Self)
        ensures
            stats_view(s) == zero_stats(),
    {
        SwimStats::new()
    }
}

/// Health status of the SWIM protocol.
#[derive(Debug, Clone, Copy)]
pub struct SwimHealthStatus {
    pub is_running: bool,
    pub local_incarnation: u64,
    pub total_members: usize,
    pub alive_members: usize,
    pub suspect_members: usize,
    pub dead_members: usize,
    pub stats: SwimStatsSnapshot,
}

} // verus!
