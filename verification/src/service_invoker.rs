//! Service invocation rules: how a target node is chosen, how long to wait
//! between attempts, and when to give up.

use vstd::prelude::*;

use crate::swim::random_in_range;
use crate::text::{concat, owned};
use crate::time::Duration;

verus! {

/// How long to wait between invocation attempts.
#[derive(Debug, Clone, Copy, PartialEq, Eq, Structural)]
pub enum BackoffStrategy {
    /// Retry at once.
    Immediate,
    /// Always wait the same time.
    Fixed(Duration),
    /// Double the wait on every attempt, from `initial` up to `max`, plus a
    /// random jitter below a quarter of the wait.
    Exponential { initial: Duration, max: Duration },
}

/// Two to the power `n`.
pub open spec fn two_to(n: nat) -> nat
    decreases n,
{
    if n == 0 { 1 } else { 2 * two_to((n - 1) as nat) }
}

/// The exponential wait before jitter: `initial` doubled `attempt` times,
/// capped at `max` (milliseconds).
pub open spec fn capped_delay(initial: u64, max: u64, attempt: u32) -> nat {
    let d = (initial as nat) * two_to(attempt as nat);
    if d <= max { d } else { max as nat }
}

/// A jittered wait `d` for the base wait `c`: at least `c`, and less than a
/// quarter of `c` more.
pub open spec fn jittered(c: nat, d: nat) -> bool {
    c <= d && 4 * (d - c) < c || d == c
}

/// The backoff parameters for which the wait can be computed without
/// overflow.
pub open spec fn backoff_in_range(strategy: BackoffStrategy, attempt: u32) -> bool {
    match strategy {
        BackoffStrategy::Exponential { initial, max } => {
            &&& initial.millis * two_to(attempt as nat) <= u64::MAX
            &&& capped_delay(initial.millis, max.millis, attempt) * 5 / 4 <= u64::MAX
        },
        _ => true,
    }
}

/// `x * 2^n` for `x * 2^n` within `u64`.
fn times_power_of_two(x: u64, n: u32) -> (r: u64)
    requires
        x * two_to(n as nat) <= u64::MAX,
    ensures
        r == x * two_to(n as nat),
{
    let mut r = x;
    let mut i: u32 = 0;
    assert(two_to(0) == 1);
    assert(x * two_to(0) == x);
    while i < n
        invariant
            i <= n,
            r == x * two_to(i as nat),
            x * two_to(n as nat) <= u64::MAX,
        decreases n - i,
    {
        proof {
            lemma_two_to_monotone((i + 1) as nat, n as nat);
            assert(x * two_to((i + 1) as nat) == 2 * (x * two_to(i as nat))) by (nonlinear_arith)
                requires
                    two_to((i + 1) as nat) == 2 * two_to(i as nat);
            assert(x * two_to((i + 1) as nat) <= x * two_to(n as nat)) by (nonlinear_arith)
                requires
                    two_to((i + 1) as nat) <= two_to(n as nat);
        }
        r = r * 2;
        i = i + 1;
    }
    r
}

/// Powers of two grow with the exponent.
proof fn lemma_two_to_monotone(a: nat, b: nat)
    requires
        a <= b,
    ensures
        two_to(a) <= two_to(b),
    decreases b,
{
    if a < b {
        lemma_two_to_monotone(a, (b - 1) as nat);
    }
}

/// Whether `x * 2^n` stays within `u64`.
fn power_product_fits(x: u64, n: u32) -> (b: bool)
    ensures
        b == (x * two_to(n as nat) <= u64::MAX),
{
    if x == 0 {
        assert(x * two_to(n as nat) == 0);
        return true;
    }
    let mut r = x;
    let mut i: u32 = 0;
    assert(two_to(0) == 1);
    assert(x * two_to(0) == x);
    while i < n
        invariant
            1 <= x,
            i <= n,
            r == x * two_to(i as nat),
        decreases n - i,
    {
        proof {
            assert(x * two_to((i + 1) as nat) == 2 * (x * two_to(i as nat))) by (nonlinear_arith)
                requires
                    two_to((i + 1) as nat) == 2 * two_to(i as nat);
        }
        if r > u64::MAX / 2 {
            proof {
                lemma_two_to_monotone((i + 1) as nat, n as nat);
                assert(x * two_to((i + 1) as nat) <= x * two_to(n as nat)) by (nonlinear_arith)
                    requires
                        two_to((i + 1) as nat) <= two_to(n as nat),
                        1 <= x;
            }
            return false;
        }
        r = r * 2;
        i = i + 1;
    }
    true
}

/// Whether the wait after attempt `attempt` can be computed: the doubling
/// and the jitter stay within `u64` milliseconds.
pub fn backoff_computable(strategy: &BackoffStrategy, attempt: u32) -> (b: bool)
    ensures
        b == backoff_in_range(*strategy, attempt),
{
    match strategy {
        BackoffStrategy::Exponential { initial, max } => {
            if !power_product_fits(initial.millis, attempt) {
                return false;
            }
            let d = times_power_of_two(initial.millis, attempt);
            let capped: u64 = if d <= max.millis { d } else { max.millis };
            (capped as u128) * 5 / 4 <= u64::MAX as u128
        },
        _ => true,
    }
}

/// The wait before the next attempt after attempt `attempt` failed.
pub fn backoff_duration(strategy: &BackoffStrategy, attempt: u32) -> (d: Duration)
    requires
        backoff_in_range(*strategy, attempt),
    ensures
        match *strategy {
            BackoffStrategy::Immediate => d.millis == 0,
            BackoffStrategy::Fixed(f) => d == f,
            BackoffStrategy::Exponential { initial, max } =>
                jittered(capped_delay(initial.millis, max.millis, attempt), d.millis as nat),
        },
{
    match strategy {
        BackoffStrategy::Immediate => Duration::zero(),
        BackoffStrategy::Fixed(f) => *f,
        BackoffStrategy::Exponential { initial, max } => {
            let delay = times_power_of_two(initial.millis, attempt);
            let clamped = if delay <= max.millis { delay } else { max.millis };
            let jitter = if clamped > 0 { random_in_range(0, (clamped - 1) / 4) } else { 0 };
            assert(clamped + jitter <= u64::MAX) by {
                assert(jitter * 4 <= clamped);
            }
            Duration::from_millis(clamped + jitter)
        },
    }
}

/// Why an invocation failed.
#[derive(Debug)]
pub enum InvocationError {
    ServiceNotFound(String),
    TransportError(String),
    NoAvailableNodes(String),
    Timeout(Duration),
    RetriesExhausted { service: String, retries: u32, last_error: String },
}

/// Picks target nodes round-robin.
pub struct NodeSelector {
    counter: usize,
}

/// Counter value after one more pick (wrapping).
pub open spec fn next_counter(c: usize) -> usize {
    if c == usize::MAX { 0 } else { (c + 1) as usize }
}

impl View for NodeSelector {
    type V = usize;

    closed spec fn view(&self) -> usize {
        self.counter
    }
}

impl NodeSelector {
    /// A selector starting at the first node.
    pub fn new() -> (s: NodeSelector)
        ensures
            s@ == 0,
    {
        NodeSelector { counter: 0 }
    }

    /// The node to invoke: the requested one if any, else the next of the
    /// registered `nodes` in turn.
    pub fn select_node(&mut self, target_node: Option<&str>, nodes: &Vec<String>) -> (r: Result<String, InvocationError>)
        ensures
            match target_node {
                Some(t) => (r matches Ok(n) && n@ == t@) && final(self)@ == old(self)@,
                None => if nodes@.len() == 0 {
                    (r matches Err(InvocationError::NoAvailableNodes(m)) && m@ == "No nodes registered"@)
                        && final(self)@ == old(self)@
                } else {
                    (r matches Ok(n) && n@ == nodes@[old(self)@ as int % nodes@.len() as int]@)
                        && final(self)@ == next_counter(old(self)@)
                },
            },
    {
        if let Some(t) = target_node {
            return Ok(owned(t));
        }
        if nodes.len() == 0 {
            return Err(InvocationError::NoAvailableNodes(owned("No nodes registered")));
        }
        let idx = self.counter % nodes.len();
        self.counter = if self.counter == usize::MAX { 0 } else { self.counter + 1 };
        Ok(nodes[idx].clone())
    }
}

/// What to do after a failed attempt.
#[derive(Debug, PartialEq, Eq, Structural)]
pub enum RetryStep {
    /// Wait this long, then try again.
    RetryAfter(Duration),
    /// No attempts are left.
    GiveUp,
}

/// After attempt `attempt` (counting from 0) failed, with `max_retries`
/// retries allowed: retry after the backoff while attempts remain.
pub fn after_failed_attempt(attempt: u32, max_retries: u32, strategy: &BackoffStrategy) -> (s: RetryStep)
    requires
        backoff_in_range(*strategy, attempt),
    ensures
        attempt < max_retries ==> (s matches RetryStep::RetryAfter(d) && match *strategy {
            BackoffStrategy::Immediate => d.millis == 0,
            BackoffStrategy::Fixed(f) => d == f,
            BackoffStrategy::Exponential { initial, max } =>
                jittered(capped_delay(initial.millis, max.millis, attempt), d.millis as nat),
        }),
        attempt >= max_retries ==> s == RetryStep::GiveUp,
{
    if attempt < max_retries {
        RetryStep::RetryAfter(backoff_duration(strategy, attempt))
    } else {
        RetryStep::GiveUp
    }
}

/// The invocation has reached its deadline.
pub fn deadline_passed(now: crate::time::Instant, deadline: crate::time::Instant) -> (b: bool)
    ensures
        b == (now.nanos >= deadline.nanos),
{
    now.nanos >= deadline.nanos
}

/// The actor that serves `operation` of service `service_name`.
pub fn service_actor_id(service_name: &str, operation: &str) -> (s: String)
    ensures
        s@ == "__service__:"@ + service_name@ + ":"@ + operation@,
{
    let mut s = concat("__service__:", service_name);
    s.append(":");
    s.append(operation);
    s
}

/// The message type of a call of `operation` on service `service_name`.
pub fn service_message_type(service_name: &str, operation: &str) -> (s: String)
    ensures
        s@ == service_name@ + ":"@ + operation@,
{
    let mut s = concat(service_name, ":");
    s.append(operation);
    s
}

} // verus!
