//! One SWIM protocol round as a sequence of decisions.  The network work
//! (pinging a node directly, asking intermediaries to ping it) happens
//! between the steps; each step takes what came back and returns what to do
//! next, changing the membership as the protocol prescribes.

use vstd::prelude::*;

use crate::swim::SwimMember;
use crate::swim_protocol::{
    ProtocolView, SwimProtocol, after_alive, after_reap, after_suspect, after_timeouts, declare_all_dead,
    indirect_candidates, min_usize, protocol_wf,
};
use crate::time::{Duration, Instant};

verus! {

/// How a probe ended.
#[derive(Debug, Clone, Copy, PartialEq, Eq, Structural)]
pub enum ProbeResult {
    /// The node answered, directly or through an intermediary.
    Alive,
    /// The node did not answer and is suspected.
    Suspect,
    /// The node answered but its answer could not be taken in.
    Failed,
}

/// What to do after the direct ping of a probe.
#[derive(Debug)]
pub enum DirectPingStep {
    /// The probe is over.
    Done(ProbeResult),
    /// Ask these members to ping the target.
    AskIntermediaries(Vec<SwimMember>),
}

/// The outcome of a direct ping: whether the target answered, and whether
/// its answer was taken in.
#[derive(Debug, Clone, Copy, PartialEq, Eq, Structural)]
pub enum DirectPingOutcome {
    Answered { reconciled: bool },
    NoAnswer,
}

/// The probe result of a direct ping that was answered.
pub open spec fn answered_result(reconciled: bool) -> ProbeResult {
    if reconciled { ProbeResult::Alive } else { ProbeResult::Failed }
}

/// The members asked to ping `target` are alive members other than the local
/// node and the target, distinct, as many as configured when there are enough.
pub open spec fn intermediaries_ok(v: ProtocolView, target: Seq<char>, m: Seq<SwimMember>) -> bool {
    let c = indirect_candidates(v, target);
    &&& m.len() == min_usize(v.config.indirect_ping_nodes, c.len())
    &&& forall|j: int| 0 <= j < m.len() ==> c.contains(#[trigger] m[j]@)
    &&& forall|a: int, b: int| 0 <= a < m.len() && 0 <= b < m.len() && a != b ==> m[a]@.node_id != m[b]@.node_id
}

/// Nobody can be asked to ping `target`: no alive member other than the
/// local node and the target, or no intermediaries configured.
pub open spec fn no_intermediaries(v: ProtocolView, target: Seq<char>) -> bool {
    min_usize(v.config.indirect_ping_nodes, indirect_candidates(v, target).len()) == 0
}

/// The step taken when the direct ping of `target` got no answer: suspect
/// it at once when nobody can ping it instead, else ask intermediaries.
pub open spec fn no_answer_step(v: ProtocolView, target: Seq<char>, s: DirectPingStep) -> bool {
    if no_intermediaries(v, target) {
        s matches DirectPingStep::Done(r) && r == ProbeResult::Suspect
    } else {
        s matches DirectPingStep::AskIntermediaries(m) && intermediaries_ok(v, target, m@)
    }
}

impl SwimProtocol {
    /// Takes the outcome of the direct ping of `target` at `now`.  An answer
    /// ends the probe (alive, or failed when it could not be taken in).
    /// Without an answer, up to the configured number of alive members other
    /// than the local node and the target are asked to ping it; when there
    /// are none, the target is suspected at once.
    pub fn after_direct_ping_at(&mut self, target: &SwimMember, outcome: DirectPingOutcome, now: Instant) -> (s: DirectPingStep)
        requires
            protocol_wf(old(self)@),
        ensures
            protocol_wf(final(self)@),
            outcome is Answered ==> final(self)@ == old(self)@,
            outcome is Answered ==> (s matches DirectPingStep::Done(r) && r == answered_result(outcome->reconciled)),
            outcome is NoAnswer ==> no_answer_step(old(self)@, target@.node_id, s),
            outcome is NoAnswer && no_intermediaries(old(self)@, target@.node_id)
                ==> final(self)@ == after_suspect(old(self)@, target@.node_id, now),
            outcome is NoAnswer && !no_intermediaries(old(self)@, target@.node_id)
                ==> final(self)@ == old(self)@,
    {
        match outcome {
            DirectPingOutcome::Answered { reconciled } => {
                let r = if reconciled { ProbeResult::Alive } else { ProbeResult::Failed };
                assert(r == answered_result(reconciled));
                DirectPingStep::Done(r)
            },
            DirectPingOutcome::NoAnswer => {
                let intermediaries = self.select_indirect_targets(target.node_id.as_str());
                if intermediaries.len() == 0 {
                    self.suspect_member_at(target.node_id.as_str(), now);
                    DirectPingStep::Done(ProbeResult::Suspect)
                } else {
                    DirectPingStep::AskIntermediaries(intermediaries)
                }
            },
        }
    }

    /// Takes the answers of the intermediaries about `target` at `now`: if
    /// any of them reached it, it is alive at its known incarnation and
    /// address; otherwise it is suspected.
    pub fn after_indirect_pings_at(&mut self, target: &SwimMember, any_reached: bool, now: Instant) -> (r: ProbeResult)
        requires
            protocol_wf(old(self)@),
        ensures
            protocol_wf(final(self)@),
            any_reached ==> r == ProbeResult::Alive
                && final(self)@ == after_alive(old(self)@, target@.node_id, target@.incarnation, target@.address, now),
            !any_reached ==> r == ProbeResult::Suspect
                && final(self)@ == after_suspect(old(self)@, target@.node_id, now),
    {
        if any_reached {
            self.process_alive_at(target.node_id.as_str(), target.incarnation, target.address.as_str(), now);
            ProbeResult::Alive
        } else {
            self.suspect_member_at(target.node_id.as_str(), now);
            ProbeResult::Suspect
        }
    }

    /// Ends a round at `now`: suspects whose suspicion is older than
    /// `suspicion_timeout` are declared dead, then members dead or gone for
    /// longer than the reap timeout are removed.
    pub fn end_round_at(&mut self, suspicion_timeout: Duration, now: Instant)
        requires
            protocol_wf(old(self)@),
        ensures
            protocol_wf(final(self)@),
            final(self)@ == after_reap(
                after_timeouts(old(self)@, suspicion_timeout, now),
                old(self)@.config.dead_node_reap_timeout,
                now,
            ),
    {
        let ghost v0 = self@;
        self.check_suspect_timeouts_at(suspicion_timeout, now);
        proof {
            lemma_declare_all_dead_keeps_config(v0, crate::swim_protocol::ids_of(v0.members.filter(crate::swim_protocol::timed_out(suspicion_timeout, now))), now);
        }
        let reap = self.config().dead_node_reap_timeout;
        self.reap_dead_nodes_at(reap, now);
    }
}

/// Declaring members dead leaves the configuration as it was.
proof fn lemma_declare_all_dead_keeps_config(v: ProtocolView, ids: Seq<Seq<char>>, now: Instant)
    ensures
        declare_all_dead(v, ids, now).config == v.config,
    decreases ids.len(),
{
    if ids.len() > 0 {
        lemma_declare_all_dead_keeps_config(v, ids.drop_last(), now);
    }
}

} // verus!
