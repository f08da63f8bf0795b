//! The change-gated poll loop's decisions. The loop itself performs the
//! timed fetches and registrar calls; every choice it makes — whether a
//! cycle reconciles at all, and what the last-confirmed address becomes —
//! is taken here, as a function of the loop's one piece of state and of the
//! cycle's outcomes.
use vstd::prelude::*;
use crate::ip::Ipv4;

verus! {

/// The poll loop's process-lifetime state: the most recent address the
/// registrar was verified to fully reflect, absent until a pass has fully
/// succeeded.
pub struct PollState {
    pub last_confirmed: Option<Ipv4>,
}

/// What one cycle does after consensus resolution: nothing for an absent
/// consensus, nothing for a consensus equal to the last-confirmed address,
/// a reconciliation pass otherwise.
#[derive(Clone, Copy, PartialEq, Eq, Structural, Debug)]
pub enum CycleDecision {
    NoConsensus,
    Unchanged,
    Reconcile(Ipv4),
}

/// The decision a cycle takes from the last-confirmed address and the
/// cycle's consensus outcome.
pub open spec fn spec_decide(last: Option<Ipv4>, consensus: Option<Ipv4>) -> CycleDecision {
    match consensus {
        None => CycleDecision::NoConsensus,
        Some(ip) => if last == Some(ip) {
            CycleDecision::Unchanged
        } else {
            CycleDecision::Reconcile(ip)
        },
    }
}

/// The last-confirmed address after a reconciliation pass for `ip`: the
/// pass's address when every targeted update succeeded, else unchanged.
pub open spec fn spec_confirm(last: Option<Ipv4>, ip: Ipv4, full_success: bool) -> Option<Ipv4> {
    if full_success {
        Some(ip)
    } else {
        last
    }
}

/// Every targeted update of a pass succeeded. A pass with no targets
/// succeeds.
pub open spec fn spec_all_ok(results: Seq<bool>) -> bool {
    forall|k: int| 0 <= k < results.len() ==> results[k]
}

impl PollState {
    /// The initial state: no address confirmed yet.
    pub fn new() -> (r: Self)
        ensures
            r.last_confirmed is None,
    {
        Self { last_confirmed: None }
    }

    /// Decides what this cycle does, from its consensus outcome.
    pub fn decide(&self, consensus: &Option<Ipv4>) -> (d: CycleDecision)
        ensures
            d == spec_decide(self.last_confirmed, *consensus),
    {
        match consensus {
            None => CycleDecision::NoConsensus,
            Some(ip) => {
                match &self.last_confirmed {
                    Some(last) => {
                        if *last == *ip {
                            CycleDecision::Unchanged
                        } else {
                            CycleDecision::Reconcile(*ip)
                        }
                    },
                    None => CycleDecision::Reconcile(*ip),
                }
            },
        }
    }

    /// Records a reconciliation pass's outcome: the address becomes
    /// last-confirmed only when the pass fully succeeded; any failure leaves
    /// the state unchanged, so the next cycle retries.
    pub fn confirm(&mut self, ip: Ipv4, full_success: bool)
        ensures
            final(self).last_confirmed == spec_confirm(old(self).last_confirmed, ip, full_success),
    {
        if full_success {
            self.last_confirmed = Some(ip);
        }
    }
}

/// Every targeted update of a pass succeeded.
pub fn all_updates_succeeded(results: &Vec<bool>) -> (ok: bool)
    ensures
        ok == spec_all_ok(results@),
{
    let mut i: usize = 0;
    while i < results.len()
        invariant
            i <= results.len(),
            forall|k: int| 0 <= k < i ==> results@[k],
        decreases results.len() - i,
    {
        if !results[i] {
            return false;
        }
        i = i + 1;
    }
    true
}

/// Suppression: when a cycle reconciles for `ip` and the pass fully
/// succeeds, a next cycle that resolves the same consensus address decides
/// `Unchanged` — it issues no registrar traffic.
pub proof fn lemma_poll_suppression(last: Option<Ipv4>, ip: Ipv4)
    requires
        spec_decide(last, Some(ip)) == CycleDecision::Reconcile(ip),
    ensures
        spec_decide(spec_confirm(last, ip, true), Some(ip)) == CycleDecision::Unchanged,
{
}

/// Partial failure: when a pass targets updates and any one fails, the pass
/// does not count as a full success, the last-confirmed address is left
/// unchanged, and a next cycle resolving the same consensus address decides
/// to reconcile again.
pub proof fn lemma_partial_failure_retries(last: Option<Ipv4>, ip: Ipv4, results: Seq<bool>)
    requires
        spec_decide(last, Some(ip)) == CycleDecision::Reconcile(ip),
        exists|k: int| 0 <= k < results.len() && !results[k],
    ensures
        !spec_all_ok(results),
        spec_confirm(last, ip, spec_all_ok(results)) == last,
        spec_decide(spec_confirm(last, ip, spec_all_ok(results)), Some(ip))
            == CycleDecision::Reconcile(ip),
{
}

} // verus!
