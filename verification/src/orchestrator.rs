//! Sequencing of the discovery strategies.
//!
//! The orchestrator is a state machine: the caller asks what to do next,
//! performs the operation — fetch the peer list, probe one candidate, run
//! the fallback scan — and reports the outcome back. Candidates are probed
//! strictly in list order and the first confirmed one ends the run; the
//! fallback strategy is entered exactly once, only after the primary
//! strategy is exhausted; when everything is exhausted the run ends with an
//! aggregated failure instead.

use vstd::prelude::*;

use crate::errors::DiscoveryError;
use crate::probe::ProbeOutcome;

verus! {

/// Where a discovery run stands.
pub enum DiscoveryPhase {
    /// Nothing has happened yet; the peer list is needed.
    Start,
    /// Primary candidates are being probed in order.
    TryingPrimary,
    /// The primary strategy is exhausted; the fallback scan is needed.
    NeedFallback,
    /// Fallback candidates are being probed in order.
    TryingFallback,
    /// The run is over.
    Done,
}

/// The aggregated diagnostic record of a failed run: per strategy, why it
/// produced no confirmed address, and the outcome of every candidate it
/// probed.
#[derive(Debug)]
pub struct DiscoveryFailure {
    pub primary_error: Option<DiscoveryError>,
    pub primary_outcomes: Vec<ProbeOutcome>,
    pub fallback_error: Option<DiscoveryError>,
    pub fallback_outcomes: Vec<ProbeOutcome>,
}

/// What the caller is asked to do next.
pub enum DiscoveryRequest {
    /// Obtain the primary candidate list by driving the provider walk.
    FetchPeerList,
    /// Probe this candidate address, in list order.
    Probe(String),
    /// Run the heuristic fallback scan.
    RunFallbackScan,
    /// The run is over; the orchestrator holds its result.
    Finished,
}

/// The state of one discovery run.
pub struct DiscoveryOrchestrator {
    pub phase: DiscoveryPhase,
    /// The candidate list of the phase under trial.
    pub candidates: Vec<String>,
    /// The next candidate to probe.
    pub next_idx: usize,
    pub primary_error: Option<DiscoveryError>,
    pub primary_outcomes: Vec<ProbeOutcome>,
    pub fallback_error: Option<DiscoveryError>,
    pub fallback_outcomes: Vec<ProbeOutcome>,
    /// The confirmed address, once one candidate confirmed.
    pub confirmed: Option<String>,
}

impl DiscoveryOrchestrator {
    pub open spec fn wf(self) -> bool {
        &&& ((self.phase is TryingPrimary || self.phase is TryingFallback) ==> self.next_idx
            < self.candidates@.len())
        &&& (self.phase is TryingPrimary ==> self.primary_outcomes@.len() == self.next_idx)
        &&& (self.phase is TryingFallback ==> self.fallback_outcomes@.len() == self.next_idx)
        &&& (self.confirmed is Some ==> self.phase is Done)
    }

    /// A fresh run.
    pub fn new() -> (r: DiscoveryOrchestrator)
        ensures
            r.wf(),
            r.phase is Start,
            r.candidates@.len() == 0,
            r.next_idx == 0,
            r.primary_error is None,
            r.primary_outcomes@.len() == 0,
            r.fallback_error is None,
            r.fallback_outcomes@.len() == 0,
            r.confirmed is None,
    {
        DiscoveryOrchestrator {
            phase: DiscoveryPhase::Start,
            candidates: Vec::new(),
            next_idx: 0,
            primary_error: None,
            primary_outcomes: Vec::new(),
            fallback_error: None,
            fallback_outcomes: Vec::new(),
            confirmed: None,
        }
    }

    /// What to do next. In a probing phase the request names the candidate
    /// at the current position, so candidates are probed strictly in list
    /// order; once the run is over nothing further is ever requested.
    pub fn request(&self) -> (r: DiscoveryRequest)
        requires
            self.wf(),
        ensures
            self.phase is Start ==> r is FetchPeerList,
            (self.phase is TryingPrimary || self.phase is TryingFallback) ==> (r matches
                DiscoveryRequest::Probe(p) && p@ == self.candidates@[self.next_idx as int]@),
            self.phase is NeedFallback ==> r is RunFallbackScan,
            self.phase is Done ==> r is Finished,
    {
        match self.phase {
            DiscoveryPhase::Start => DiscoveryRequest::FetchPeerList,
            DiscoveryPhase::TryingPrimary => DiscoveryRequest::Probe(
                self.candidates[self.next_idx].clone(),
            ),
            DiscoveryPhase::TryingFallback => DiscoveryRequest::Probe(
                self.candidates[self.next_idx].clone(),
            ),
            DiscoveryPhase::NeedFallback => DiscoveryRequest::RunFallbackScan,
            DiscoveryPhase::Done => DiscoveryRequest::Finished,
        }
    }

    /// Reports the primary strategy's candidate list. A non-empty list is
    /// probed in order; a failure or an empty list records why and moves
    /// straight to the fallback strategy.
    pub fn on_primary(&mut self, r: Result<Vec<String>, DiscoveryError>)
        requires
            old(self).wf(),
            old(self).phase is Start,
            old(self).primary_outcomes@.len() == 0,
            old(self).primary_error is None,
            old(self).confirmed is None,
        ensures
            final(self).wf(),
            final(self).confirmed is None,
            final(self).fallback_error == old(self).fallback_error,
            final(self).fallback_outcomes == old(self).fallback_outcomes,
            final(self).primary_outcomes == old(self).primary_outcomes,
            (match r {
                Ok(v) => if v@.len() > 0 {
                    &&& final(self).phase is TryingPrimary
                    &&& final(self).candidates == v
                    &&& final(self).next_idx == 0
                    &&& final(self).primary_error is None
                } else {
                    &&& final(self).phase is NeedFallback
                    &&& final(self).primary_error matches Some(e) && e is NoCandidates
                },
                Err(e) => {
                    &&& final(self).phase is NeedFallback
                    &&& final(self).primary_error == Some(e)
                },
            }),
    {
        match r {
            Ok(v) => {
                if v.len() > 0 {
                    self.candidates = v;
                    self.next_idx = 0;
                    self.phase = DiscoveryPhase::TryingPrimary;
                } else {
                    self.primary_error = Some(DiscoveryError::NoCandidates);
                    self.phase = DiscoveryPhase::NeedFallback;
                }
            },
            Err(e) => {
                self.primary_error = Some(e);
                self.phase = DiscoveryPhase::NeedFallback;
            },
        }
    }

    /// Reports one probe's outcome. A confirmed outcome ends the run at
    /// once with the candidate just probed — later candidates are never
    /// probed. Anything else is recorded and the walk moves on; an
    /// exhausted primary list moves to the fallback strategy, an exhausted
    /// fallback list ends the run.
    pub fn on_probe(&mut self, outcome: ProbeOutcome)
        requires
            old(self).wf(),
            old(self).phase is TryingPrimary || old(self).phase is TryingFallback,
        ensures
            final(self).wf(),
            final(self).primary_error == old(self).primary_error || (final(self).primary_error
                matches Some(e) && e is AllProbesFailed),
            outcome matches ProbeOutcome::Confirmed(_) ==> {
                &&& final(self).phase is Done
                &&& final(self).confirmed == Some(
                    old(self).candidates@[old(self).next_idx as int],
                )
                &&& final(self).primary_error == old(self).primary_error
                &&& final(self).primary_outcomes == old(self).primary_outcomes
                &&& final(self).fallback_error == old(self).fallback_error
                &&& final(self).fallback_outcomes == old(self).fallback_outcomes
            },
            !(outcome matches ProbeOutcome::Confirmed(_)) && old(self).phase is TryingPrimary
                ==> {
                &&& final(self).confirmed is None
                &&& final(self).primary_outcomes@ == old(self).primary_outcomes@.push(outcome)
                &&& final(self).fallback_error == old(self).fallback_error
                &&& final(self).fallback_outcomes == old(self).fallback_outcomes
                &&& (old(self).next_idx + 1 < old(self).candidates@.len() ==> {
                    &&& final(self).phase is TryingPrimary
                    &&& final(self).next_idx == old(self).next_idx + 1
                    &&& final(self).candidates == old(self).candidates
                    &&& final(self).primary_error == old(self).primary_error
                })
                &&& (old(self).next_idx + 1 == old(self).candidates@.len() ==> {
                    &&& final(self).phase is NeedFallback
                    &&& final(self).primary_error matches Some(e) && e is AllProbesFailed
                })
            },
            !(outcome matches ProbeOutcome::Confirmed(_)) && old(self).phase is TryingFallback
                ==> {
                &&& final(self).confirmed is None
                &&& final(self).fallback_outcomes@ == old(self).fallback_outcomes@.push(outcome)
                &&& final(self).primary_error == old(self).primary_error
                &&& final(self).primary_outcomes == old(self).primary_outcomes
                &&& (old(self).next_idx + 1 < old(self).candidates@.len() ==> {
                    &&& final(self).phase is TryingFallback
                    &&& final(self).next_idx == old(self).next_idx + 1
                    &&& final(self).candidates == old(self).candidates
                    &&& final(self).fallback_error == old(self).fallback_error
                })
                &&& (old(self).next_idx + 1 == old(self).candidates@.len() ==> {
                    &&& final(self).phase is Done
                    &&& final(self).fallback_error matches Some(e) && e is AllProbesFailed
                })
            },
    {
        let confirmed = match &outcome {
            ProbeOutcome::Confirmed(_) => true,
            _ => false,
        };
        if confirmed {
            let addr = self.candidates[self.next_idx].clone();
            self.confirmed = Some(addr);
            self.phase = DiscoveryPhase::Done;
            return;
        }
        let primary = match self.phase {
            DiscoveryPhase::TryingPrimary => true,
            _ => false,
        };
        if primary {
            self.primary_outcomes.push(outcome);
        } else {
            self.fallback_outcomes.push(outcome);
        }
        let len = self.candidates.len();
        proof {
            assert(self.next_idx < self.candidates@.len());
        }
        if self.next_idx + 1 < len {
            self.next_idx += 1;
        } else {
            if primary {
                self.primary_error = Some(DiscoveryError::AllProbesFailed);
                self.phase = DiscoveryPhase::NeedFallback;
            } else {
                self.fallback_error = Some(DiscoveryError::AllProbesFailed);
                self.phase = DiscoveryPhase::Done;
            }
        }
    }

    /// Reports the fallback scan's result. A non-empty list is probed in
    /// order; a failure or an empty list ends the run. Either way the
    /// primary strategy's record is left untouched, so a failed run
    /// carries both strategies' diagnostics.
    pub fn on_fallback(&mut self, r: Result<Vec<String>, DiscoveryError>)
        requires
            old(self).wf(),
            old(self).phase is NeedFallback,
            old(self).fallback_outcomes@.len() == 0,
            old(self).confirmed is None,
        ensures
            final(self).wf(),
            final(self).confirmed is None,
            final(self).primary_error == old(self).primary_error,
            final(self).primary_outcomes == old(self).primary_outcomes,
            final(self).fallback_outcomes == old(self).fallback_outcomes,
            (match r {
                Ok(v) => if v@.len() > 0 {
                    &&& final(self).phase is TryingFallback
                    &&& final(self).candidates == v
                    &&& final(self).next_idx == 0
                    &&& final(self).fallback_error is None
                } else {
                    &&& final(self).phase is Done
                    &&& final(self).fallback_error matches Some(e) && e is NoFallbackCandidates
                },
                Err(e) => {
                    &&& final(self).phase is Done
                    &&& final(self).fallback_error == Some(e)
                },
            }),
    {
        match r {
            Ok(v) => {
                if v.len() > 0 {
                    self.candidates = v;
                    self.next_idx = 0;
                    self.fallback_error = None;
                    self.phase = DiscoveryPhase::TryingFallback;
                } else {
                    self.fallback_error = Some(DiscoveryError::NoFallbackCandidates);
                    self.phase = DiscoveryPhase::Done;
                }
            },
            Err(e) => {
                self.fallback_error = Some(e);
                self.phase = DiscoveryPhase::Done;
            },
        }
    }

    /// The run's result: the confirmed address, or the aggregated failure
    /// carrying both strategies' diagnostics and every probe outcome.
    pub fn into_result(self) -> (r: Result<String, DiscoveryFailure>)
        requires
            self.wf(),
            self.phase is Done,
        ensures
            self.confirmed matches Some(a) ==> r == Ok::<String, DiscoveryFailure>(a),
            self.confirmed is None ==> (r matches Err(f) && f.primary_error
                == self.primary_error && f.primary_outcomes == self.primary_outcomes
                && f.fallback_error == self.fallback_error && f.fallback_outcomes
                == self.fallback_outcomes),
    {
        match self.confirmed {
            Some(a) => Ok(a),
            None => Err(
                DiscoveryFailure {
                    primary_error: self.primary_error,
                    primary_outcomes: self.primary_outcomes,
                    fallback_error: self.fallback_error,
                    fallback_outcomes: self.fallback_outcomes,
                },
            ),
        }
    }
}

} // verus!
