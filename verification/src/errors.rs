//! The failure taxonomy of a discovery run.

use vstd::prelude::*;

verus! {

/// Why a strategy, or the whole run, produced no candidate.
///
/// Per-candidate and per-location failures are recorded as diagnostics and
/// never abort a run; one of these surfaces only when a whole strategy is
/// exhausted.
#[derive(Debug)]
pub enum DiscoveryError {
    /// No control CLI install location produced a usable status document;
    /// carries one diagnostic per location tried.
    CliUnavailable(Vec<String>),
    /// The control plane's output was empty or not parsable as a document.
    MalformedStatus,
    /// A strategy returned a well-formed but empty candidate list.
    NoCandidates,
    /// The heuristic fallback scan found nothing in either of its phases.
    NoFallbackCandidates,
    /// Candidates existed, but none of them confirmed the service.
    AllProbesFailed,
}

} // verus!
