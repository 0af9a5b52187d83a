//! Walking the control CLI's install locations.
//!
//! The provider is a state machine: the caller asks it what to run next,
//! performs the subprocess call, and reports the outcome back as plain
//! data. The first location whose health check passes and whose structured
//! status output looks like a document ends the walk immediately, whatever
//! the parser then says; only after every location has failed does the
//! provider report the CLI unavailable, carrying one diagnostic per
//! location.

use vstd::prelude::*;

use crate::errors::DiscoveryError;
use crate::status::{
    cand_result_view, is_json_candidate, is_json_candidate_exec, parse_status, parse_status_spec,
};

verus! {

pub open spec fn cli_paths_spec() -> Seq<Seq<char>> {
    seq![
        "tailscale"@,
        "/usr/bin/tailscale"@,
        "/usr/local/bin/tailscale"@,
        "/opt/homebrew/bin/tailscale"@,
        "/Applications/Tailscale.app/Contents/MacOS/Tailscale"@,
    ]
}

/// The fixed ordered list of control-CLI install locations.
pub fn cli_paths() -> (r: Vec<String>)
    ensures
        r.deep_view() == cli_paths_spec(),
{
    let mut r: Vec<String> = Vec::new();
    r.push("tailscale".to_owned());
    r.push("/usr/bin/tailscale".to_owned());
    r.push("/usr/local/bin/tailscale".to_owned());
    r.push("/opt/homebrew/bin/tailscale".to_owned());
    r.push("/Applications/Tailscale.app/Contents/MacOS/Tailscale".to_owned());
    proof {
        assert(r.deep_view() =~~= cli_paths_spec());
    }
    r
}

fn clone_strings(v: &Vec<String>) -> (r: Vec<String>)
    ensures
        r@ == v@,
{
    let mut r: Vec<String> = Vec::new();
    let mut i: usize = 0;
    while i < v.len()
        invariant
            0 <= i <= v@.len(),
            r@.len() == i,
            forall|k: int| 0 <= k < i ==> r@[k] == v@[k],
        decreases v@.len() - i,
    {
        r.push(v[i].clone());
        i += 1;
    }
    proof {
        assert(r@ =~= v@);
    }
    r
}

/// What the caller is asked to run next.
pub enum CliRequest {
    /// Run the basic health subcommand (`status`) at this location.
    RunStatus(String),
    /// Run the structured subcommand (`status --json`) at this location.
    RunStatusJson(String),
    /// The walk is over; the provider holds its outcome.
    Finished,
}

/// The state of one walk over the CLI install locations.
pub struct PeerListProvider {
    /// The location currently under trial.
    pub idx: usize,
    /// The health check at `idx` passed; the structured output is awaited.
    pub awaiting_json: bool,
    /// One entry per location that has failed so far.
    pub diagnostics: Vec<String>,
    /// The walk's result, once it is over.
    pub outcome: Option<Result<Vec<String>, DiscoveryError>>,
}

impl PeerListProvider {
    pub open spec fn wf(self) -> bool {
        &&& self.idx <= cli_paths_spec().len()
        &&& (self.outcome is None ==> self.idx < cli_paths_spec().len())
        &&& (self.outcome is None ==> self.diagnostics@.len() == self.idx)
        &&& (self.awaiting_json ==> self.outcome is None)
        &&& ((self.outcome matches Some(r) && r matches Err(e) && e matches
            DiscoveryError::CliUnavailable(_)) ==> self.idx == cli_paths_spec().len())
    }

    /// A fresh walk, at the first location.
    pub fn new() -> (r: PeerListProvider)
        ensures
            r.wf(),
            r.idx == 0,
            !r.awaiting_json,
            r.diagnostics@.len() == 0,
            r.outcome is None,
    {
        PeerListProvider { idx: 0, awaiting_json: false, diagnostics: Vec::new(), outcome: None }
    }

    /// What to run next: the health check at the current location, its
    /// structured variant once health passed, or nothing once the walk is
    /// over.
    pub fn request(&self) -> (r: CliRequest)
        requires
            self.wf(),
        ensures
            self.outcome is Some ==> r is Finished,
            self.outcome is None && !self.awaiting_json ==> (r matches CliRequest::RunStatus(p)
                && p@ == cli_paths_spec()[self.idx as int]),
            self.outcome is None && self.awaiting_json ==> (r matches CliRequest::RunStatusJson(
                p,
            ) && p@ == cli_paths_spec()[self.idx as int]),
    {
        match &self.outcome {
            Some(_) => CliRequest::Finished,
            None => {
                let paths = cli_paths();
                proof {
                    assert(paths@.len() == paths.deep_view().len());
                    assert(paths.deep_view()[self.idx as int] == paths@[self.idx as int]@);
                }
                let p = paths[self.idx].clone();
                if self.awaiting_json {
                    CliRequest::RunStatusJson(p)
                } else {
                    CliRequest::RunStatus(p)
                }
            },
        }
    }

    /// Records a failed location and moves to the next one; after the last
    /// location the walk ends with `CliUnavailable` carrying every
    /// diagnostic.
    fn advance(&mut self, diagnostic: String)
        requires
            old(self).wf(),
            old(self).outcome is None,
        ensures
            final(self).wf(),
            final(self).idx == old(self).idx + 1,
            !final(self).awaiting_json,
            final(self).diagnostics@ == old(self).diagnostics@.push(diagnostic),
            old(self).idx + 1 < cli_paths_spec().len() ==> final(self).outcome is None,
            old(self).idx + 1 == cli_paths_spec().len() ==> (final(self).outcome matches Some(
                r,
            ) && r matches Err(e) && e matches DiscoveryError::CliUnavailable(d) && d@
                == final(self).diagnostics@),
    {
        self.awaiting_json = false;
        self.diagnostics.push(diagnostic);
        self.idx += 1;
        let total = cli_paths().len();
        proof {
            assert(cli_paths_spec().len() == 5);
        }
        if self.idx == total {
            let d = clone_strings(&self.diagnostics);
            self.outcome = Some(Err(DiscoveryError::CliUnavailable(d)));
        }
    }

    /// Reports the health subcommand's outcome at the current location:
    /// `ok` means it launched and exited successfully. On failure the
    /// diagnostic is recorded and the walk moves on.
    pub fn on_health(&mut self, ok: bool, diagnostic: String)
        requires
            old(self).wf(),
            old(self).outcome is None,
            !old(self).awaiting_json,
        ensures
            final(self).wf(),
            ok ==> *final(self) == (PeerListProvider { awaiting_json: true, ..*old(self) }),
            !ok ==> {
                &&& final(self).idx == old(self).idx + 1
                &&& !final(self).awaiting_json
                &&& final(self).diagnostics@ == old(self).diagnostics@.push(diagnostic)
                &&& (old(self).idx + 1 < cli_paths_spec().len() ==> final(self).outcome is None)
                &&& (old(self).idx + 1 == cli_paths_spec().len() ==> (final(self).outcome
                    matches Some(r) && r matches Err(e) && e matches
                    DiscoveryError::CliUnavailable(d) && d@ == final(self).diagnostics@))
            },
    {
        if ok {
            self.awaiting_json = true;
        } else {
            self.advance(diagnostic);
        }
    }

    /// Reports the structured subcommand's outcome at the current location.
    /// Usable output — launched, exited successfully, non-empty and
    /// starting with a document token — is handed to the parser, and the
    /// parser's result, success or failure, ends the walk immediately;
    /// anything else records the diagnostic and moves on.
    pub fn on_status_json(&mut self, ok: bool, stdout: String, diagnostic: String)
        requires
            old(self).wf(),
            old(self).outcome is None,
            old(self).awaiting_json,
        ensures
            final(self).wf(),
            ok && is_json_candidate(stdout@) ==> {
                &&& final(self).outcome matches Some(r) && cand_result_view(r)
                    == parse_status_spec(stdout@)
                &&& final(self).idx == old(self).idx
                &&& final(self).diagnostics@ == old(self).diagnostics@
            },
            !(ok && is_json_candidate(stdout@)) ==> {
                &&& final(self).idx == old(self).idx + 1
                &&& !final(self).awaiting_json
                &&& final(self).diagnostics@ == old(self).diagnostics@.push(diagnostic)
                &&& (old(self).idx + 1 < cli_paths_spec().len() ==> final(self).outcome is None)
                &&& (old(self).idx + 1 == cli_paths_spec().len() ==> (final(self).outcome
                    matches Some(r) && r matches Err(e) && e matches
                    DiscoveryError::CliUnavailable(d) && d@ == final(self).diagnostics@))
            },
    {
        if ok && is_json_candidate_exec(stdout.as_str()) {
            self.awaiting_json = false;
            let r = parse_status(stdout.as_str());
            self.outcome = Some(r);
        } else {
            self.advance(diagnostic);
        }
    }
}

} // verus!
