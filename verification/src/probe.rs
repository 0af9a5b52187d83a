//! Classification of one candidate's liveness check.
//!
//! The caller issues the HTTP request; this module builds the URL for it
//! and classifies the response. Every outcome is data; nothing here raises.

use vstd::prelude::*;

use crate::address::{has_prefix, str_has_prefix};

verus! {

/// The outcome of probing one candidate address.
#[derive(Debug)]
pub enum ProbeOutcome {
    /// The address answered on the service's info endpoint.
    Confirmed(String),
    /// The address answered, but not like the service.
    Rejected,
    /// The probe's deadline passed.
    TimedOut,
    /// A transport-level failure, with its reason.
    ConnectionError(String),
}

/// URL of the service's public info endpoint at a candidate address, on the
/// service's well-known port.
pub open spec fn probe_url_spec(addr: Seq<char>) -> Seq<char> {
    "http://"@ + addr + ":8096/System/Info/Public"@
}

pub fn probe_url(address: &str) -> (r: String)
    ensures
        r@ == probe_url_spec(address@),
{
    let mut s = "http://".to_owned();
    s.append(address);
    s.append(":8096/System/Info/Public");
    proof {
        assert(s@ =~= probe_url_spec(address@));
    }
    s
}

/// URL for a direct, user-supplied health check: an address that already
/// carries a scheme keeps it and only gets the info path appended; a bare
/// host gets the default scheme, port and path.
pub open spec fn check_url_spec(ip: Seq<char>) -> Seq<char> {
    if has_prefix(ip, "http"@) {
        ip + "/System/Info/Public"@
    } else {
        probe_url_spec(ip)
    }
}

pub fn build_check_url(ip: &str) -> (r: String)
    ensures
        r@ == check_url_spec(ip@),
{
    if str_has_prefix(ip, "http") {
        let mut s = ip.to_owned();
        s.append("/System/Info/Public");
        proof {
            assert(s@ =~= check_url_spec(ip@));
        }
        s
    } else {
        probe_url(ip)
    }
}

/// Classifies an HTTP response: the success and redirect classes confirm
/// the service at the probed address, any other status rejects it.
pub fn outcome_from_status(address: &str, status: u16) -> (r: ProbeOutcome)
    ensures
        200 <= status && status < 400 ==> (r matches ProbeOutcome::Confirmed(a) && a@
            == address@),
        !(200 <= status && status < 400) ==> r == ProbeOutcome::Rejected,
{
    if 200 <= status && status < 400 {
        ProbeOutcome::Confirmed(address.to_owned())
    } else {
        ProbeOutcome::Rejected
    }
}

} // verus!
