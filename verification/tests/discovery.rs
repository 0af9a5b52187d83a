use mesh_discovery::errors::DiscoveryError;
use mesh_discovery::fallback::{
    fallback_candidates, find_local_octets, phase_a_targets, phase_b_candidates, select_connected,
};
use mesh_discovery::orchestrator::{DiscoveryOrchestrator, DiscoveryRequest};
use mesh_discovery::probe::{build_check_url, outcome_from_status, probe_url, ProbeOutcome};
use mesh_discovery::provider::{CliRequest, PeerListProvider};

// ---------------------------------------------------------------------------
// Provider walk
// ---------------------------------------------------------------------------

#[test]
fn provider_walks_all_locations_then_reports_unavailable() {
    let mut p = PeerListProvider::new();
    let mut health_checks = 0;
    loop {
        match p.request() {
            CliRequest::RunStatus(_) => {
                health_checks += 1;
                p.on_health(false, format!("launch failed at location {}", health_checks));
            }
            CliRequest::RunStatusJson(_) => panic!("health never passed"),
            CliRequest::Finished => break,
        }
    }
    assert_eq!(health_checks, 5);
    match p.outcome {
        Some(Err(DiscoveryError::CliUnavailable(diags))) => assert_eq!(diags.len(), 5),
        _ => panic!("expected CliUnavailable"),
    }
}

#[test]
fn provider_first_working_location_wins() {
    let mut p = PeerListProvider::new();
    match p.request() {
        CliRequest::RunStatus(path) => assert_eq!(path, "tailscale"),
        _ => panic!("expected a health check first"),
    }
    p.on_health(true, String::new());
    match p.request() {
        CliRequest::RunStatusJson(path) => assert_eq!(path, "tailscale"),
        _ => panic!("expected the structured variant next"),
    }
    p.on_status_json(
        true,
        "{\"Peer\":{\"p1\":{\"TailscaleIPs\":[\"100.64.0.5\"]}}}".to_string(),
        String::new(),
    );
    assert!(matches!(p.request(), CliRequest::Finished));
    match p.outcome {
        Some(Ok(candidates)) => assert_eq!(candidates, vec!["100.64.0.5".to_string()]),
        _ => panic!("expected candidates"),
    }
}

#[test]
fn provider_returns_parser_result_immediately_even_when_empty() {
    let mut p = PeerListProvider::new();
    p.on_health(true, String::new());
    p.on_status_json(true, "{}".to_string(), String::new());
    match p.outcome {
        Some(Ok(candidates)) => assert!(candidates.is_empty()),
        _ => panic!("an empty candidate list is not a provider failure"),
    }
}

#[test]
fn provider_skips_location_with_unusable_output() {
    let mut p = PeerListProvider::new();
    p.on_health(true, String::new());
    p.on_status_json(true, "Tailscale is stopped.".to_string(), "not a document".to_string());
    assert!(p.outcome.is_none());
    match p.request() {
        CliRequest::RunStatus(path) => assert_eq!(path, "/usr/bin/tailscale"),
        _ => panic!("expected the next location"),
    }
}

#[test]
fn provider_reports_malformed_status_from_bad_document() {
    let mut p = PeerListProvider::new();
    p.on_health(true, String::new());
    p.on_status_json(true, "{\"Peer\": {".to_string(), String::new());
    assert!(matches!(p.outcome, Some(Err(DiscoveryError::MalformedStatus))));
}

// ---------------------------------------------------------------------------
// Fallback scanner
// ---------------------------------------------------------------------------

#[test]
fn phase_a_scan_order() {
    let targets = phase_a_targets();
    assert_eq!(targets.len(), 54);
    assert_eq!(targets[0], "100.64.0.1");
    assert_eq!(targets[1], "100.64.0.2");
    assert_eq!(targets[8], "100.64.0.100");
    assert_eq!(targets[9], "100.65.0.1");
    assert_eq!(targets[53], "100.69.0.100");
}

#[test]
fn select_connected_keeps_scan_order() {
    let targets = phase_a_targets();
    let mut connected = vec![false; targets.len()];
    connected[10] = true;
    connected[3] = true;
    let hits = select_connected(&targets, &connected);
    assert_eq!(hits, vec!["100.64.0.4".to_string(), "100.65.0.2".to_string()]);
}

#[test]
fn phase_b_excludes_own_address() {
    let c = phase_b_candidates(100, 64, 0, 5);
    assert_eq!(c.len(), 9);
    assert!(!c.contains(&"100.64.0.5".to_string()));
    assert_eq!(c[0], "100.64.0.1");
    assert_eq!(c[8], "100.64.0.10");
}

#[test]
fn phase_b_keeps_all_ten_when_own_host_is_outside() {
    let c = phase_b_candidates(100, 72, 9, 77);
    assert_eq!(c.len(), 10);
    assert_eq!(c[0], "100.72.9.1");
    assert_eq!(c[9], "100.72.9.10");
}

#[test]
fn local_octets_found_in_interface_listing() {
    let lines = vec![
        "lo: flags=73<UP,LOOPBACK,RUNNING>".to_string(),
        "    inet 127.0.0.1/8 scope host lo".to_string(),
        "tailscale0: flags=4305<UP,POINTOPOINT>".to_string(),
        "    inet 100.101.102.103 --> 100.101.102.103 netmask 0xffffffff".to_string(),
    ];
    assert_eq!(find_local_octets(&lines), Some((100, 101, 102, 103)));
}

#[test]
fn local_octets_absent_from_plain_listing() {
    let lines = vec![
        "eth0: flags=4163<UP,BROADCAST,RUNNING,MULTICAST>".to_string(),
        "    inet 192.168.1.10/24 brd 192.168.1.255".to_string(),
    ];
    assert_eq!(find_local_octets(&lines), None);
}

#[test]
fn fallback_prefers_phase_a_hits() {
    let r = fallback_candidates(vec!["100.64.0.2".to_string()], Some((100, 64, 0, 9)));
    assert_eq!(r.unwrap(), vec!["100.64.0.2".to_string()]);
}

#[test]
fn fallback_synthesizes_from_local_address() {
    let r = fallback_candidates(Vec::new(), Some((100, 64, 0, 2)));
    let v = r.unwrap();
    assert_eq!(v.len(), 9);
    assert_eq!(v[0], "100.64.0.1");
}

#[test]
fn fallback_fails_with_nothing_to_go_on() {
    let r = fallback_candidates(Vec::new(), None);
    assert!(matches!(r, Err(DiscoveryError::NoFallbackCandidates)));
}

// ---------------------------------------------------------------------------
// Probe classification
// ---------------------------------------------------------------------------

#[test]
fn probe_url_shape() {
    assert_eq!(probe_url("100.64.0.5"), "http://100.64.0.5:8096/System/Info/Public");
}

#[test]
fn check_url_keeps_explicit_scheme() {
    assert_eq!(
        build_check_url("http://100.64.0.5:8920"),
        "http://100.64.0.5:8920/System/Info/Public"
    );
    assert_eq!(
        build_check_url("https://emby.example"),
        "https://emby.example/System/Info/Public"
    );
}

#[test]
fn check_url_defaults_bare_host() {
    assert_eq!(build_check_url("100.64.0.5"), "http://100.64.0.5:8096/System/Info/Public");
}

#[test]
fn statuses_classified() {
    assert!(matches!(outcome_from_status("a", 200), ProbeOutcome::Confirmed(ip) if ip == "a"));
    assert!(matches!(outcome_from_status("a", 204), ProbeOutcome::Confirmed(_)));
    assert!(matches!(outcome_from_status("a", 301), ProbeOutcome::Confirmed(_)));
    assert!(matches!(outcome_from_status("a", 404), ProbeOutcome::Rejected));
    assert!(matches!(outcome_from_status("a", 500), ProbeOutcome::Rejected));
    assert!(matches!(outcome_from_status("a", 101), ProbeOutcome::Rejected));
}

// ---------------------------------------------------------------------------
// Orchestrator
// ---------------------------------------------------------------------------

#[test]
fn first_confirming_candidate_wins_and_later_ones_are_never_probed() {
    let mut o = DiscoveryOrchestrator::new();
    assert!(matches!(o.request(), DiscoveryRequest::FetchPeerList));
    o.on_primary(Ok(vec!["A".to_string(), "B".to_string(), "C".to_string()]));
    let mut probed: Vec<String> = Vec::new();
    loop {
        match o.request() {
            DiscoveryRequest::Probe(addr) => {
                let outcome = if addr == "B" {
                    ProbeOutcome::Confirmed(addr.clone())
                } else {
                    ProbeOutcome::Rejected
                };
                probed.push(addr);
                o.on_probe(outcome);
            }
            DiscoveryRequest::Finished => break,
            _ => panic!("no other step belongs in this run"),
        }
    }
    assert_eq!(probed, vec!["A".to_string(), "B".to_string()]);
    assert_eq!(o.into_result().unwrap(), "B");
}

#[test]
fn provider_failure_invokes_fallback_exactly_once_and_failure_mentions_both() {
    let mut o = DiscoveryOrchestrator::new();
    o.on_primary(Err(DiscoveryError::CliUnavailable(vec!["no cli".to_string()])));
    let mut scans = 0;
    loop {
        match o.request() {
            DiscoveryRequest::RunFallbackScan => {
                scans += 1;
                o.on_fallback(Err(DiscoveryError::NoFallbackCandidates));
            }
            DiscoveryRequest::Finished => break,
            _ => panic!("no probe belongs in this run"),
        }
    }
    assert_eq!(scans, 1);
    let failure = o.into_result().unwrap_err();
    match failure.primary_error {
        Some(DiscoveryError::CliUnavailable(diags)) => {
            assert_eq!(diags, vec!["no cli".to_string()])
        }
        _ => panic!("the primary strategy's diagnostic must be kept"),
    }
    assert!(matches!(failure.fallback_error, Some(DiscoveryError::NoFallbackCandidates)));
}

#[test]
fn empty_primary_list_counts_as_no_candidates() {
    let mut o = DiscoveryOrchestrator::new();
    o.on_primary(Ok(Vec::new()));
    assert!(matches!(o.request(), DiscoveryRequest::RunFallbackScan));
    assert!(matches!(o.primary_error, Some(DiscoveryError::NoCandidates)));
}

#[test]
fn exhausted_probes_recorded_as_all_probes_failed() {
    let mut o = DiscoveryOrchestrator::new();
    o.on_primary(Ok(vec!["100.64.0.1".to_string(), "100.64.0.2".to_string()]));
    o.on_probe(ProbeOutcome::TimedOut);
    o.on_probe(ProbeOutcome::ConnectionError("refused".to_string()));
    assert!(matches!(o.request(), DiscoveryRequest::RunFallbackScan));
    o.on_fallback(Ok(vec!["100.65.0.1".to_string()]));
    o.on_probe(ProbeOutcome::Rejected);
    let failure = o.into_result().unwrap_err();
    assert!(matches!(failure.primary_error, Some(DiscoveryError::AllProbesFailed)));
    assert_eq!(failure.primary_outcomes.len(), 2);
    assert!(matches!(failure.fallback_error, Some(DiscoveryError::AllProbesFailed)));
    assert_eq!(failure.fallback_outcomes.len(), 1);
}

#[test]
fn end_to_end_cli_absent_fallback_confirms() {
    // The control CLI is absent at every install location.
    let mut provider = PeerListProvider::new();
    loop {
        match provider.request() {
            CliRequest::RunStatus(path) => {
                provider.on_health(false, format!("no such file: {}", path));
            }
            CliRequest::RunStatusJson(_) => panic!("health never passed"),
            CliRequest::Finished => break,
        }
    }
    let primary = provider.outcome.unwrap();
    assert!(matches!(primary, Err(DiscoveryError::CliUnavailable(_))));

    let mut o = DiscoveryOrchestrator::new();
    o.on_primary(primary);
    assert!(matches!(o.request(), DiscoveryRequest::RunFallbackScan));

    // The fallback scan finds exactly 100.64.0.2 answering.
    let targets = phase_a_targets();
    let connected: Vec<bool> = targets.iter().map(|t| t == "100.64.0.2").collect();
    let hits = select_connected(&targets, &connected);
    o.on_fallback(fallback_candidates(hits, None));

    match o.request() {
        DiscoveryRequest::Probe(addr) => {
            assert_eq!(addr, "100.64.0.2");
            let outcome = outcome_from_status(&addr, 200);
            o.on_probe(outcome);
        }
        _ => panic!("expected a probe of the fallback candidate"),
    }
    assert!(matches!(o.request(), DiscoveryRequest::Finished));
    assert_eq!(o.into_result().unwrap(), "100.64.0.2");
}
