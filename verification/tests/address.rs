use mesh_discovery::address::{extract_ip_from_string, extract_tailscale_ip_from_line, format_ip, u8_to_string};

#[test]
fn accepts_plain_mesh_address() {
    assert_eq!(extract_ip_from_string("100.64.0.5"), Some("100.64.0.5".to_string()));
}

#[test]
fn strips_cidr_suffix() {
    assert_eq!(extract_ip_from_string("100.90.1.1/32"), Some("100.90.1.1".to_string()));
}

#[test]
fn strips_port_suffix() {
    assert_eq!(extract_ip_from_string("100.64.0.5:8096"), Some("100.64.0.5".to_string()));
}

#[test]
fn strips_cidr_then_port() {
    assert_eq!(extract_ip_from_string("100.127.255.254:22/1"), Some("100.127.255.254".to_string()));
}

#[test]
fn rejects_wrong_first_octet() {
    assert_eq!(extract_ip_from_string("10.0.0.1"), None);
    assert_eq!(extract_ip_from_string("101.64.0.1"), None);
    assert_eq!(extract_ip_from_string("192.168.1.1"), None);
}

#[test]
fn rejects_second_octet_outside_block() {
    assert_eq!(extract_ip_from_string("100.63.0.1"), None);
    assert_eq!(extract_ip_from_string("100.128.0.1"), None);
    assert_eq!(extract_ip_from_string("100.255.0.1"), None);
}

#[test]
fn accepts_block_boundaries() {
    assert_eq!(extract_ip_from_string("100.64.0.0"), Some("100.64.0.0".to_string()));
    assert_eq!(extract_ip_from_string("100.127.255.255"), Some("100.127.255.255".to_string()));
}

#[test]
fn rejects_malformed_strings() {
    assert_eq!(extract_ip_from_string(""), None);
    assert_eq!(extract_ip_from_string("abc"), None);
    assert_eq!(extract_ip_from_string("100.64.0"), None);
    assert_eq!(extract_ip_from_string("100.64.0.0.1"), None);
    assert_eq!(extract_ip_from_string("100.64.0."), None);
    assert_eq!(extract_ip_from_string("100.64.0.256"), None);
    assert_eq!(extract_ip_from_string("100.64.0.x"), None);
}

#[test]
fn rejects_ipv6() {
    assert_eq!(extract_ip_from_string("fd7a:115c:a1e0::1"), None);
}

#[test]
fn normalize_is_idempotent_on_output() {
    let once = extract_ip_from_string("100.89.3.7/10").unwrap();
    let twice = extract_ip_from_string(&once).unwrap();
    assert_eq!(once, twice);
}

#[test]
fn line_scanner_finds_interface_address() {
    let line = "    inet 100.64.0.1 netmask 0xffffffff";
    assert_eq!(extract_tailscale_ip_from_line(line), Some("100.64.0.1".to_string()));
}

#[test]
fn line_scanner_does_not_split_cidr_words() {
    // A word like `100.64.0.1/32` keeps its suffix after trimming, so its
    // last part is no octet; the scanner moves on.
    let line = "    inet 100.64.0.1/32 scope global tailscale0";
    assert_eq!(extract_tailscale_ip_from_line(line), None);
}

#[test]
fn line_scanner_trims_decorations() {
    let line = "addr:100.91.22.33, up";
    assert_eq!(extract_tailscale_ip_from_line(line), Some("100.91.22.33".to_string()));
}

#[test]
fn line_scanner_renders_canonically() {
    let line = "inet 100.064.0.01 more";
    assert_eq!(extract_tailscale_ip_from_line(line), Some("100.64.0.1".to_string()));
}

#[test]
fn line_scanner_skips_foreign_addresses() {
    assert_eq!(extract_tailscale_ip_from_line("inet 127.0.0.1/8 scope host lo"), None);
    assert_eq!(extract_tailscale_ip_from_line(""), None);
    assert_eq!(extract_tailscale_ip_from_line("flags=4163<UP,BROADCAST,RUNNING>"), None);
}

#[test]
fn line_scanner_takes_first_match() {
    let line = "peer 100.65.1.2 via 100.66.3.4";
    assert_eq!(extract_tailscale_ip_from_line(line), Some("100.65.1.2".to_string()));
}

#[test]
fn octet_rendering() {
    assert_eq!(u8_to_string(0), "0");
    assert_eq!(u8_to_string(7), "7");
    assert_eq!(u8_to_string(42), "42");
    assert_eq!(u8_to_string(100), "100");
    assert_eq!(u8_to_string(255), "255");
}

#[test]
fn ip_rendering() {
    assert_eq!(format_ip(100, 64, 0, 5), "100.64.0.5");
}
