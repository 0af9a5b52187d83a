use mesh_discovery::errors::DiscoveryError;
use mesh_discovery::json::JsonValue;
use mesh_discovery::status::{extract, parse_status};

fn obj(entries: Vec<(&str, JsonValue)>) -> JsonValue {
    let mut v: Vec<(String, JsonValue)> = Vec::new();
    for (k, val) in entries {
        v.push((k.to_string(), val));
    }
    JsonValue::Obj(v)
}

fn arr(items: Vec<JsonValue>) -> JsonValue {
    JsonValue::Arr(items)
}

fn s(text: &str) -> JsonValue {
    JsonValue::Str(text.to_string())
}

#[test]
fn peer_document_yields_candidate() {
    let doc = obj(vec![(
        "Peer",
        obj(vec![("p1", obj(vec![("TailscaleIPs", arr(vec![s("100.64.0.5")]))]))]),
    )]);
    assert_eq!(extract(&doc), vec!["100.64.0.5".to_string()]);
}

#[test]
fn self_document_strips_cidr() {
    let doc = obj(vec![("Self", obj(vec![("Addrs", arr(vec![s("100.90.1.1/32")]))]))]);
    assert_eq!(extract(&doc), vec!["100.90.1.1".to_string()]);
}

#[test]
fn empty_document_yields_empty_list() {
    let doc = obj(vec![]);
    assert_eq!(extract(&doc), Vec::<String>::new());
}

#[test]
fn parse_status_on_raw_peer_document() {
    let r = parse_status("{\"Peer\":{\"p1\":{\"TailscaleIPs\":[\"100.64.0.5\"]}}}");
    assert_eq!(r.unwrap(), vec!["100.64.0.5".to_string()]);
}

#[test]
fn parse_status_on_raw_self_document() {
    let r = parse_status("{\"Self\":{\"Addrs\":[\"100.90.1.1/32\"]}}");
    assert_eq!(r.unwrap(), vec!["100.90.1.1".to_string()]);
}

#[test]
fn parse_status_on_empty_object() {
    let r = parse_status("{}");
    assert_eq!(r.unwrap(), Vec::<String>::new());
}

#[test]
fn parse_status_rejects_empty_text() {
    assert!(matches!(parse_status(""), Err(DiscoveryError::MalformedStatus)));
    assert!(matches!(parse_status("   \n "), Err(DiscoveryError::MalformedStatus)));
}

#[test]
fn parse_status_rejects_non_document_text() {
    assert!(matches!(
        parse_status("Tailscale is stopped."),
        Err(DiscoveryError::MalformedStatus)
    ));
}

#[test]
fn parse_status_rejects_truncated_document() {
    assert!(matches!(parse_status("{\"Peer\": {"), Err(DiscoveryError::MalformedStatus)));
}

#[test]
fn parse_status_tolerates_surrounding_whitespace() {
    let r = parse_status("  \n {\"Self\":{\"TailscaleIPs\":[\"100.77.1.2\"]}} \n");
    assert_eq!(r.unwrap(), vec!["100.77.1.2".to_string()]);
}

#[test]
fn recursive_walk_finds_deeply_nested_address() {
    let doc = obj(vec![(
        "BackendState",
        obj(vec![(
            "Inner",
            arr(vec![obj(vec![("Values", arr(vec![s("nothing"), s("100.64.0.9")]))])]),
        )]),
    )]);
    assert_eq!(extract(&doc), vec!["100.64.0.9".to_string()]);
}

#[test]
fn recursive_walk_via_raw_text() {
    let r = parse_status("{\"a\":{\"b\":[{\"c\":[\"x\",\"100.64.0.9/32\"]}]}}");
    assert_eq!(r.unwrap(), vec!["100.64.0.9".to_string()]);
}

#[test]
fn peer_fields_inspected_in_order() {
    let doc = obj(vec![(
        "Peer",
        obj(vec![(
            "p1",
            obj(vec![
                ("Endpoints", arr(vec![s("100.66.0.2")])),
                ("TailscaleIPs", arr(vec![s("100.65.0.1")])),
            ]),
        )]),
    )]);
    assert_eq!(extract(&doc), vec!["100.65.0.1".to_string(), "100.66.0.2".to_string()]);
}

#[test]
fn peer_shape_wins_over_self_shape() {
    let doc = obj(vec![
        ("Peer", obj(vec![("p1", obj(vec![("TailscaleIPs", arr(vec![s("100.64.0.5")]))]))])),
        ("Self", obj(vec![("TailscaleIPs", arr(vec![s("100.70.0.7")]))])),
    ]);
    assert_eq!(extract(&doc), vec!["100.64.0.5".to_string()]);
}

#[test]
fn field_value_may_be_single_string() {
    let doc = obj(vec![("Self", obj(vec![("Addrs", s("100.80.0.3:41641"))]))]);
    assert_eq!(extract(&doc), vec!["100.80.0.3".to_string()]);
}

#[test]
fn duplicates_dropped_in_insertion_order() {
    let doc = obj(vec![(
        "Peer",
        obj(vec![
            (
                "p1",
                obj(vec![
                    ("TailscaleIPs", arr(vec![s("100.64.0.5"), s("100.64.0.6")])),
                    ("Addrs", arr(vec![s("100.64.0.5/32")])),
                ]),
            ),
            ("p2", obj(vec![("TailscaleIPs", arr(vec![s("100.64.0.6")]))])),
        ]),
    )]);
    assert_eq!(extract(&doc), vec!["100.64.0.5".to_string(), "100.64.0.6".to_string()]);
}

#[test]
fn non_string_values_ignored() {
    let doc = obj(vec![(
        "Peer",
        obj(vec![("p1", obj(vec![("TailscaleIPs", arr(vec![JsonValue::Number, JsonValue::Null, JsonValue::Bool(true)]))]))]),
    )]);
    assert_eq!(extract(&doc), Vec::<String>::new());
}
