use cmux::proxy::{
    is_hop_by_hop, is_upgrade_request, port_from_header, upstream_host, upstream_uri,
    workspace_ip_from_name, PortHeaderError, WorkspaceHeaderError,
};

#[test]
fn mapping_examples() {
    assert_eq!(workspace_ip_from_name("workspace-1"), Some([127, 18, 0, 1]));
    assert_eq!(workspace_ip_from_name("workspace-256"), Some([127, 18, 1, 0]));
    assert_eq!(workspace_ip_from_name("ws-3"), Some([127, 18, 0, 3]));
    assert_eq!(workspace_ip_from_name("abc"), None);
}

#[test]
fn workspace_mapping_limits() {
    assert_eq!(workspace_ip_from_name("w-4294967295"), Some([127, 18, 255, 255]));
    assert_eq!(workspace_ip_from_name("w-4294967296"), None);
    assert_eq!(workspace_ip_from_name("65793"), Some([127, 18, 1, 1]));
}

#[test]
fn port_header_values() {
    assert_eq!(port_from_header(Some("8080")), Ok(8080));
    assert_eq!(port_from_header(Some("+81")), Ok(81));
    assert_eq!(port_from_header(Some("0")), Err(PortHeaderError::Zero));
    assert_eq!(port_from_header(Some("65536")), Err(PortHeaderError::NotANumber));
    assert_eq!(port_from_header(Some("x")), Err(PortHeaderError::NotANumber));
    assert_eq!(port_from_header(None), Err(PortHeaderError::Missing));
    assert_eq!(
        PortHeaderError::Missing.message(),
        "missing required header: X-Cmux-Port-Internal"
    );
}

#[test]
fn upstream_host_selection() {
    assert_eq!(upstream_host(None, "10.0.0.2"), Ok("10.0.0.2".to_string()));
    assert_eq!(upstream_host(Some("workspace-258"), "x"), Ok("127.18.1.2".to_string()));
    assert_eq!(upstream_host(Some("nodigits"), "x"), Err(WorkspaceHeaderError::ExpectedDigits));
    assert_eq!(
        upstream_uri(false, "127.0.0.1", 3000, "/a?b=1"),
        "http://127.0.0.1:3000/a?b=1"
    );
    assert_eq!(upstream_uri(true, "h", 443, "/"), "https://h:443/");
}

#[test]
fn hop_by_hop_and_upgrade() {
    assert!(is_hop_by_hop("Connection", false));
    assert!(is_hop_by_hop("TE", true));
    assert!(is_hop_by_hop("upgrade", false));
    assert!(!is_hop_by_hop("Upgrade", true));
    assert!(!is_hop_by_hop("Content-Type", false));
    assert!(is_upgrade_request(Some("keep-alive, Upgrade"), Some("websocket")));
    assert!(!is_upgrade_request(Some("keep-alive"), Some("websocket")));
    assert!(!is_upgrade_request(Some("upgrade"), Some("")));
    assert!(!is_upgrade_request(None, Some("websocket")));
}
