use cmux::cors::{control_headers, preflight_for, PREFLIGHT_STATUS};
use cmux::html::{inject_scripts, injects_service_worker};
use cmux::routing::{fixed_response, route_request, CorsMode, Verdict};

const APEX: &str = "cmux.sh";

fn header<'a>(hs: &'a [(String, String)], name: &str) -> Option<&'a str> {
    hs.iter()
        .find(|(k, _)| k.eq_ignore_ascii_case(name))
        .map(|(_, v)| v.as_str())
}

#[test]
fn health_check() {
    let v = route_request("localhost", "/health", "GET", false, APEX);
    let r = fixed_response(&v).expect("fixed response");
    assert_eq!(r.status, 200);
    let json: serde_json::Value = serde_json::from_str(&r.body).expect("json");
    assert_eq!(json["status"], "healthy");
}

#[test]
fn apex_returns_greeting() {
    let v = route_request("cmux.sh", "/", "GET", false, APEX);
    let r = fixed_response(&v).expect("fixed response");
    assert_eq!(r.status, 200);
    assert_eq!(r.body, "cmux!");
}

#[test]
fn service_worker_route() {
    let v = route_request("port-8080-test.cmux.sh", "/proxy-sw.js", "GET", false, APEX);
    let r = fixed_response(&v).expect("fixed response");
    assert_eq!(r.status, 200);
    assert_eq!(r.content_type, "application/javascript");
    assert!(r.body.contains("addEventListener"));
    assert!(r.body.contains("isLoopbackHostname"));
}

#[test]
fn port_options_preflight() {
    let v = route_request("port-39378-test.cmux.sh", "/", "OPTIONS", false, APEX);
    let hs = preflight_for(&v, None, None).expect("preflight");
    assert_eq!(PREFLIGHT_STATUS, 204);
    assert_eq!(header(&hs, "access-control-allow-origin"), Some("https://cmux.sh"));
}

#[test]
fn port_loop_detection() {
    let v = route_request("port-8080-test.cmux.sh", "/", "GET", true, APEX);
    assert_eq!(v, Verdict::LoopDetected);
    let r = fixed_response(&v).expect("fixed response");
    assert_eq!(r.status, 508);
    assert_eq!(r.body, "Loop detected in proxy");
}

#[test]
fn port_head_request_passes_validation() {
    let v = route_request("port-8080-j2z9smmu.cmux.sh", "/test", "HEAD", false, APEX);
    assert_eq!(
        v,
        Verdict::PortRoute { port: 8080, loopback: false, cors_mode: CorsMode::Normal }
    );
    assert!(fixed_response(&v).is_none());
}

#[test]
fn cmux_subdomain_validation() {
    let invalid = fixed_response(&route_request("cmux-test.cmux.sh", "/", "GET", false, APEX))
        .expect("fixed response");
    assert_eq!(invalid.status, 400);
    assert_eq!(invalid.body, "Invalid cmux proxy subdomain");

    let invalid_port =
        fixed_response(&route_request("cmux-test-abc.cmux.sh", "/", "GET", false, APEX))
            .expect("fixed response");
    assert_eq!(invalid_port.status, 400);
    assert_eq!(invalid_port.body, "Invalid port in cmux proxy subdomain");
}

#[test]
fn cmux_head_request_validation() {
    let v = route_request("cmux-j2z9smmu-8080.cmux.sh", "/test", "HEAD", false, APEX);
    assert_eq!(v, Verdict::CmuxRoute { slug: "j2z9smmu".to_string(), port: 8080 });
    assert!(fixed_response(&v).is_none());
}

#[test]
fn cmux_domain_header_with_port_is_parsed() {
    let v = route_request("cmux-uopbmezr-39378.cmux.localhost:8090", "/", "HEAD", false, APEX);
    assert_eq!(v, Verdict::CmuxRoute { slug: "uopbmezr".to_string(), port: 39378 });
    assert!(fixed_response(&v).is_none());
}

#[test]
fn cmux_base_scope_validation() {
    let v = route_request("cmux-test-base-8080.cmux.sh", "/", "HEAD", false, APEX);
    assert_eq!(v, Verdict::CmuxRoute { slug: "test".to_string(), port: 8080 });
}

#[test]
fn cmux_loop_detection() {
    let v = route_request("cmux-test-8080.cmux.sh", "/", "GET", true, APEX);
    let r = fixed_response(&v).expect("fixed response");
    assert_eq!(r.status, 508);
    assert_eq!(r.body, "Loop detected in proxy");
}

#[test]
fn workspace_subdomain_validation() {
    let invalid = fixed_response(&route_request("test-8080.cmux.sh", "/", "GET", false, APEX))
        .expect("fixed response");
    assert_eq!(invalid.status, 400);
    assert_eq!(invalid.body, "Invalid cmux subdomain");

    let invalid_port =
        fixed_response(&route_request("workspace-abc-vmslug.cmux.sh", "/", "GET", false, APEX))
            .expect("fixed response");
    assert_eq!(invalid_port.status, 400);
    assert_eq!(invalid_port.body, "Invalid port in subdomain");
}

#[test]
fn workspace_head_validation() {
    let v = route_request("my-workspace-8080-vmslug.cmux.sh", "/test", "HEAD", false, APEX);
    assert_eq!(v, Verdict::WorkspaceRoute { slug: "vmslug".to_string(), port: 8080 });
    assert!(fixed_response(&v).is_none());
}

#[test]
fn workspace_loop_detection() {
    let v = route_request("workspace-8080-vmslug.cmux.sh", "/", "GET", true, APEX);
    let r = fixed_response(&v).expect("fixed response");
    assert_eq!(r.status, 508);
    assert_eq!(r.body, "Loop detected in proxy");
}

#[test]
fn html_responses_inject_scripts() {
    let html = "<html><head><title>Demo</title></head><body>Hello</body></html>";
    let v = route_request("port-8080-test.cmux.sh", "/", "GET", false, APEX);
    let body = inject_scripts(html, injects_service_worker(&v));
    assert!(body.contains("window.__cmuxLocation"), "missing location script");
    assert!(body.contains("navigator.serviceWorker.register"), "missing service worker script");
    assert!(body.starts_with("<html><head><script>"));
    assert!(body.ends_with("<title>Demo</title></head><body>Hello</body></html>"));
}

#[test]
fn html_responses_skip_service_worker_for_cmux_route() {
    let html = "<html><head><title>Demo</title></head><body>Hello</body></html>";
    let v = route_request("cmux-demo-8080.cmux.sh", "/", "GET", false, APEX);
    let body = inject_scripts(html, injects_service_worker(&v));
    assert!(body.contains("window.__cmuxLocation"));
    assert!(
        !body.contains("navigator.serviceWorker.register"),
        "service worker script should be skipped"
    );
}

#[test]
fn port_39378_applies_cors_and_csp() {
    let v = route_request("port-39378-test.cmux.localhost", "/", "GET", false, APEX);
    assert_eq!(
        v,
        Verdict::PortRoute { port: 39378, loopback: false, cors_mode: CorsMode::Control }
    );
    let upstream = vec![
        ("content-type".to_string(), "text/html".to_string()),
        ("content-security-policy".to_string(), "frame-ancestors 'none';".to_string()),
        ("x-frame-options".to_string(), "DENY".to_string()),
    ];
    let headers = control_headers(&upstream, "https://cmux.dev");
    assert_eq!(header(&headers, "access-control-allow-origin"), Some("https://cmux.dev"));
    assert_eq!(
        header(&headers, "content-security-policy"),
        Some("frame-ancestors 'self' https://cmux.local http://cmux.local https://www.cmux.sh https://cmux.sh https://www.cmux.dev https://cmux.dev http://localhost:5173;")
    );
    let vary = header(&headers, "vary").unwrap_or_default().to_ascii_lowercase();
    assert!(vary.split(',').any(|part| part.trim() == "origin"));
    assert!(header(&headers, "x-frame-options").is_none());

    let localhost = control_headers(&upstream, "http://localhost:5173");
    assert_eq!(
        header(&localhost, "access-control-allow-origin"),
        Some("http://localhost:5173")
    );
}

#[test]
fn loop_header_only_affects_forwarded_routes() {
    for host in ["port-8080-a.cmux.sh", "cmux-a-80.cmux.sh", "w-81-vm.cmux.sh"] {
        let plain = route_request(host, "/x", "GET", false, APEX);
        assert!(fixed_response(&plain).is_none());
        let looped = route_request(host, "/x", "GET", true, APEX);
        let r = fixed_response(&looped).unwrap();
        assert_eq!((r.status, r.body.as_str()), (508, "Loop detected in proxy"));
    }
    let rejected = route_request("cmux-test.cmux.sh", "/", "GET", true, APEX);
    assert_eq!(fixed_response(&rejected).unwrap().status, 400);
}

#[test]
fn host_port_does_not_change_the_verdict() {
    let a = route_request("port-3000-x.cmux.sh", "/a", "GET", false, APEX);
    let b = route_request("port-3000-x.cmux.sh:443", "/a", "GET", false, APEX);
    assert_eq!(a, b);
    assert_eq!(a, route_request("port-3000-x.cmux.sh", "/a", "GET", false, APEX));
}

#[test]
fn port_family_edge_cases() {
    let zero = fixed_response(&route_request("port-0-x.cmux.sh", "/", "GET", false, APEX)).unwrap();
    assert_eq!(zero.body, "Invalid port in cmux proxy subdomain");
    let big = fixed_response(&route_request("port-65536-x.cmux.sh", "/", "GET", false, APEX)).unwrap();
    assert_eq!(big.body, "Invalid port in cmux proxy subdomain");
    assert_eq!(
        route_request("port-65535-x.cmux.sh", "/", "GET", false, APEX),
        Verdict::PortRoute { port: 65535, loopback: false, cors_mode: CorsMode::Normal }
    );
    let not_digits =
        fixed_response(&route_request("port-abc-test.cmux.sh", "/", "GET", false, APEX)).unwrap();
    assert_eq!(not_digits.body, "Invalid port in subdomain");
    assert_eq!(route_request("localhost", "/", "GET", false, APEX), Verdict::NotFound);
    assert_eq!(route_request("cmux.sh", "/other", "GET", false, APEX), Verdict::NotFound);
}

#[test]
fn html_without_head_gets_scripts_in_front() {
    let body = inject_scripts("<p>hi</p>", true);
    assert!(body.starts_with("<script>"));
    assert!(body.ends_with("</script><p>hi</p>"));
    let upper = inject_scripts("<HTML><HEAD></HEAD></HTML>", false);
    assert!(upper.starts_with("<HTML><HEAD><script>"));
}
