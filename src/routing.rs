//! Classification of an incoming request by its `Host`, path and method into
//! one routing verdict, and the fixed responses that some verdicts carry.
use vstd::prelude::*;

use crate::text::{
    all_digits, chars_eq_str, chars_of, is_all_digits, lemma_split_nonempty,
    parse_positive_u16, positive_u16_of, split_chars, split_spec, string_of,
};

verus! {

/// The port whose responses get the origin-aware CORS and CSP treatment.
pub const CONTROL_PORT: u16 = 39378;

pub const MSG_INVALID_CMUX_PROXY_SUBDOMAIN: &'static str = "Invalid cmux proxy subdomain";

pub const MSG_INVALID_PORT_CMUX_PROXY: &'static str = "Invalid port in cmux proxy subdomain";

pub const MSG_INVALID_CMUX_SUBDOMAIN: &'static str = "Invalid cmux subdomain";

pub const MSG_INVALID_PORT_SUBDOMAIN: &'static str = "Invalid port in subdomain";

pub const MSG_LOOP_DETECTED: &'static str = "Loop detected in proxy";

pub const MSG_NOT_FOUND: &'static str = "Not found";

pub const APEX_GREETING: &'static str = "cmux!";

pub const HEALTH_BODY: &'static str = "{\"status\":\"healthy\"}";

/// Whether a port route gets the plain or the control-port CORS treatment.
#[derive(Clone, Copy, Debug, PartialEq, Eq, Structural)]
pub enum CorsMode {
    Normal,
    Control,
}

/// The routing verdict for one request.
#[derive(Clone, Debug, PartialEq, Eq)]
pub enum Verdict {
    /// `/health` on any host.
    Health,
    /// The apex domain itself, `GET /`.
    ApexGreeting,
    /// `/proxy-sw.js` on any host.
    ServiceWorker,
    /// `port-<N>-<tag>.<domain>`: TCP port `N` on the default backend.
    PortRoute { port: u16, loopback: bool, cors_mode: CorsMode },
    /// `cmux-<slug>-<port>` or `cmux-<slug>-<scope>-<port>`.
    CmuxRoute { slug: String, port: u16 },
    /// `<name>-<port>-<vmslug>`.
    WorkspaceRoute { slug: String, port: u16 },
    /// A recognised family with a malformed shape.
    RejectSyntax { message: String },
    /// A recognised family whose port is not a positive `u16`.
    RejectPort { message: String },
    /// A forwarded route on a request that already carries the loop header.
    LoopDetected,
    /// No family applies (a host without subdomain, or the apex off `/`).
    NotFound,
}

/// The mathematical value of a [`Verdict`].
pub enum Route {
    Health,
    ApexGreeting,
    ServiceWorker,
    Port { port: u16, control: bool },
    Cmux { slug: Seq<char>, port: u16 },
    Workspace { slug: Seq<char>, port: u16 },
    RejectSyntax { message: Seq<char> },
    RejectPort { message: Seq<char> },
    LoopDetected,
    NotFound,
}

impl View for Verdict {
    type V = Route;

    open spec fn view(&self) -> Route {
        match self {
            Verdict::Health => Route::Health,
            Verdict::ApexGreeting => Route::ApexGreeting,
            Verdict::ServiceWorker => Route::ServiceWorker,
            Verdict::PortRoute { port, loopback, cors_mode } => Route::Port {
                port: *port,
                control: *cors_mode == CorsMode::Control,
            },
            Verdict::CmuxRoute { slug, port } => Route::Cmux { slug: slug@, port: *port },
            Verdict::WorkspaceRoute { slug, port } => Route::Workspace { slug: slug@, port: *port },
            Verdict::RejectSyntax { message } => Route::RejectSyntax { message: message@ },
            Verdict::RejectPort { message } => Route::RejectPort { message: message@ },
            Verdict::LoopDetected => Route::LoopDetected,
            Verdict::NotFound => Route::NotFound,
        }
    }
}

impl Route {
    /// Routes whose requests are forwarded to an upstream.
    pub open spec fn is_forwarded(self) -> bool {
        self is Port || self is Cmux || self is Workspace
    }
}

pub open spec fn is_alnum(c: char) -> bool {
    ('0' <= c && c <= '9') || ('a' <= c && c <= 'z') || ('A' <= c && c <= 'Z')
}

pub open spec fn all_alnum(s: Seq<char>) -> bool {
    forall|i: int| 0 <= i < s.len() ==> is_alnum(s[i])
}

/// The host without a trailing `:port`.
pub open spec fn host_name(host: Seq<char>) -> Seq<char> {
    split_spec(host, ':')[0]
}

/// `port-(\d+)-[A-Za-z0-9]+`, split at `-`.
pub open spec fn is_port_label(parts: Seq<Seq<char>>) -> bool {
    &&& parts.len() == 3
    &&& parts[0] == "port"@
    &&& parts[1].len() > 0
    &&& all_digits(parts[1])
    &&& parts[2].len() > 0
    &&& all_alnum(parts[2])
}

/// The verdict that the leftmost label of a host gives, before loop detection.
pub open spec fn classify_label(label: Seq<char>) -> Route {
    let parts = split_spec(label, '-');
    if is_port_label(parts) {
        match positive_u16_of(parts[1]) {
            Some(p) => Route::Port { port: p, control: p == CONTROL_PORT },
            None => Route::RejectPort { message: MSG_INVALID_PORT_CMUX_PROXY@ },
        }
    } else if parts.len() >= 2 && parts[0] == "cmux"@ {
        if parts.len() < 3 {
            Route::RejectSyntax { message: MSG_INVALID_CMUX_PROXY_SUBDOMAIN@ }
        } else {
            match positive_u16_of(parts.last()) {
                Some(p) => Route::Cmux { slug: parts[1], port: p },
                None => Route::RejectPort { message: MSG_INVALID_PORT_CMUX_PROXY@ },
            }
        }
    } else if parts.len() < 3 {
        Route::RejectSyntax { message: MSG_INVALID_CMUX_SUBDOMAIN@ }
    } else {
        match positive_u16_of(parts[parts.len() - 2]) {
            Some(p) => Route::Workspace { slug: parts.last(), port: p },
            None => Route::RejectPort { message: MSG_INVALID_PORT_SUBDOMAIN@ },
        }
    }
}

/// The verdict for a request with the given `Host` header, path and method;
/// `proxied` tells whether the request carries the loop header, `apex` is
/// the configured root domain. Families are tried in the order health, apex,
/// service worker, then the leftmost label's port, cmux and workspace forms.
pub open spec fn route_spec(
    host: Seq<char>,
    path: Seq<char>,
    method: Seq<char>,
    proxied: bool,
    apex: Seq<char>,
) -> Route {
    let h = host_name(host);
    let labels = split_spec(h, '.');
    if path == "/health"@ {
        Route::Health
    } else if h == apex && path == "/"@ && method == "GET"@ {
        Route::ApexGreeting
    } else if path == "/proxy-sw.js"@ {
        Route::ServiceWorker
    } else if h == apex || labels.len() < 2 {
        Route::NotFound
    } else {
        let v = classify_label(labels[0]);
        if proxied && v.is_forwarded() {
            Route::LoopDetected
        } else {
            v
        }
    }
}

/// The status of the response that a verdict answers with itself (0 for
/// forwarded routes, which the upstream answers).
pub open spec fn status_of(r: Route) -> u16 {
    match r {
        Route::Health => 200,
        Route::ApexGreeting => 200,
        Route::ServiceWorker => 200,
        Route::RejectSyntax { .. } => 400,
        Route::RejectPort { .. } => 400,
        Route::LoopDetected => 508,
        Route::NotFound => 404,
        _ => 0,
    }
}

fn is_alnum_chars(v: &Vec<char>) -> (r: bool)
    ensures
        r == all_alnum(v@),
{
    let mut i: usize = 0;
    while i < v.len()
        invariant
            i <= v.len(),
            forall|j: int| 0 <= j < i ==> is_alnum(v@[j]),
        decreases v.len() - i,
    {
        let c = v[i];
        if !(('0' <= c && c <= '9') || ('a' <= c && c <= 'z') || ('A' <= c && c <= 'Z')) {
            return false;
        }
        i = i + 1;
    }
    true
}

fn reject_syntax(message: &str) -> (r: Verdict)
    ensures
        r@ == (Route::RejectSyntax { message: message@ }),
{
    Verdict::RejectSyntax { message: string_of(&chars_of(message)) }
}

fn reject_port(message: &str) -> (r: Verdict)
    ensures
        r@ == (Route::RejectPort { message: message@ }),
{
    Verdict::RejectPort { message: string_of(&chars_of(message)) }
}

/// The verdict that the leftmost label of a host gives, before loop detection.
pub fn classify_host_label(label: &Vec<char>) -> (r: Verdict)
    ensures
        r@ == classify_label(label@),
{
    let parts = split_chars(label, '-');
    let ghost sp = split_spec(label@, '-');
    proof {
        lemma_split_nonempty(label@, '-');
    }
    let n = parts.len();
    let is_port = n == 3 && chars_eq_str(&parts[0], "port") && parts[1].len() > 0 && is_all_digits(
        &parts[1],
    ) && parts[2].len() > 0 && is_alnum_chars(&parts[2]);
    assert(n == 3 ==> parts@[0]@ == sp[0] && parts@[1]@ == sp[1] && parts@[2]@ == sp[2]);
    if is_port {
        assert(is_port_label(sp));
        match parse_positive_u16(&parts[1]) {
            Some(p) => Verdict::PortRoute {
                port: p,
                loopback: false,
                cors_mode: if p == CONTROL_PORT {
                    CorsMode::Control
                } else {
                    CorsMode::Normal
                },
            },
            None => reject_port(MSG_INVALID_PORT_CMUX_PROXY),
        }
    } else if n >= 2 && chars_eq_str(&parts[0], "cmux") {
        assert(parts@[0]@ == sp[0]);
        if n < 3 {
            reject_syntax(MSG_INVALID_CMUX_PROXY_SUBDOMAIN)
        } else {
            assert(parts@[n - 1]@ == sp.last());
            assert(parts@[1]@ == sp[1]);
            match parse_positive_u16(&parts[n - 1]) {
                Some(p) => Verdict::CmuxRoute { slug: string_of(&parts[1]), port: p },
                None => reject_port(MSG_INVALID_PORT_CMUX_PROXY),
            }
        }
    } else if n < 3 {
        proof {
            if n >= 2 {
                assert(parts@[0]@ == sp[0]);
            }
        }
        reject_syntax(MSG_INVALID_CMUX_SUBDOMAIN)
    } else {
        assert(parts@[0]@ == sp[0]);
        assert(parts@[n - 2]@ == sp[sp.len() - 2]);
        assert(parts@[n - 1]@ == sp.last());
        match parse_positive_u16(&parts[n - 2]) {
            Some(p) => Verdict::WorkspaceRoute { slug: string_of(&parts[n - 1]), port: p },
            None => reject_port(MSG_INVALID_PORT_SUBDOMAIN),
        }
    }
}

/// Routes one request: `host` is the `Host` header as sent, `proxied` whether
/// the request carries the loop header `X-Cmux-Proxied`, `apex` the
/// configured root domain.
pub fn route_request(host: &str, path: &str, method: &str, proxied: bool, apex: &str) -> (r:
    Verdict)
    ensures
        r@ == route_spec(host@, path@, method@, proxied, apex@),
{
    let hv = chars_of(host);
    let host_parts = split_chars(&hv, ':');
    proof {
        lemma_split_nonempty(host@, ':');
    }
    let h = &host_parts[0];
    let pv = chars_of(path);
    let mv = chars_of(method);
    let av = chars_of(apex);
    let is_apex = crate::text::chars_eq(h, &av);
    if chars_eq_str(&pv, "/health") {
        Verdict::Health
    } else if is_apex && chars_eq_str(&pv, "/") && chars_eq_str(&mv, "GET") {
        Verdict::ApexGreeting
    } else if chars_eq_str(&pv, "/proxy-sw.js") {
        Verdict::ServiceWorker
    } else {
        let labels = split_chars(h, '.');
        if is_apex || labels.len() < 2 {
            Verdict::NotFound
        } else {
            let v = classify_host_label(&labels[0]);
            let forwarded = match v {
                Verdict::PortRoute { .. } => true,
                Verdict::CmuxRoute { .. } => true,
                Verdict::WorkspaceRoute { .. } => true,
                _ => false,
            };
            if proxied && forwarded {
                Verdict::LoopDetected
            } else {
                v
            }
        }
    }
}

/// A response that the proxy gives by itself.
#[derive(Clone, Debug, PartialEq, Eq)]
pub struct FixedResponse {
    pub status: u16,
    pub content_type: String,
    pub body: String,
}

/// The body of the canned service worker served at `/proxy-sw.js`.
pub const SERVICE_WORKER_JS: &'static str = "const isLoopbackHostname = (hostname) => hostname === 'localhost' || hostname === '127.0.0.1' || hostname === '[::1]' || hostname.endsWith('.localhost');\nself.addEventListener('install', (event) => { self.skipWaiting(); });\nself.addEventListener('activate', (event) => { event.waitUntil(self.clients.claim()); });\nself.addEventListener('fetch', (event) => {\n  const url = new URL(event.request.url);\n  if (!isLoopbackHostname(url.hostname)) { return; }\n  const match = url.port ? url.port : (url.protocol === 'https:' ? '443' : '80');\n  const target = new URL(self.location.href);\n  target.hostname = target.hostname.replace(/^port-\\d+-/, 'port-' + match + '-');\n  target.pathname = url.pathname;\n  target.search = url.search;\n  event.respondWith(fetch(new Request(target.toString(), event.request)));\n});\n";

/// The body a verdict answers with itself.
pub open spec fn body_of(r: Route) -> Seq<char> {
    match r {
        Route::Health => HEALTH_BODY@,
        Route::ApexGreeting => APEX_GREETING@,
        Route::ServiceWorker => SERVICE_WORKER_JS@,
        Route::RejectSyntax { message } => message,
        Route::RejectPort { message } => message,
        Route::LoopDetected => MSG_LOOP_DETECTED@,
        Route::NotFound => MSG_NOT_FOUND@,
        _ => Seq::empty(),
    }
}

fn fixed(status: u16, content_type: &str, body: &str) -> (r: FixedResponse)
    ensures
        r.status == status,
        r.content_type@ == content_type@,
        r.body@ == body@,
{
    FixedResponse {
        status,
        content_type: string_of(&chars_of(content_type)),
        body: string_of(&chars_of(body)),
    }
}

/// The response that the proxy gives by itself for a verdict; `None` for the
/// forwarded routes.
pub fn fixed_response(v: &Verdict) -> (r: Option<FixedResponse>)
    ensures
        v@.is_forwarded() <==> r is None,
        r matches Some(f) ==> f.status == status_of(v@) && f.body@ == body_of(v@),
{
    match v {
        Verdict::Health => Some(fixed(200, "application/json", HEALTH_BODY)),
        Verdict::ApexGreeting => Some(fixed(200, "text/plain; charset=utf-8", APEX_GREETING)),
        Verdict::ServiceWorker => Some(fixed(200, "application/javascript", SERVICE_WORKER_JS)),
        Verdict::RejectSyntax { message } => Some(
            FixedResponse {
                status: 400,
                content_type: string_of(&chars_of("text/plain; charset=utf-8")),
                body: message.clone(),
            },
        ),
        Verdict::RejectPort { message } => Some(
            FixedResponse {
                status: 400,
                content_type: string_of(&chars_of("text/plain; charset=utf-8")),
                body: message.clone(),
            },
        ),
        Verdict::LoopDetected => Some(fixed(508, "text/plain; charset=utf-8", MSG_LOOP_DETECTED)),
        Verdict::NotFound => Some(fixed(404, "text/plain; charset=utf-8", MSG_NOT_FOUND)),
        _ => None,
    }
}

/// The verdict does not depend on a `:port` in the `Host` header, only on the
/// host name, the path, the method and the presence of the loop header; equal
/// inputs give one and the same verdict.
pub proof fn lemma_route_depends_on_host_name(
    host1: Seq<char>,
    host2: Seq<char>,
    path: Seq<char>,
    method: Seq<char>,
    proxied: bool,
    apex: Seq<char>,
)
    requires
        host_name(host1) == host_name(host2),
    ensures
        route_spec(host1, path, method, proxied, apex) == route_spec(
            host2,
            path,
            method,
            proxied,
            apex,
        ),
{
}

/// Every request that would be forwarded to a port, cmux or workspace route
/// is answered with 508 and `Loop detected in proxy` when it carries the loop
/// header.
pub proof fn lemma_loop_header_answers_508(
    host: Seq<char>,
    path: Seq<char>,
    method: Seq<char>,
    apex: Seq<char>,
)
    requires
        route_spec(host, path, method, false, apex).is_forwarded(),
    ensures
        route_spec(host, path, method, true, apex) == Route::LoopDetected,
        status_of(route_spec(host, path, method, true, apex)) == 508,
        body_of(route_spec(host, path, method, true, apex)) == MSG_LOOP_DETECTED@,
{
}

} // verus!
