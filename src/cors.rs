//! The origin-aware policy of the control port: which origins may embed and
//! call it, and how its responses' CORS, `Vary` and CSP headers are set.
use vstd::prelude::*;

use crate::text::{
    chars_eq, chars_of, eq_ignore_case, eq_ignore_case_chars, lemma_split_nonempty, lower_chars,
    lower_seq, push_chars, push_str, split_chars, split_spec, starts_with, string_of, trim_chars,
    trim_spec,
};
use crate::routing::Verdict;
use crate::websocket::{has_token, header_has_token, strings_view};

verus! {

/// The `frame-ancestors` directive that replaces any other on the control
/// port.
pub const FRAME_ANCESTORS: &'static str = "frame-ancestors 'self' https://cmux.local http://cmux.local https://www.cmux.sh https://cmux.sh https://www.cmux.dev https://cmux.dev http://localhost:5173;";

/// The origin a preflight answers when the request names no allowed one.
pub const DEFAULT_ORIGIN: &'static str = "https://cmux.sh";

pub const ALLOWED_METHODS: &'static str = "GET,HEAD,POST,PUT,PATCH,DELETE,OPTIONS";

/// The origins allowed on the control port.
pub open spec fn allowed_origin(o: Seq<char>) -> bool {
    ||| o == "https://cmux.sh"@
    ||| o == "https://www.cmux.sh"@
    ||| o == "https://cmux.dev"@
    ||| o == "https://www.cmux.dev"@
    ||| o == "http://localhost:5173"@
    ||| o == "https://cmux.local"@
    ||| o == "http://cmux.local"@
}

/// Whether an `Origin` may use the control port.
pub fn is_allowed_origin(origin: &str) -> (r: bool)
    ensures
        r == allowed_origin(origin@),
{
    let o = chars_of(origin);
    crate::text::chars_eq_str(&o, "https://cmux.sh") || crate::text::chars_eq_str(
        &o,
        "https://www.cmux.sh",
    ) || crate::text::chars_eq_str(&o, "https://cmux.dev") || crate::text::chars_eq_str(
        &o,
        "https://www.cmux.dev",
    ) || crate::text::chars_eq_str(&o, "http://localhost:5173") || crate::text::chars_eq_str(
        &o,
        "https://cmux.local",
    ) || crate::text::chars_eq_str(&o, "http://cmux.local")
}

/// A CSP directive whose name is `frame-ancestors` (any case).
pub open spec fn is_frame_ancestors(d: Seq<char>) -> bool {
    let n = split_spec(d, ' ')[0];
    eq_ignore_case(n, "frame-ancestors"@)
}

/// The directives of a policy that stay: trimmed, not empty, not
/// `frame-ancestors`.
pub open spec fn kept_directives(parts: Seq<Seq<char>>) -> Seq<Seq<char>>
    decreases parts.len(),
{
    if parts.len() == 0 {
        Seq::empty()
    } else {
        let prev = kept_directives(parts.drop_last());
        let d = trim_spec(parts.last());
        if d.len() == 0 || is_frame_ancestors(d) {
            prev
        } else {
            prev.push(d)
        }
    }
}

/// Each kept directive followed by `; `.
pub open spec fn joined_directives(ds: Seq<Seq<char>>) -> Seq<char>
    decreases ds.len(),
{
    if ds.len() == 0 {
        Seq::empty()
    } else {
        joined_directives(ds.drop_last()) + ds.last() + "; "@
    }
}

/// A policy with its `frame-ancestors` replaced by the control port's.
pub open spec fn rewrite_csp_spec(csp: Seq<char>) -> Seq<char> {
    joined_directives(kept_directives(split_spec(csp, ';'))) + FRAME_ANCESTORS@
}

fn is_frame_ancestors_exec(d: &Vec<char>) -> (r: bool)
    ensures
        r == is_frame_ancestors(d@),
{
    let parts = split_chars(d, ' ');
    proof {
        lemma_split_nonempty(d@, ' ');
    }
    eq_ignore_case_chars(&parts[0], &chars_of("frame-ancestors"))
}

/// Replaces the `frame-ancestors` directive of a Content-Security-Policy.
pub fn rewrite_csp(csp: &str) -> (r: String)
    ensures
        r@ == rewrite_csp_spec(csp@),
{
    let parts = split_chars(&chars_of(csp), ';');
    let ghost ps = split_spec(csp@, ';');
    let mut out = String::new();
    for i in 0..parts.len()
        invariant
            parts@.len() == ps.len(),
            forall|k: int| 0 <= k < parts@.len() ==> #[trigger] parts@[k]@ == ps[k],
            out@ == joined_directives(kept_directives(ps.subrange(0, i as int))),
    {
        proof {
            assert(ps.subrange(0, i + 1).drop_last() =~= ps.subrange(0, i as int));
            assert(ps.subrange(0, i + 1).last() == ps[i as int]);
        }
        let d = trim_chars(&parts[i]);
        let ghost k0 = kept_directives(ps.subrange(0, i as int));
        if d.len() > 0 && !is_frame_ancestors_exec(&d) {
            push_chars(&mut out, &d);
            push_str(&mut out, "; ");
            assert(k0.push(d@).drop_last() =~= k0);
        }
    }
    proof {
        assert(ps.subrange(0, parts@.len() as int) =~= ps);
    }
    push_str(&mut out, FRAME_ANCESTORS);
    out
}

/// `Vary` with `Origin` in it: unchanged when it already lists `Origin`,
/// `Origin` when it is absent or blank, else with `, Origin` added.
pub open spec fn merge_vary_spec(existing: Option<Seq<char>>) -> Seq<char> {
    match existing {
        None => "Origin"@,
        Some(v) => if has_token(seq![v], "origin"@) {
            v
        } else if trim_spec(v).len() == 0 {
            "Origin"@
        } else {
            v + ", Origin"@
        },
    }
}

/// The `Vary` value of a control-port response.
pub fn merge_vary(existing: Option<&str>) -> (r: String)
    ensures
        r@ == merge_vary_spec(
            match existing {
                Some(v) => Some(v@),
                None => None,
            },
        ),
{
    match existing {
        None => string_of(&chars_of("Origin")),
        Some(v) => {
            let vs = vec![string_of(&chars_of(v))];
            assert(strings_view(vs@) =~= seq![v@]);
            if header_has_token(&vs, "origin") {
                string_of(&chars_of(v))
            } else if trim_chars(&chars_of(v)).len() == 0 {
                string_of(&chars_of("Origin"))
            } else {
                let mut s = string_of(&chars_of(v));
                push_str(&mut s, ", Origin");
                s
            }
        },
    }
}

pub type HeaderList = Seq<(Seq<char>, Seq<char>)>;

pub open spec fn headers_view(v: Seq<(String, String)>) -> HeaderList {
    v.map_values(|p: (String, String)| (p.0@, p.1@))
}

pub open spec fn name_is(h: (Seq<char>, Seq<char>), name: Seq<char>) -> bool {
    lower_seq(h.0) == name
}

/// The response headers without those the policy replaces or drops
/// (`X-Frame-Options`, `Access-Control-Allow-Origin`, `Vary`), CSP policies
/// rewritten.
pub open spec fn policy_kept(hs: HeaderList) -> HeaderList
    decreases hs.len(),
{
    if hs.len() == 0 {
        Seq::empty()
    } else {
        let prev = policy_kept(hs.drop_last());
        let h = hs.last();
        if name_is(h, "x-frame-options"@) || name_is(h, "access-control-allow-origin"@)
            || name_is(h, "vary"@) {
            prev
        } else if name_is(h, "content-security-policy"@) {
            prev.push((h.0, rewrite_csp_spec(h.1)))
        } else {
            prev.push(h)
        }
    }
}

/// The value of the first header named `name` (any case).
pub open spec fn first_value(hs: HeaderList, name: Seq<char>) -> Option<Seq<char>>
    decreases hs.len(),
{
    if hs.len() == 0 {
        None
    } else if name_is(hs[0], name) {
        Some(hs[0].1)
    } else {
        first_value(hs.skip(1), name)
    }
}

/// A control-port response's headers for an allowed `origin`: the kept
/// headers, then `Access-Control-Allow-Origin: <origin>` and the merged
/// `Vary`.
pub open spec fn control_headers_spec(hs: HeaderList, origin: Seq<char>) -> HeaderList {
    policy_kept(hs).push(("Access-Control-Allow-Origin"@, origin)).push(
        ("Vary"@, merge_vary_spec(first_value(hs, "vary"@))),
    )
}

fn header_name_is(name: &String, lower: &str) -> (r: bool)
    ensures
        r == (lower_seq(name@) == lower@),
{
    let n = lower_chars(&chars_of(name.as_str()));
    crate::text::chars_eq_str(&n, lower)
}

fn first_header_value(hs: &Vec<(String, String)>, name: &str) -> (r: Option<String>)
    ensures
        match r {
            Some(v) => first_value(headers_view(hs@), name@) == Some(v@),
            None => first_value(headers_view(hs@), name@) is None,
        },
{
    let ghost hv = headers_view(hs@);
    let mut i: usize = 0;
    proof {
        assert(hv.skip(0) =~= hv);
    }
    while i < hs.len()
        invariant
            i <= hs.len(),
            hv == headers_view(hs@),
            first_value(hv.skip(i as int), name@) == first_value(hv, name@),
        decreases hs.len() - i,
    {
        assert(hv.skip(i as int)[0] == hv[i as int]);
        if header_name_is(&hs[i].0, name) {
            return Some(hs[i].1.clone());
        }
        assert(hv.skip(i as int).skip(1) =~= hv.skip(i + 1));
        i = i + 1;
    }
    None
}

/// Applies the control port's policy to a response's headers, for a request
/// whose `Origin` is allowed.
pub fn control_headers(hs: &Vec<(String, String)>, origin: &str) -> (r: Vec<(String, String)>)
    ensures
        headers_view(r@) == control_headers_spec(headers_view(hs@), origin@),
{
    let ghost hv = headers_view(hs@);
    let mut out: Vec<(String, String)> = Vec::new();
    for i in 0..hs.len()
        invariant
            hv == headers_view(hs@),
            headers_view(out@) == policy_kept(hv.subrange(0, i as int)),
    {
        proof {
            assert(hv.subrange(0, i + 1).drop_last() =~= hv.subrange(0, i as int));
            assert(hv.subrange(0, i + 1).last() == hv[i as int]);
        }
        let name = &hs[i].0;
        let ghost before = headers_view(out@);
        if header_name_is(name, "x-frame-options") || header_name_is(
            name,
            "access-control-allow-origin",
        ) || header_name_is(name, "vary") {
        } else if header_name_is(name, "content-security-policy") {
            let p = (name.clone(), rewrite_csp(hs[i].1.as_str()));
            out.push(p);
            assert(headers_view(out@) =~= before.push((p.0@, p.1@)));
        } else {
            let p = (name.clone(), hs[i].1.clone());
            out.push(p);
            assert(headers_view(out@) =~= before.push((p.0@, p.1@)));
        }
    }
    proof {
        assert(hv.subrange(0, hs@.len() as int) =~= hv);
    }
    let vary = match first_header_value(hs, "vary") {
        Some(v) => merge_vary(Some(v.as_str())),
        None => merge_vary(None),
    };
    let acao = (string_of(&chars_of("Access-Control-Allow-Origin")), string_of(&chars_of(origin)));
    let ghost b1 = headers_view(out@);
    out.push(acao);
    assert(headers_view(out@) =~= b1.push(("Access-Control-Allow-Origin"@, origin@)));
    let vh = (string_of(&chars_of("Vary")), vary);
    let ghost b2 = headers_view(out@);
    out.push(vh);
    assert(headers_view(out@) =~= b2.push(("Vary"@, vh.1@)));
    out
}

/// The headers of the 204 answer to a preflight: the request's origin when
/// allowed (else the apex's), the allowed methods, the requested headers
/// echoed (`*` when none were named), a day's max age, and `Vary: Origin`.
pub open spec fn preflight_spec(origin: Option<Seq<char>>, request_headers: Option<Seq<char>>) -> HeaderList {
    seq![
        ("Access-Control-Allow-Origin"@, match origin {
            Some(o) => if allowed_origin(o) {
                o
            } else {
                DEFAULT_ORIGIN@
            },
            None => DEFAULT_ORIGIN@,
        }),
        ("Access-Control-Allow-Methods"@, ALLOWED_METHODS@),
        ("Access-Control-Allow-Headers"@, match request_headers {
            Some(h) => h,
            None => "*"@,
        }),
        ("Access-Control-Max-Age"@, "86400"@),
        ("Vary"@, "Origin"@),
    ]
}

fn owned(s: &str) -> (r: String)
    ensures
        r@ == s@,
{
    string_of(&chars_of(s))
}

/// The headers of the answer to an `OPTIONS` preflight.
pub fn preflight_headers(origin: Option<&str>, request_headers: Option<&str>) -> (r: Vec<
    (String, String),
>)
    ensures
        headers_view(r@) == preflight_spec(
            match origin {
                Some(o) => Some(o@),
                None => None,
            },
            match request_headers {
                Some(h) => Some(h@),
                None => None,
            },
        ),
{
    let allow = match origin {
        Some(o) => if is_allowed_origin(o) {
            owned(o)
        } else {
            owned(DEFAULT_ORIGIN)
        },
        None => owned(DEFAULT_ORIGIN),
    };
    let req = match request_headers {
        Some(h) => owned(h),
        None => owned("*"),
    };
    let r = vec![
        (owned("Access-Control-Allow-Origin"), allow),
        (owned("Access-Control-Allow-Methods"), owned(ALLOWED_METHODS)),
        (owned("Access-Control-Allow-Headers"), req),
        (owned("Access-Control-Max-Age"), owned("86400")),
        (owned("Vary"), owned("Origin")),
    ];
    assert(headers_view(r@) =~= preflight_spec(
        match origin {
            Some(o) => Some(o@),
            None => None,
        },
        match request_headers {
            Some(h) => Some(h@),
            None => None,
        },
    ));
    r
}

/// The status of the answer to a preflight.
pub const PREFLIGHT_STATUS: u16 = 204;

/// The proxy answers an `OPTIONS` preflight itself, whatever the upstream,
/// on port and cmux routes: with status 204 and these headers.
pub fn preflight_for(v: &Verdict, origin: Option<&str>, request_headers: Option<&str>) -> (r: Option<
    Vec<(String, String)>,
>)
    ensures
        (v@ is Port || v@ is Cmux) <==> r is Some,
        r matches Some(h) ==> headers_view(h@) == preflight_spec(
            match origin {
                Some(o) => Some(o@),
                None => None,
            },
            match request_headers {
                Some(h) => Some(h@),
                None => None,
            },
        ),
{
    match v {
        Verdict::PortRoute { .. } => Some(preflight_headers(origin, request_headers)),
        Verdict::CmuxRoute { .. } => Some(preflight_headers(origin, request_headers)),
        _ => None,
    }
}

} // verus!
