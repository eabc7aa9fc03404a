//! Injection of the client-side scripts into HTML responses: the location
//! shim always, the service-worker registration except on cmux routes.
use vstd::prelude::*;

use crate::routing::{Route, Verdict};
use crate::text::{
    chars_of, contains_seq, eq_ignore_case, eq_ignore_case_chars, find_seq, lower_chars, lower_seq,
    occurs_at, push_chars, push_str, slice_of, starts_with, string_of, trim_chars, trim_spec,
};

verus! {

/// Bodies larger than this pass through unmodified (32 MiB).
pub const MAX_HTML_REWRITE_BYTES: usize = 33554432;

/// Publishes the externally visible location as `window.__cmuxLocation`.
pub const LOCATION_SHIM: &'static str = "<script>(function(){try{var l=window.location;window.__cmuxLocation={href:l.href,protocol:l.protocol,host:l.host,hostname:l.hostname,port:l.port,pathname:l.pathname,search:l.search,hash:l.hash,origin:l.origin};}catch(e){}})();</script>";

/// Registers the proxy's service worker.
pub const SERVICE_WORKER_REGISTRATION: &'static str = "<script>if('serviceWorker' in navigator){navigator.serviceWorker.register('/proxy-sw.js',{scope:'/'}).catch(function(){});}</script>";

/// Whether a response is rewritten: its type is `text/html`, it is not
/// compressed with gzip, br or deflate, and it is not larger than the bound.
pub open spec fn should_rewrite_spec(
    content_type: Option<Seq<char>>,
    content_encoding: Option<Seq<char>>,
    body_len: nat,
) -> bool {
    &&& content_type matches Some(t) && starts_with(lower_seq(trim_spec(t)), "text/html"@)
    &&& !(content_encoding matches Some(e) && {
        let l = lower_seq(trim_spec(e));
        l == "gzip"@ || l == "br"@ || l == "deflate"@
    })
    &&& body_len <= MAX_HTML_REWRITE_BYTES
}

/// Whether an upstream response's body gets the scripts.
pub fn should_rewrite(content_type: Option<&str>, content_encoding: Option<&str>, body_len: usize) -> (r:
    bool)
    ensures
        r == should_rewrite_spec(
            match content_type {
                Some(t) => Some(t@),
                None => None,
            },
            match content_encoding {
                Some(e) => Some(e@),
                None => None,
            },
            body_len as nat,
        ),
{
    if body_len > MAX_HTML_REWRITE_BYTES {
        return false;
    }
    let html = match content_type {
        Some(t) => {
            let l = lower_chars(&trim_chars(&chars_of(t)));
            crate::text::starts_with_str(&l, "text/html")
        },
        None => false,
    };
    let compressed = match content_encoding {
        Some(e) => {
            let l = lower_chars(&trim_chars(&chars_of(e)));
            crate::text::chars_eq_str(&l, "gzip") || crate::text::chars_eq_str(&l, "br")
                || crate::text::chars_eq_str(&l, "deflate")
        },
        None => false,
    };
    html && !compressed
}

/// Whether a route's pages register the service worker.
pub open spec fn registers_service_worker(r: Route) -> bool {
    !(r is Cmux)
}

/// The scripts injected for a route.
pub open spec fn scripts_for(with_sw: bool) -> Seq<char> {
    if with_sw {
        LOCATION_SHIM@ + SERVICE_WORKER_REGISTRATION@
    } else {
        LOCATION_SHIM@
    }
}

/// The body with the scripts right after the first `<head>` (in any case),
/// or in front of the body when there is none.
pub open spec fn inject_spec(body: Seq<char>, with_sw: bool) -> Seq<char> {
    let lb = lower_seq(body);
    if contains_seq(lb, "<head>"@) {
        let i = choose|i: int|
            occurs_at(lb, "<head>"@, i) && forall|j: int| 0 <= j < i ==> !occurs_at(lb, "<head>"@, j);
        body.subrange(0, i + 6) + scripts_for(with_sw) + body.subrange(i + 6, body.len() as int)
    } else {
        scripts_for(with_sw) + body
    }
}

proof fn lemma_first_occurrence_unique(s: Seq<char>, p: Seq<char>, i: int, k: int)
    requires
        occurs_at(s, p, i),
        forall|j: int| 0 <= j < i ==> !occurs_at(s, p, j),
        occurs_at(s, p, k),
        forall|j: int| 0 <= j < k ==> !occurs_at(s, p, j),
    ensures
        i == k,
{
    if i < k {
        assert(!occurs_at(s, p, i));
    } else if k < i {
        assert(!occurs_at(s, p, k));
    }
}

/// Whether the pages of a verdict register the service worker.
pub fn injects_service_worker(v: &Verdict) -> (r: bool)
    ensures
        r == registers_service_worker(v@),
{
    match v {
        Verdict::CmuxRoute { .. } => false,
        _ => true,
    }
}

/// The body of an HTML response with the client scripts injected.
pub fn inject_scripts(body: &str, with_service_worker: bool) -> (r: String)
    ensures
        r@ == inject_spec(body@, with_service_worker),
{
    let bv = chars_of(body);
    let lb = lower_chars(&bv);
    let pat = chars_of("<head>");
    proof {
        reveal_strlit("<head>");
    }
    let mut scripts = string_of(&chars_of(LOCATION_SHIM));
    if with_service_worker {
        push_str(&mut scripts, SERVICE_WORKER_REGISTRATION);
    }
    let sv = chars_of(scripts.as_str());
    match find_seq(&lb, &pat) {
        Some(i) => {
            assert(pat@.len() == 6);
            assert(lb@.len() == bv@.len());
            assert(occurs_at(lb@, pat@, i as int));
            assert(i + 6 <= bv.len());
            proof {
                let c = choose|c: int|
                    occurs_at(lower_seq(body@), "<head>"@, c) && forall|j: int|
                        0 <= j < c ==> !occurs_at(lower_seq(body@), "<head>"@, j);
                lemma_first_occurrence_unique(lower_seq(body@), "<head>"@, i as int, c);
            }
            let mut out = string_of(&slice_of(&bv, 0, i + 6));
            push_chars(&mut out, &sv);
            push_chars(&mut out, &slice_of(&bv, i + 6, bv.len()));
            out
        },
        None => {
            let mut out = string_of(&sv);
            push_chars(&mut out, &bv);
            out
        },
    }
}

} // verus!
