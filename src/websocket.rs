//! The server side of the WebSocket opening handshake: recognising an
//! upgrade request, checking its key and computing `Sec-WebSocket-Accept`.
use vstd::prelude::*;
use vstd::string::StringSliceAdditionalSpecFns;

use crate::text::{
    chars_eq_str, chars_of, eq_ignore_case, eq_ignore_case_chars, split_chars, split_spec,
    string_of, trim_chars, trim_spec,
};

verus! {

/// The GUID that RFC 6455 appends to the client's key.
pub const WEBSOCKET_GUID: &'static str = "258EAFA5-E914-47DA-95CA-C5AB0DC85B11";

/// The SHA-1 digest of some bytes.
pub uninterp spec fn sha1_digest(data: Seq<u8>) -> Seq<u8>;

/// The standard (padded) base64 text of some bytes.
pub uninterp spec fn base64_standard(data: Seq<u8>) -> Seq<char>;

/// Relies on `sha1::Sha1` through `Digest::digest`: the 20-byte SHA-1 digest
/// of `data`.
#[verifier::external_body]
fn sha1_of(data: &[u8]) -> (r: Vec<u8>)
    ensures
        r@ == sha1_digest(data@),
        r@.len() == 20,
{
    <sha1::Sha1 as sha1::Digest>::digest(data).to_vec()
}

/// Relies on `base64::Engine::encode` with the `STANDARD` engine: the padded
/// base64 text of `data`.
#[verifier::external_body]
fn base64_of(data: &[u8]) -> (r: String)
    ensures
        r@ == base64_standard(data@),
{
    base64::Engine::encode(&base64::engine::general_purpose::STANDARD, data)
}

fn extend_bytes(buf: &mut Vec<u8>, b: &[u8])
    ensures
        final(buf)@ == old(buf)@ + b@,
{
    let ghost start = buf@;
    for i in 0..b.len()
        invariant
            buf@ == start + b@.subrange(0, i as int),
    {
        buf.push(b[i]);
        assert(b@.subrange(0, i + 1) =~= b@.subrange(0, i as int).push(b@[i as int]));
    }
    assert(b@.subrange(0, b@.len() as int) =~= b@);
}

/// `Sec-WebSocket-Accept` for a client key: the base64 of the SHA-1 of the
/// key followed by the protocol's GUID.
pub fn compute_websocket_accept(key: &str) -> (r: String)
    ensures
        r@ == base64_standard(sha1_digest(key.spec_bytes() + WEBSOCKET_GUID.spec_bytes())),
{
    let mut buf: Vec<u8> = Vec::new();
    extend_bytes(&mut buf, key.as_bytes());
    extend_bytes(&mut buf, WEBSOCKET_GUID.as_bytes());
    let digest = sha1_of(buf.as_slice());
    base64_of(digest.as_slice())
}

/// Why a WebSocket handshake is refused.
#[derive(Clone, Copy, Debug, PartialEq, Eq, Structural)]
pub enum HandshakeError {
    MissingKey,
    InvalidKey,
}

impl HandshakeError {
    pub fn message(&self) -> (r: &'static str)
        ensures
            self == HandshakeError::MissingKey ==> r@ == "missing Sec-WebSocket-Key header"@,
            self == HandshakeError::InvalidKey ==> r@ == "invalid Sec-WebSocket-Key"@,
    {
        match self {
            HandshakeError::MissingKey => "missing Sec-WebSocket-Key header",
            HandshakeError::InvalidKey => "invalid Sec-WebSocket-Key",
        }
    }
}

/// The client's key, trimmed: missing without the header, invalid when
/// only white space is left.
pub fn websocket_key(value: Option<&str>) -> (r: Result<String, HandshakeError>)
    ensures
        match value {
            None => r == Err::<String, HandshakeError>(HandshakeError::MissingKey),
            Some(v) => if trim_spec(v@).len() == 0 {
                r == Err::<String, HandshakeError>(HandshakeError::InvalidKey)
            } else {
                r matches Ok(k) && k@ == trim_spec(v@)
            },
        },
{
    match value {
        None => Err(HandshakeError::MissingKey),
        Some(v) => {
            let t = trim_chars(&chars_of(v));
            if t.len() == 0 {
                Err(HandshakeError::InvalidKey)
            } else {
                Ok(string_of(&t))
            }
        },
    }
}

/// Whether one of the comma-separated items of one of the header values is
/// `token`, up to ASCII case and surrounding white space.
pub open spec fn has_token(values: Seq<Seq<char>>, token: Seq<char>) -> bool {
    exists|i: int, j: int|
        0 <= i < values.len() && 0 <= j < split_spec(values[i], ',').len() && eq_ignore_case(
            trim_spec(#[trigger] split_spec(values[i], ',')[j]),
            token,
        )
}

pub open spec fn strings_view(v: Seq<String>) -> Seq<Seq<char>> {
    v.map_values(|s: String| s@)
}

/// Whether one of the header values lists `token`.
pub fn header_has_token(values: &Vec<String>, token: &str) -> (r: bool)
    ensures
        r == has_token(strings_view(values@), token@),
{
    let tv = chars_of(token);
    let ghost vs = strings_view(values@);
    for i in 0..values.len()
        invariant
            tv@ == token@,
            vs == strings_view(values@),
            forall|a: int, j: int|
                0 <= a < i && 0 <= j < split_spec(vs[a], ',').len() ==> !eq_ignore_case(
                    trim_spec(#[trigger] split_spec(vs[a], ',')[j]),
                    token@,
                ),
    {
        let items = split_chars(&chars_of(values[i].as_str()), ',');
        assert(vs[i as int] == values@[i as int]@);
        for j in 0..items.len()
            invariant
                tv@ == token@,
                vs == strings_view(values@),
                i < vs.len(),
                items@.len() == split_spec(vs[i as int], ',').len(),
                forall|k: int|
                    0 <= k < items@.len() ==> #[trigger] items@[k]@ == split_spec(vs[i as int], ',')[k],
                forall|a: int, b: int|
                    0 <= a < i && 0 <= b < split_spec(vs[a], ',').len() ==> !eq_ignore_case(
                        trim_spec(#[trigger] split_spec(vs[a], ',')[b]),
                        token@,
                    ),
                forall|b: int|
                    0 <= b < j ==> !eq_ignore_case(
                        trim_spec(#[trigger] split_spec(vs[i as int], ',')[b]),
                        token@,
                    ),
        {
            let t = trim_chars(&items[j]);
            if eq_ignore_case_chars(&t, &tv) {
                assert(has_token(vs, token@)) by {
                    assert(eq_ignore_case(trim_spec(split_spec(vs[i as int], ',')[j as int]), token@));
                }
                return true;
            }
        }
    }
    false
}

/// A GET with `Connection: upgrade`, `Upgrade: websocket`, version 13 and a
/// key.
pub open spec fn is_upgrade_spec(
    is_get: bool,
    connection: Seq<Seq<char>>,
    upgrade: Option<Seq<char>>,
    version: Option<Seq<char>>,
    has_key: bool,
) -> bool {
    &&& is_get
    &&& has_token(connection, "upgrade"@)
    &&& upgrade matches Some(u) && eq_ignore_case(u, "websocket"@)
    &&& version == Some("13"@)
    &&& has_key
}

pub open spec fn opt_str(o: Option<&str>) -> Option<Seq<char>> {
    match o {
        Some(s) => Some(s@),
        None => None,
    }
}

/// Whether a request asks to be upgraded to a WebSocket.
pub fn is_websocket_upgrade(
    is_get: bool,
    connection: &Vec<String>,
    upgrade: Option<&str>,
    version: Option<&str>,
    has_key: bool,
) -> (r: bool)
    ensures
        r == is_upgrade_spec(is_get, strings_view(connection@), opt_str(upgrade), opt_str(version), has_key),
{
    if !is_get || !has_key {
        return false;
    }
    if !header_has_token(connection, "upgrade") {
        return false;
    }
    let up = match upgrade {
        Some(u) => eq_ignore_case_chars(&chars_of(u), &chars_of("websocket")),
        None => false,
    };
    let ver = match version {
        Some(v) => chars_eq_str(&chars_of(v), "13"),
        None => false,
    };
    up && ver
}

} // verus!
