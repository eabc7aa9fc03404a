//! The decisions of the forwarding proxy: which port and host a request goes
//! to, which headers stay behind, and whether it is an upgrade.
use vstd::prelude::*;

use crate::env::{decimal, push_decimal};
use crate::text::{
    all_digits, capped_decimal, chars_of, contains_seq, decimal_value, eq_ignore_case,
    eq_ignore_case_chars, find_seq, is_all_digits, is_digit, lower_chars, lower_seq, push_char,
    push_str, slice_of, string_of,
};

verus! {

/// The header that names the upstream port.
pub const PORT_HEADER: &'static str = "X-Cmux-Port-Internal";

/// The header that names the workspace whose address is the upstream.
pub const WORKSPACE_HEADER: &'static str = "X-Cmux-Workspace-Internal";

/// The loop header: the proxy adds it to what it forwards.
pub const LOOP_HEADER: &'static str = "X-Cmux-Proxied";

/// The longest run of decimal digits that ends `s`.
pub open spec fn trailing_digits(s: Seq<char>) -> Seq<char>
    decreases s.len(),
{
    if s.len() > 0 && is_digit(s.last()) {
        trailing_digits(s.drop_last()).push(s.last())
    } else {
        Seq::empty()
    }
}

/// The workspace address for an index: `127.18.(n >> 8 & 255).(n & 255)`.
pub open spec fn workspace_octets(n: nat) -> Seq<u8> {
    seq![127u8, 18u8, ((n / 256) % 256) as u8, (n % 256) as u8]
}

/// The address of a workspace whose name ends in the digits of a `u32`;
/// `None` for a name without trailing digits or with too large a number.
pub open spec fn workspace_ip_spec(name: Seq<char>) -> Option<Seq<u8>> {
    let d = trailing_digits(name);
    if d.len() > 0 && decimal_value(d) < 0x1_0000_0000 {
        Some(workspace_octets(decimal_value(d)))
    } else {
        None
    }
}

proof fn lemma_trailing_digits_are_digits(s: Seq<char>)
    ensures
        all_digits(trailing_digits(s)),
    decreases s.len(),
{
    if s.len() > 0 && is_digit(s.last()) {
        lemma_trailing_digits_are_digits(s.drop_last());
    }
}

fn trailing_digits_of(v: &Vec<char>) -> (r: Vec<char>)
    ensures
        r@ == trailing_digits(v@),
{
    let mut start = v.len();
    proof {
        assert(v@.subrange(0, v.len() as int) =~= v@);
        assert(v@.subrange(v.len() as int, v.len() as int) =~= Seq::<char>::empty());
    }
    while start > 0 && '0' <= v[start - 1] && v[start - 1] <= '9'
        invariant
            start <= v.len(),
            trailing_digits(v@) == trailing_digits(v@.subrange(0, start as int)) + v@.subrange(
                start as int,
                v.len() as int,
            ),
        decreases start,
    {
        proof {
            let p = v@.subrange(0, start as int);
            assert(p.last() == v@[start - 1]);
            assert(p.drop_last() =~= v@.subrange(0, start - 1));
            assert(v@.subrange(start - 1, v.len() as int) =~= seq![v@[start - 1]] + v@.subrange(
                start as int,
                v.len() as int,
            ));
            assert(trailing_digits(p.drop_last()).push(p.last()) + v@.subrange(
                start as int,
                v.len() as int,
            ) =~= trailing_digits(p.drop_last()) + v@.subrange(start - 1, v.len() as int));
        }
        start = start - 1;
    }
    proof {
        let p = v@.subrange(0, start as int);
        if start > 0 {
            assert(p.last() == v@[start - 1]);
        }
        assert(trailing_digits(p) =~= Seq::<char>::empty());
        assert(Seq::<char>::empty() + v@.subrange(start as int, v.len() as int) =~= v@.subrange(
            start as int,
            v.len() as int,
        ));
    }
    slice_of(v, start, v.len())
}

/// The address of a workspace from its name (`workspace-256` is
/// `127.18.1.0`).
pub fn workspace_ip_from_name(name: &str) -> (r: Option<[u8; 4]>)
    ensures
        match r {
            Some(a) => workspace_ip_spec(name@) == Some(a@),
            None => workspace_ip_spec(name@) is None,
        },
{
    let v = chars_of(name);
    let d = trailing_digits_of(&v);
    if d.len() == 0 {
        return None;
    }
    proof {
        lemma_trailing_digits_are_digits(name@);
    }
    let n = capped_decimal(&d, 0x1_0000_0000);
    if n >= 0x1_0000_0000 {
        return None;
    }
    let a: [u8; 4] = [127, 18, ((n >> 8) & 0xff) as u8, (n & 0xff) as u8];
    assert((n >> 8) & 0xff == (n / 256) % 256) by (bit_vector);
    assert(n & 0xff == n % 256) by (bit_vector);
    assert(a@ =~= workspace_octets(n as nat));
    Some(a)
}

/// The dotted-decimal writing of four octets.
pub open spec fn dotted(a: Seq<u8>) -> Seq<char> {
    decimal(a[0] as nat) + seq!['.'] + decimal(a[1] as nat) + seq!['.'] + decimal(a[2] as nat)
        + seq!['.'] + decimal(a[3] as nat)
}

fn dotted_string(a: &[u8; 4]) -> (r: String)
    ensures
        r@ == dotted(a@),
{
    let mut s = String::new();
    push_decimal(&mut s, a[0] as u64);
    push_char(&mut s, '.');
    push_decimal(&mut s, a[1] as u64);
    push_char(&mut s, '.');
    push_decimal(&mut s, a[2] as u64);
    push_char(&mut s, '.');
    push_decimal(&mut s, a[3] as u64);
    s
}

/// `s` read as `str::parse::<u16>` reads it: an optional `+`, then decimal
/// digits.
pub open spec fn u16_from_str(s: Seq<char>) -> Option<u16> {
    let d = if s.len() > 0 && s[0] == '+' {
        s.skip(1)
    } else {
        s
    };
    if d.len() > 0 && all_digits(d) && decimal_value(d) <= 65535 {
        Some(decimal_value(d) as u16)
    } else {
        None
    }
}

/// Why the port header is refused.
#[derive(Clone, Copy, Debug, PartialEq, Eq, Structural)]
pub enum PortHeaderError {
    Missing,
    NotANumber,
    Zero,
}

impl PortHeaderError {
    pub fn message(&self) -> (r: &'static str)
        ensures
            self == PortHeaderError::Missing ==> r@
                == "missing required header: X-Cmux-Port-Internal"@,
            self == PortHeaderError::NotANumber ==> r@
                == "X-Cmux-Port-Internal: must be a number 1-65535"@,
            self == PortHeaderError::Zero ==> r@ == "X-Cmux-Port-Internal: must be 1-65535"@,
    {
        match self {
            PortHeaderError::Missing => "missing required header: X-Cmux-Port-Internal",
            PortHeaderError::NotANumber => "X-Cmux-Port-Internal: must be a number 1-65535",
            PortHeaderError::Zero => "X-Cmux-Port-Internal: must be 1-65535",
        }
    }
}

/// The upstream port named by the port header's value.
pub fn port_from_header(value: Option<&str>) -> (r: Result<u16, PortHeaderError>)
    ensures
        match value {
            None => r == Err::<u16, PortHeaderError>(PortHeaderError::Missing),
            Some(v) => match u16_from_str(v@) {
                None => r == Err::<u16, PortHeaderError>(PortHeaderError::NotANumber),
                Some(0) => r == Err::<u16, PortHeaderError>(PortHeaderError::Zero),
                Some(p) => r == Ok::<u16, PortHeaderError>(p),
            },
        },
{
    let v = match value {
        None => {
            return Err(PortHeaderError::Missing);
        },
        Some(v) => chars_of(v),
    };
    let d = if v.len() > 0 && v[0] == '+' {
        slice_of(&v, 1, v.len())
    } else {
        slice_of(&v, 0, v.len())
    };
    proof {
        assert(v@.subrange(1, v@.len() as int) =~= v@.skip(1));
        assert(v@.subrange(0, v@.len() as int) =~= v@);
    }
    if d.len() == 0 || !is_all_digits(&d) {
        return Err(PortHeaderError::NotANumber);
    }
    let n = capped_decimal(&d, 65536);
    if n > 65535 {
        Err(PortHeaderError::NotANumber)
    } else if n == 0 {
        Err(PortHeaderError::Zero)
    } else {
        Ok(n as u16)
    }
}

/// The workspace header's name does not end in a usable number.
#[derive(Clone, Copy, Debug, PartialEq, Eq, Structural)]
pub enum WorkspaceHeaderError {
    ExpectedDigits,
}

impl WorkspaceHeaderError {
    pub fn message(&self) -> (r: &'static str)
        ensures
            r@ == "X-Cmux-Workspace-Internal: expected name ending in digits (e.g., workspace-1)"@,
    {
        "X-Cmux-Workspace-Internal: expected name ending in digits (e.g., workspace-1)"
    }
}

/// The upstream host: the workspace's address when the workspace header is
/// there, else the configured default host.
pub fn upstream_host(workspace: Option<&str>, default_host: &str) -> (r: Result<
    String,
    WorkspaceHeaderError,
>)
    ensures
        match workspace {
            None => r matches Ok(h) && h@ == default_host@,
            Some(w) => match workspace_ip_spec(w@) {
                Some(a) => r matches Ok(h) && h@ == dotted(a),
                None => r == Err::<String, WorkspaceHeaderError>(
                    WorkspaceHeaderError::ExpectedDigits,
                ),
            },
        },
{
    match workspace {
        None => Ok(string_of(&chars_of(default_host))),
        Some(w) => match workspace_ip_from_name(w) {
            Some(a) => Ok(dotted_string(&a)),
            None => Err(WorkspaceHeaderError::ExpectedDigits),
        },
    }
}

/// The hop-by-hop headers that are not forwarded in either direction;
/// `Upgrade` goes through when the request is being upgraded.
pub open spec fn hop_by_hop(name: Seq<char>, upgrading: bool) -> bool {
    let n = lower_seq(name);
    ||| n == "connection"@
    ||| n == "proxy-connection"@
    ||| n == "keep-alive"@
    ||| n == "transfer-encoding"@
    ||| n == "te"@
    ||| n == "trailer"@
    ||| (n == "upgrade"@ && !upgrading)
}

/// Whether a header stays behind when forwarding.
pub fn is_hop_by_hop(name: &str, upgrading: bool) -> (r: bool)
    ensures
        r == hop_by_hop(name@, upgrading),
{
    let n = lower_chars(&chars_of(name));
    crate::text::chars_eq_str(&n, "connection") || crate::text::chars_eq_str(&n, "proxy-connection")
        || crate::text::chars_eq_str(&n, "keep-alive") || crate::text::chars_eq_str(
        &n,
        "transfer-encoding",
    ) || crate::text::chars_eq_str(&n, "te") || crate::text::chars_eq_str(&n, "trailer") || (
    crate::text::chars_eq_str(&n, "upgrade") && !upgrading)
}

/// An upgrade: the `Connection` value mentions `upgrade` (any case) and an
/// `Upgrade` header is present and not empty.
pub open spec fn upgrade_spec(connection: Option<Seq<char>>, upgrade: Option<Seq<char>>) -> bool {
    &&& connection matches Some(c) && contains_seq(lower_seq(c), "upgrade"@)
    &&& upgrade matches Some(u) && u.len() > 0
}

/// Whether a request is to be tunnelled after the upstream's handshake.
pub fn is_upgrade_request(connection: Option<&str>, upgrade: Option<&str>) -> (r: bool)
    ensures
        r == upgrade_spec(
            match connection {
                Some(c) => Some(c@),
                None => None,
            },
            match upgrade {
                Some(u) => Some(u@),
                None => None,
            },
        ),
{
    let has_upgrade = match upgrade {
        Some(u) => chars_of(u).len() > 0,
        None => false,
    };
    match connection {
        Some(c) => {
            let lc = lower_chars(&chars_of(c));
            let pat = chars_of("upgrade");
            find_seq(&lc, &pat).is_some() && has_upgrade
        },
        None => false,
    }
}

/// The upstream URI: `<scheme>://<host>:<port><path and query>`.
pub open spec fn upstream_uri_spec(https: bool, host: Seq<char>, port: u16, path_and_query: Seq<char>) -> Seq<char> {
    (if https {
        "https"@
    } else {
        "http"@
    }) + "://"@ + host + seq![':'] + decimal(port as nat) + path_and_query
}

/// The URI a request is forwarded to.
pub fn upstream_uri(https: bool, host: &str, port: u16, path_and_query: &str) -> (r: String)
    ensures
        r@ == upstream_uri_spec(https, host@, port, path_and_query@),
{
    let mut s = if https {
        string_of(&chars_of("https"))
    } else {
        string_of(&chars_of("http"))
    };
    push_str(&mut s, "://");
    push_str(&mut s, host);
    push_char(&mut s, ':');
    push_decimal(&mut s, port as u64);
    push_str(&mut s, path_and_query);
    s
}

} // verus!
