//! The decisions of the byte tunnels: the bidirectional pump between a
//! client and an upstream connection, and the bridge from WebSocket messages
//! to a TCP stream. The caller performs the reads, writes and shutdowns.
use vstd::prelude::*;

verus! {

/// The size of each direction's read buffer.
pub const TUNNEL_BUFFER_BYTES: usize = 16384;

/// One end of a tunnel.
#[derive(Clone, Copy, Debug, PartialEq, Eq, Structural)]
pub enum Side {
    Client,
    Upstream,
}

/// What a read on one side gave.
#[derive(Clone, Copy, Debug, PartialEq, Eq, Structural)]
pub enum PumpEvent {
    /// `n` bytes arrived from this side.
    Data(Side, usize),
    /// This side's reader reached its end.
    Eof(Side),
    /// Reading from or writing toward this side failed.
    Failed(Side),
}

/// What to do next.
#[derive(Clone, Copy, Debug, PartialEq, Eq, Structural)]
pub enum PumpAction {
    /// Write the bytes just read to the other side, then read on.
    Forward { to: Side, len: usize },
    /// Shut down the writer toward this side, then read on.
    Shutdown(Side),
    /// Both directions are done (or one failed): close both ends.
    Close,
}

/// Which directions are still open: a direction is named by the side it
/// reads from.
#[derive(Clone, Copy, Debug, PartialEq, Eq, Structural)]
pub struct PumpState {
    pub client_open: bool,
    pub upstream_open: bool,
}

pub open spec fn other(s: Side) -> Side {
    match s {
        Side::Client => Side::Upstream,
        Side::Upstream => Side::Client,
    }
}

pub open spec fn is_open(st: PumpState, s: Side) -> bool {
    match s {
        Side::Client => st.client_open,
        Side::Upstream => st.upstream_open,
    }
}

impl PumpState {
    /// A fresh tunnel: both directions open.
    pub fn new() -> (r: PumpState)
        ensures
            r.client_open && r.upstream_open,
    {
        PumpState { client_open: true, upstream_open: true }
    }
}

fn other_side(s: Side) -> (r: Side)
    ensures
        r == other(s),
{
    match s {
        Side::Client => Side::Upstream,
        Side::Upstream => Side::Client,
    }
}

/// One step of the pump. Data is forwarded to the other side. The end of one
/// side's reader shuts down the writer toward the other side (a half-close)
/// and closes that direction; when both directions have ended the tunnel
/// closes. A failure on either side closes the tunnel at once.
pub open spec fn pump_spec(st: PumpState, ev: PumpEvent) -> (PumpState, PumpAction) {
    match ev {
        PumpEvent::Data(s, n) => (st, PumpAction::Forward { to: other(s), len: n }),
        PumpEvent::Eof(s) => {
            let next = match s {
                Side::Client => PumpState { client_open: false, upstream_open: st.upstream_open },
                Side::Upstream => PumpState { client_open: st.client_open, upstream_open: false },
            };
            if is_open(st, other(s)) {
                (next, PumpAction::Shutdown(other(s)))
            } else {
                (next, PumpAction::Close)
            }
        },
        PumpEvent::Failed(_) => (PumpState { client_open: false, upstream_open: false }, PumpAction::Close),
    }
}

/// The pump's decision for one event.
pub fn pump_step(st: PumpState, ev: PumpEvent) -> (r: (PumpState, PumpAction))
    ensures
        r == pump_spec(st, ev),
{
    match ev {
        PumpEvent::Data(s, n) => (st, PumpAction::Forward { to: other_side(s), len: n }),
        PumpEvent::Eof(s) => {
            let next = match s {
                Side::Client => PumpState { client_open: false, upstream_open: st.upstream_open },
                Side::Upstream => PumpState { client_open: st.client_open, upstream_open: false },
            };
            let still = match s {
                Side::Client => st.upstream_open,
                Side::Upstream => st.client_open,
            };
            if still {
                (next, PumpAction::Shutdown(other_side(s)))
            } else {
                (next, PumpAction::Close)
            }
        },
        PumpEvent::Failed(_) => (PumpState { client_open: false, upstream_open: false }, PumpAction::Close),
    }
}

/// Half-closes propagate: when one side's reader ends, the writer toward
/// the other side is shut down; when the other reader ends too, the tunnel
/// closes, whichever side ends first and whatever data flowed in between.
pub proof fn lemma_half_closes_propagate(first: Side, n: usize)
    ensures
        ({
            let open = PumpState { client_open: true, upstream_open: true };
            let (s1, a1) = pump_spec(open, PumpEvent::Eof(first));
            let (s2, a2) = pump_spec(s1, PumpEvent::Data(other(first), n));
            let (s3, a3) = pump_spec(s2, PumpEvent::Eof(other(first)));
            &&& a1 == PumpAction::Shutdown(other(first))
            &&& a2 == (PumpAction::Forward { to: first, len: n })
            &&& a3 == PumpAction::Close
            &&& !s3.client_open && !s3.upstream_open
        }),
{
}

/// A failure on either side ends the tunnel at once, in any state.
pub proof fn lemma_failure_closes(st: PumpState, s: Side)
    ensures
        pump_spec(st, PumpEvent::Failed(s)).1 == PumpAction::Close,
        !pump_spec(st, PumpEvent::Failed(s)).0.client_open,
        !pump_spec(st, PumpEvent::Failed(s)).0.upstream_open,
{
}

/// The kind of a WebSocket message received from the browser.
#[derive(Clone, Copy, Debug, PartialEq, Eq, Structural)]
pub enum WsKind {
    Binary,
    Text,
    Ping,
    Pong,
    Close,
    Other,
}

/// What the WebSocket-to-TCP bridge does with one message.
#[derive(Clone, Copy, Debug, PartialEq, Eq, Structural)]
pub enum BridgeAction {
    /// Write the payload's bytes to the TCP stream.
    WriteToTcp,
    /// Answer with a pong carrying the same payload.
    Pong,
    /// Shut down the TCP writer, echo the close frame and stop.
    CloseBoth,
    /// Nothing to do.
    Ignore,
}

/// The bridge's decision for one message: data (binary or text) goes to the
/// TCP stream, a ping is answered, a close ends both sides, the rest is
/// ignored.
pub fn bridge_action(kind: WsKind) -> (r: BridgeAction)
    ensures
        (kind == WsKind::Binary || kind == WsKind::Text) <==> r == BridgeAction::WriteToTcp,
        kind == WsKind::Ping <==> r == BridgeAction::Pong,
        kind == WsKind::Close <==> r == BridgeAction::CloseBoth,
        (kind == WsKind::Pong || kind == WsKind::Other) <==> r == BridgeAction::Ignore,
{
    match kind {
        WsKind::Binary => BridgeAction::WriteToTcp,
        WsKind::Text => BridgeAction::WriteToTcp,
        WsKind::Ping => BridgeAction::Pong,
        WsKind::Close => BridgeAction::CloseBoth,
        WsKind::Pong => BridgeAction::Ignore,
        WsKind::Other => BridgeAction::Ignore,
    }
}

} // verus!
