//! Client-server protocol for session attach/detach.
//!
//! Messages travel as length-prefixed frames over a local stream
//! socket: a 4-byte big-endian payload length followed by the
//! payload, which is the JSON text of the message (see
//! [`crate::json`] for the encoding itself).

use vstd::prelude::*;

use crate::command::MuxCommand;
use crate::error::{MuxError, MuxResult};
use crate::json::{enc_client, enc_server, plain_cmd};
use crate::layout::{Direction, PaneId};
use crate::session::Session;

verus! {

/// Messages sent from the client to the server.
#[derive(Debug)]
pub enum ClientMessage {
    /// Raw terminal input to forward to the active PTY.
    Input(Vec<u8>),
    /// Terminal was resized to (rows, cols).
    Resize {
        /// New number of rows.
        rows: u16,
        /// New number of columns.
        cols: u16,
    },
    /// A multiplexer command (e.g. split, navigate).
    Command(MuxCommand),
    /// Request to attach to the session.
    Attach,
    /// Request to detach from the session.
    Detach,
}

/// Messages sent from the server to the client.
#[derive(Debug)]
pub enum ServerMessage {
    /// Terminal output from a specific pane.
    Output {
        /// The pane that produced the output.
        pane_id: PaneId,
        /// The raw bytes it wrote.
        data: Vec<u8>,
    },
    /// Full session state for synchronization on attach.
    StateSync(Session),
    /// A pane has exited.
    PaneExited(PaneId),
    /// Server is shutting down.
    ServerShutdown,
}

/// The frame bytes for a payload: big-endian length, then the
/// payload itself.
pub open spec fn spec_frame(payload: Seq<u8>) -> Seq<u8> {
    seq![
        ((payload.len() as u32) / 0x1000000) as u8,
        (((payload.len() as u32) / 0x10000) % 0x100) as u8,
        (((payload.len() as u32) / 0x100) % 0x100) as u8,
        ((payload.len() as u32) % 0x100) as u8,
    ] + payload
}

/// Prefix a payload with its 4-byte big-endian length.
pub fn frame_payload(payload: &Vec<u8>) -> (r: Vec<u8>)
    requires
        payload@.len() <= u32::MAX,
    ensures
        r@ == spec_frame(payload@),
        r@.len() == payload@.len() + 4,
{
    let len: u32 = payload.len() as u32;
    let mut out: Vec<u8> = Vec::new();
    out.push((len / 0x1000000) as u8);
    out.push(((len / 0x10000) % 0x100) as u8);
    out.push(((len / 0x100) % 0x100) as u8);
    out.push((len % 0x100) as u8);
    let mut i: usize = 0;
    while i < payload.len()
        invariant
            0 <= i <= payload@.len(),
            out@ == spec_frame(payload@).take(4 + i),
        decreases payload@.len() - i,
    {
        out.push(payload[i]);
        proof {
            assert(out@ =~= spec_frame(payload@).take(4 + i + 1));
        }
        i = i + 1;
    }
    proof {
        assert(out@ =~= spec_frame(payload@));
    }
    out
}

/// A complete frame sits at the front of `buf`: the declared length,
/// fully buffered.
pub open spec fn spec_has_frame(buf: Seq<u8>) -> bool {
    buf.len() >= 4 && buf.len() >= 4 + spec_frame_len(buf)
}

/// The payload length declared by the frame header.
pub open spec fn spec_frame_len(buf: Seq<u8>) -> int {
    buf[0] * 0x1000000 + buf[1] * 0x10000 + buf[2] * 0x100 + buf[3]
}

/// Extract one complete frame's payload from the front of `buf`.
///
/// Returns the payload and the number of bytes consumed, or `None`
/// when the buffer does not yet hold a complete frame; a partial
/// buffer never yields a payload.
pub fn extract_frame(buf: &[u8]) -> (r: Option<(Vec<u8>, usize)>)
    ensures
        !spec_has_frame(buf@) ==> r is None,
        spec_has_frame(buf@) ==> (r matches Some(p) && p.0@ == buf@.subrange(
            4,
            4 + spec_frame_len(buf@),
        ) && p.1 == 4 + spec_frame_len(buf@)),
{
    if buf.len() < 4 {
        return None;
    }
    let len64: u64 = (buf[0] as u64) * 0x1000000 + (buf[1] as u64) * 0x10000 + (buf[2] as u64)
        * 0x100 + (buf[3] as u64);
    if ((buf.len() - 4) as u64) < len64 {
        return None;
    }
    let len: usize = len64 as usize;
    let total: usize = 4 + len;
    let mut payload: Vec<u8> = Vec::new();
    let mut j: usize = 4;
    while j < total
        invariant
            4 <= j <= total,
            buf@.len() >= total,
            total == 4 + spec_frame_len(buf@),
            payload@ == buf@.subrange(4, j as int),
        decreases total - j,
    {
        payload.push(buf[j]);
        proof {
            assert(payload@ =~= buf@.subrange(4, j + 1));
        }
        j = j + 1;
    }
    Some((payload, total))
}

/// Framing round-trip: a framed payload followed by any trailing
/// bytes yields back exactly that payload, consuming exactly the
/// frame.
pub proof fn lemma_frame_roundtrip(payload: Seq<u8>, rest: Seq<u8>)
    requires
        payload.len() <= u32::MAX,
    ensures
        spec_has_frame(spec_frame(payload) + rest),
        spec_frame_len(spec_frame(payload) + rest) == payload.len(),
        (spec_frame(payload) + rest).subrange(4, 4 + payload.len() as int) == payload,
{
    let whole = spec_frame(payload) + rest;
    let n = payload.len() as u32;
    assert(whole[0] == ((n / 0x1000000) as u8));
    assert(whole[1] == (((n / 0x10000) % 0x100) as u8));
    assert(whole[2] == (((n / 0x100) % 0x100) as u8));
    assert(whole[3] == ((n % 0x100) as u8));
    assert(whole[0] * 0x1000000 + whole[1] * 0x10000 + whole[2] * 0x100 + whole[3] == n) by (
    nonlinear_arith)
        requires
            whole[0] == ((n / 0x1000000) as u8),
            whole[1] == (((n / 0x10000) % 0x100) as u8),
            whole[2] == (((n / 0x100) % 0x100) as u8),
            whole[3] == ((n % 0x100) as u8),
            n <= u32::MAX,
    ;
    assert((spec_frame(payload) + rest).subrange(4, 4 + payload.len() as int) =~= payload);
}

/// Encode a client message as a length-prefixed JSON frame.
///
/// Fails only when the JSON text does not fit a 4-byte length.
pub fn encode_client_message(msg: &ClientMessage) -> (r: MuxResult<Vec<u8>>)
    ensures
        r matches Ok(bytes) ==> bytes@ == spec_frame(enc_client(*msg)) && enc_client(*msg).len()
            <= u32::MAX,
        r is Err ==> enc_client(*msg).len() > u32::MAX,
{
    let payload = crate::json::encode_client_message(msg);
    if payload.len() > 0xffff_ffff {
        return Err(MuxError::PersistenceError("message too long to frame".to_owned()));
    }
    Ok(frame_payload(&payload))
}

/// Encode a server message as a length-prefixed JSON frame.
///
/// Fails only when the JSON text does not fit a 4-byte length.
pub fn encode_server_message(msg: &ServerMessage) -> (r: MuxResult<Vec<u8>>)
    ensures
        r matches Ok(bytes) ==> bytes@ == spec_frame(enc_server(*msg)) && enc_server(*msg).len()
            <= u32::MAX,
        r is Err ==> enc_server(*msg).len() > u32::MAX,
{
    let payload = crate::json::encode_server_message(msg);
    if payload.len() > 0xffff_ffff {
        return Err(MuxError::PersistenceError("message too long to frame".to_owned()));
    }
    Ok(frame_payload(&payload))
}

/// Decode one client message from the front of a byte buffer.
///
/// Returns the message and the number of bytes consumed, or `None`
/// when the buffer holds no complete frame or the frame's payload is
/// not the encoding of a message: a partial buffer never yields a
/// message. A complete frame carrying an attach or detach request is
/// always decoded.
pub fn decode_client_message(buf: &[u8]) -> (r: Option<(ClientMessage, usize)>)
    ensures
        !spec_has_frame(buf@) ==> r is None,
        r matches Some(p) ==> spec_has_frame(buf@) && buf@.subrange(4, 4 + spec_frame_len(buf@))
            == enc_client(p.0) && p.1 == 4 + spec_frame_len(buf@),
        spec_has_frame(buf@) && buf@.subrange(4, 4 + spec_frame_len(buf@)) == enc_client(
            ClientMessage::Attach,
        ) ==> (r matches Some(p) && p.0 is Attach),
        spec_has_frame(buf@) && buf@.subrange(4, 4 + spec_frame_len(buf@)) == enc_client(
            ClientMessage::Detach,
        ) ==> (r matches Some(p) && p.0 is Detach),
        forall|c: MuxCommand|
            plain_cmd(c) && spec_has_frame(buf@) && buf@.subrange(4, 4 + spec_frame_len(buf@))
                == #[trigger] enc_client(ClientMessage::Command(c)) ==> (r matches Some(p) && (
            p.0 matches ClientMessage::Command(c2) && c2 == c) && p.1 == 4 + spec_frame_len(
                buf@,
            )),
        forall|k: u8|
            spec_has_frame(buf@) && buf@.subrange(4, 4 + spec_frame_len(buf@)) == #[trigger]
            enc_client(ClientMessage::Command(MuxCommand::SwitchToWindow(k))) ==> (
            r matches Some(p) && (p.0 matches ClientMessage::Command(c2) && c2 == (
            MuxCommand::SwitchToWindow(k))) && p.1 == 4 + spec_frame_len(buf@)),
        forall|rows: u16, cols: u16|
            spec_has_frame(buf@) && buf@.subrange(4, 4 + spec_frame_len(buf@)) == #[trigger]
            enc_client(ClientMessage::Resize { rows, cols }) ==> (r matches Some(p) && (
            p.0 matches ClientMessage::Resize { rows: r2, cols: c2 } && r2 == rows && c2
                == cols) && p.1 == 4 + spec_frame_len(buf@)),
        forall|d: Direction, delta: i16|
            spec_has_frame(buf@) && buf@.subrange(4, 4 + spec_frame_len(buf@)) == #[trigger]
            enc_client(ClientMessage::Command(MuxCommand::ResizePane(d, delta))) ==> (
            r matches Some(p) && (p.0 matches ClientMessage::Command(c2) && c2 == (
            MuxCommand::ResizePane(d, delta))) && p.1 == 4 + spec_frame_len(buf@)),
{
    let (payload, consumed) = match extract_frame(buf) {
        Some(x) => x,
        None => {
            return None;
        },
    };
    match crate::json::decode_client_message(payload.as_slice()) {
        Some(m) => Some((m, consumed)),
        None => None,
    }
}

/// Decode one server message from the front of a byte buffer.
///
/// Returns the message and the number of bytes consumed, or `None`
/// as for [`decode_client_message`]. A complete frame carrying the
/// shutdown notice is always decoded.
pub fn decode_server_message(buf: &[u8]) -> (r: Option<(ServerMessage, usize)>)
    ensures
        !spec_has_frame(buf@) ==> r is None,
        r matches Some(p) ==> spec_has_frame(buf@) && buf@.subrange(4, 4 + spec_frame_len(buf@))
            == enc_server(p.0) && p.1 == 4 + spec_frame_len(buf@),
        spec_has_frame(buf@) && buf@.subrange(4, 4 + spec_frame_len(buf@)) == enc_server(
            ServerMessage::ServerShutdown,
        ) ==> (r matches Some(p) && p.0 is ServerShutdown),
        forall|id: u32|
            spec_has_frame(buf@) && buf@.subrange(4, 4 + spec_frame_len(buf@)) == #[trigger]
            enc_server(ServerMessage::PaneExited(PaneId(id))) ==> (r matches Some(p) && p.0
                == (ServerMessage::PaneExited(PaneId(id))) && p.1 == 4 + spec_frame_len(buf@)),
{
    let (payload, consumed) = match extract_frame(buf) {
        Some(x) => x,
        None => {
            return None;
        },
    };
    match crate::json::decode_server_message(payload.as_slice()) {
        Some(m) => Some((m, consumed)),
        None => None,
    }
}

} // verus!
