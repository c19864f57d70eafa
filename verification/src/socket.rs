//! Stream-side message assembly.
//!
//! A [`MessageReader`] accumulates the bytes a socket hands it and
//! yields one decoded message per complete frame. The socket reads
//! themselves happen outside this crate; the reader only ever sees
//! plain bytes.

use vstd::prelude::*;

use crate::error::{MuxError, MuxResult};
use crate::command::MuxCommand;
use crate::layout::{Direction, PaneId};
use crate::json::{enc_client, enc_server, plain_cmd};
use crate::protocol::{
    decode_client_message, decode_server_message, spec_frame_len, spec_has_frame, ClientMessage,
    ServerMessage,
};

verus! {

/// Buffer for accumulating data from a socket stream.
#[derive(Debug)]
pub struct MessageReader {
    /// Internal buffer for partially received messages.
    pub buf: Vec<u8>,
}

impl MessageReader {
    /// Create a new empty message reader.
    pub fn new() -> (r: MessageReader)
        ensures
            r.buf@.len() == 0,
    {
        MessageReader { buf: Vec::new() }
    }

    /// Append bytes read from the stream.
    pub fn feed(&mut self, bytes: &[u8])
        ensures
            final(self).buf@ == old(self).buf@ + bytes@,
    {
        let ghost base = self.buf@;
        let mut i: usize = 0;
        while i < bytes.len()
            invariant
                0 <= i <= bytes@.len(),
                self.buf@ == base + bytes@.take(i as int),
            decreases bytes@.len() - i,
        {
            self.buf.push(bytes[i]);
            proof {
                assert(self.buf@ =~= base + bytes@.take(i + 1));
            }
            i = i + 1;
        }
        proof {
            assert(self.buf@ =~= base + bytes@);
        }
    }

    /// Try to decode one complete client message from the buffer.
    ///
    /// `Ok(None)` means more data is needed (a partial frame is
    /// retained untouched); a decoded message consumes its frame; a
    /// frame whose payload is not a message is dropped with an
    /// error, after which the caller should drop the connection.
    pub fn try_read_client(&mut self) -> (r: MuxResult<Option<ClientMessage>>)
        ensures
            !spec_has_frame(old(self).buf@) ==> r == Ok::<_, MuxError>(
                None::<ClientMessage>,
            ) && *final(self) == *old(self),
            r matches Ok(Some(m)) ==> spec_has_frame(old(self).buf@) && old(self).buf@.subrange(
                4,
                4 + spec_frame_len(old(self).buf@),
            ) == enc_client(m) && final(self).buf@ == old(self).buf@.skip(
                4 + spec_frame_len(old(self).buf@),
            ),
            r is Err ==> spec_has_frame(old(self).buf@) && final(self).buf@ == old(
                self,
            ).buf@.skip(4 + spec_frame_len(old(self).buf@)),
            spec_has_frame(old(self).buf@) && old(self).buf@.subrange(
                4,
                4 + spec_frame_len(old(self).buf@),
            ) == enc_client(ClientMessage::Attach) ==> (r matches Ok(om) && om matches Some(m)
                && m is Attach),
            spec_has_frame(old(self).buf@) && old(self).buf@.subrange(
                4,
                4 + spec_frame_len(old(self).buf@),
            ) == enc_client(ClientMessage::Detach) ==> (r matches Ok(om) && om matches Some(m)
                && m is Detach),
            forall|c: MuxCommand|
                plain_cmd(c) && spec_has_frame(old(self).buf@) && old(self).buf@.subrange(
                    4,
                    4 + spec_frame_len(old(self).buf@),
                ) == #[trigger] enc_client(ClientMessage::Command(c)) ==> (r matches Ok(om) && (
                om matches Some(m) && m matches ClientMessage::Command(c2) && c2 == c)),
            forall|k: u8|
                spec_has_frame(old(self).buf@) && old(self).buf@.subrange(
                    4,
                    4 + spec_frame_len(old(self).buf@),
                ) == #[trigger] enc_client(
                    ClientMessage::Command(MuxCommand::SwitchToWindow(k)),
                ) ==> (r matches Ok(om) && (om matches Some(m)
                && m matches ClientMessage::Command(c2) && c2 == (
                MuxCommand::SwitchToWindow(k)))),
            forall|rows: u16, cols: u16|
                spec_has_frame(old(self).buf@) && old(self).buf@.subrange(
                    4,
                    4 + spec_frame_len(old(self).buf@),
                ) == #[trigger] enc_client(ClientMessage::Resize { rows, cols }) ==> (
                r matches Ok(om) && (om matches Some(m)
                && m matches ClientMessage::Resize { rows: r2, cols: c2 } && r2 == rows && c2
                    == cols)),
            forall|d: Direction, delta: i16|
                spec_has_frame(old(self).buf@) && old(self).buf@.subrange(
                    4,
                    4 + spec_frame_len(old(self).buf@),
                ) == #[trigger] enc_client(
                    ClientMessage::Command(MuxCommand::ResizePane(d, delta)),
                ) ==> (r matches Ok(om) && (om matches Some(m)
                && m matches ClientMessage::Command(c2) && c2 == (
                MuxCommand::ResizePane(d, delta)))),
    {
        let consumed: usize = match decode_client_message(self.buf.as_slice()) {
            Some((m, consumed)) => {
                self.drain(consumed);
                return Ok(Some(m));
            },
            None => {
                match crate::protocol::extract_frame(self.buf.as_slice()) {
                    None => {
                        return Ok(None);
                    },
                    Some((_, consumed)) => consumed,
                }
            },
        };
        self.drain(consumed);
        Err(MuxError::PersistenceError("malformed frame payload".to_owned()))
    }

    /// Try to decode one complete server message from the buffer, as
    /// [`Self::try_read_client`] does for client messages.
    pub fn try_read_server(&mut self) -> (r: MuxResult<Option<ServerMessage>>)
        ensures
            !spec_has_frame(old(self).buf@) ==> r == Ok::<_, MuxError>(
                None::<ServerMessage>,
            ) && *final(self) == *old(self),
            r matches Ok(Some(m)) ==> spec_has_frame(old(self).buf@) && old(self).buf@.subrange(
                4,
                4 + spec_frame_len(old(self).buf@),
            ) == enc_server(m) && final(self).buf@ == old(self).buf@.skip(
                4 + spec_frame_len(old(self).buf@),
            ),
            r is Err ==> spec_has_frame(old(self).buf@) && final(self).buf@ == old(
                self,
            ).buf@.skip(4 + spec_frame_len(old(self).buf@)),
            spec_has_frame(old(self).buf@) && old(self).buf@.subrange(
                4,
                4 + spec_frame_len(old(self).buf@),
            ) == enc_server(ServerMessage::ServerShutdown) ==> (r matches Ok(om)
                && om matches Some(m) && m is ServerShutdown),
            forall|id: u32|
                spec_has_frame(old(self).buf@) && old(self).buf@.subrange(
                    4,
                    4 + spec_frame_len(old(self).buf@),
                ) == #[trigger] enc_server(ServerMessage::PaneExited(PaneId(id))) ==> (
                r matches Ok(om) && (om matches Some(m) && m == (ServerMessage::PaneExited(
                    PaneId(id),
                )))),
    {
        let consumed: usize = match decode_server_message(self.buf.as_slice()) {
            Some((m, consumed)) => {
                self.drain(consumed);
                return Ok(Some(m));
            },
            None => {
                match crate::protocol::extract_frame(self.buf.as_slice()) {
                    None => {
                        return Ok(None);
                    },
                    Some((_, consumed)) => consumed,
                }
            },
        };
        self.drain(consumed);
        Err(MuxError::PersistenceError("malformed frame payload".to_owned()))
    }

    /// Drop the first `consumed` bytes of the buffer.
    fn drain(&mut self, consumed: usize)
        requires
            consumed <= old(self).buf@.len(),
        ensures
            final(self).buf@ == old(self).buf@.skip(consumed as int),
    {
        let rest = self.buf.split_off(consumed);
        self.buf = rest;
        proof {
            assert(self.buf@ =~= old(self).buf@.skip(consumed as int));
        }
    }
}

impl Default for MessageReader {
    /// An empty reader.
    fn default() -> (r: Self)
        ensures
            r.buf@.len() == 0,
    {
        MessageReader::new()
    }
}

} // verus!
