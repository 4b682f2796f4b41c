//! One end of a framed connection, without the connection: the bytes that
//! came in and were not yet read as messages, and the bytes to send.

use crate::text::{append_bytes, scan_bytes, Until, DELIMITER};
use crate::tunnel_protocol::{
    frame, frame_end, lemma_frame_boundary, HandshakeError, TunnelError, WireMessage,
    CONNECTION_TIMEOUT_MS,
};
use vstd::prelude::*;

verus! {

/// What reading one message gave.
#[derive(Debug, PartialEq, Eq)]
pub enum Received<T> {
    /// The next message.
    Message(T),
    /// The stream ended cleanly: every frame was read and nothing is left.
    EndOfStream,
    /// No whole frame has come yet and the stream has not ended.
    Incomplete,
}

/// What `recv` gives on the bytes that are buffered. A whole frame is read
/// as a message or is a frame error. Without a whole frame the result says
/// whether more can come, and an end in the middle of a frame is an I/O
/// error.
pub open spec fn received<T: WireMessage>(buffered: Seq<u8>, ended: bool) -> Result<
    Received<T>,
    TunnelError,
> {
    match frame_end(buffered) {
        Some(end) => match T::parse(buffered.subrange(0, end)) {
            Some(msg) => Ok(Received::Message(msg)),
            None => Err(TunnelError::Frame),
        },
        None => if !ended {
            Ok(Received::Incomplete)
        } else if buffered.len() == 0 {
            Ok(Received::EndOfStream)
        } else {
            Err(TunnelError::Io)
        },
    }
}

/// What `recv` leaves buffered: the first frame, if a whole one is there,
/// is gone with its delimiter.
pub open spec fn left_over(buffered: Seq<u8>) -> Seq<u8> {
    match frame_end(buffered) {
        Some(end) => buffered.skip(end + 1),
        None => buffered,
    }
}

/// The framing state of one connection.
pub struct Delimited {
    buffer: Vec<u8>,
    ended: bool,
}

impl Delimited {
    /// The bytes that came in and were not yet read.
    pub closed spec fn buffered(&self) -> Seq<u8> {
        self.buffer@
    }

    /// Whether the end of the stream was noted.
    pub closed spec fn ended(&self) -> bool {
        self.ended
    }

    /// A connection on which nothing has come yet.
    pub fn new() -> (r: Self)
        ensures
            r.buffered() == Seq::<u8>::empty(),
            !r.ended(),
    {
        Delimited { buffer: Vec::new(), ended: false }
    }

    /// Takes in bytes that were read from the transport.
    pub fn feed(&mut self, bytes: &[u8])
        ensures
            final(self).buffered() == old(self).buffered() + bytes@,
            final(self).ended() == old(self).ended(),
    {
        append_bytes(&mut self.buffer, bytes);
    }

    /// Notes that the transport reached the end of the stream.
    pub fn close(&mut self)
        ensures
            final(self).buffered() == old(self).buffered(),
            final(self).ended(),
    {
        self.ended = true;
    }

    /// The bytes to write for `msg`: its text and the delimiter.
    pub fn send<T: WireMessage>(&self, msg: &T) -> (out: Vec<u8>)
        ensures
            out@ == frame(msg.text()),
    {
        let mut out: Vec<u8> = msg.encode();
        out.push(DELIMITER);
        out
    }

    /// Reads the next message from what is buffered.
    pub fn recv<T: WireMessage>(&mut self) -> (r: Result<Received<T>, TunnelError>)
        ensures
            r == received::<T>(old(self).buffered(), old(self).ended()),
            final(self).buffered() == left_over(old(self).buffered()),
            final(self).ended() == old(self).ended(),
    {
        let end: usize = scan_bytes(self.buffer.as_slice(), 0, Until::Delimiter);
        if end < self.buffer.len() {
            let rest: Vec<u8> = self.buffer.split_off(end + 1);
            let decoded: Option<T> = T::decode(&self.buffer.as_slice()[0..end]);
            proof {
                let all = old(self).buffered();
                assert(all.subrange(0, end + 1).subrange(0, end as int) =~= all.subrange(
                    0,
                    end as int,
                ));
                assert(rest@ =~= all.skip(end + 1));
            }
            self.buffer = rest;
            match decoded {
                Some(msg) => Ok(Received::Message(msg)),
                None => Err(TunnelError::Frame),
            }
        } else if !self.ended {
            Ok(Received::Incomplete)
        } else if self.buffer.len() == 0 {
            Ok(Received::EndOfStream)
        } else {
            Err(TunnelError::Io)
        }
    }

    /// Reads the next message as `recv` does, but gives up once the wait has
    /// lasted `CONNECTION_TIMEOUT_MS`: where `recv` would say that the
    /// message is incomplete after `waited_ms` milliseconds of waiting, this
    /// is a handshake timeout.
    pub fn recv_timeout<T: WireMessage>(&mut self, waited_ms: u64) -> (r: Result<
        Received<T>,
        TunnelError,
    >)
        ensures
            r == if received::<T>(old(self).buffered(), old(self).ended()) == Ok::<
                Received<T>,
                TunnelError,
            >(Received::Incomplete) && waited_ms >= CONNECTION_TIMEOUT_MS {
                Err(TunnelError::Handshake(HandshakeError::Timeout))
            } else {
                received::<T>(old(self).buffered(), old(self).ended())
            },
            final(self).buffered() == left_over(old(self).buffered()),
            final(self).ended() == old(self).ended(),
    {
        match self.recv() {
            Ok(Received::Incomplete) => {
                if waited_ms >= CONNECTION_TIMEOUT_MS {
                    Err(TunnelError::Handshake(HandshakeError::Timeout))
                } else {
                    Ok(Received::Incomplete)
                }
            },
            other => other,
        }
    }

    /// Gives up the framing and hands out the bytes that came in behind the
    /// last message read. They belong to the raw stream and go first.
    pub fn into_parts(self) -> (read_ahead: Vec<u8>)
        ensures
            read_ahead@ == self.buffered(),
    {
        self.buffer
    }
}

/// What one end sends, the other end reads. Whatever bytes follow the bytes
/// of `send`, `recv` gives the message that was sent, and what it leaves
/// buffered is exactly what followed: messages sent one behind the other are
/// read one by one.
pub proof fn lemma_send_then_recv<T: WireMessage>(msg: T, rest: Seq<u8>, ended: bool)
    ensures
        received::<T>(frame(msg.text()) + rest, ended) == Ok::<Received<T>, TunnelError>(
            Received::Message(msg),
        ),
        left_over(frame(msg.text()) + rest) == rest,
{
    msg.lemma_round_trip();
    lemma_frame_boundary(msg.text(), rest);
}

} // verus!
