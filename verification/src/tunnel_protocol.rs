//! The control protocol: the two sets of messages, their wire text, and the
//! framing that separates one message from the next on a byte stream.

use crate::numerals::{
    decimal, hyphenated, id_of, is_digit, lemma_decimal_round_trip, lemma_hyphenated_bytes,
    lemma_id_round_trip, lemma_is_hyphenated_bytes, port_of, read_id, read_port, write_id,
    write_port,
};
use crate::text::{
    ascii, envelope, envelope_text, halts, lemma_envelope_covers, lemma_envelope_round_trip,
    lemma_envelope_text_bytes, lemma_scan_bounds, lemma_scan_stops, plain_name, plain_value,
    read_envelope, same_bytes, scan, write_envelope, Envelope, Fields, Until, DELIMITER, QUOTE,
};
use vstd::prelude::*;

pub use crate::delimited::{Delimited, Received};
pub use crate::relay::proxy;

verus! {

/// TCP port used for control connections with the server.
pub const CONTROL_PORT: u16 = 4300;

/// How long, in milliseconds, a connection attempt or the wait for the first
/// message may take.
pub const CONNECTION_TIMEOUT_MS: u64 = 5000;

/// Why a tunnel could not be set up.
#[derive(Clone, Copy, Debug, PartialEq, Eq, Structural)]
pub enum HandshakeError {
    /// No first message came within the timeout.
    Timeout,
    /// The first message was not the one the handshake asks for.
    UnexpectedMessage,
    /// The stream ended before the first message.
    UnexpectedEof,
    /// The first frame held no message.
    Malformed,
}

/// What can go wrong on one connection.
#[derive(Clone, Copy, Debug, PartialEq, Eq, Structural)]
pub enum TunnelError {
    /// The handshake failed; nothing is retried.
    Handshake(HandshakeError),
    /// A whole frame came, but its payload is no message.
    Frame,
    /// The transport failed, or ended in the middle of a frame.
    Io,
}

impl TunnelError {
    /// What the error says to a person.
    pub open spec fn text(self) -> Seq<char> {
        match self {
            TunnelError::Handshake(HandshakeError::Timeout) =>
                "timed out waiting for initial message"@,
            TunnelError::Handshake(HandshakeError::UnexpectedMessage) =>
                "unexpected initial non-hello message"@,
            TunnelError::Handshake(HandshakeError::UnexpectedEof) => "unexpected EOF"@,
            TunnelError::Handshake(HandshakeError::Malformed) => "unable to parse initial message"@,
            TunnelError::Frame => "unable to parse message"@,
            TunnelError::Io => "the connection failed"@,
        }
    }

    /// What the error says to a person.
    pub fn describe(&self) -> (r: &'static str)
        ensures
            r@ == self.text(),
    {
        match self {
            TunnelError::Handshake(HandshakeError::Timeout) =>
                "timed out waiting for initial message",
            TunnelError::Handshake(HandshakeError::UnexpectedMessage) =>
                "unexpected initial non-hello message",
            TunnelError::Handshake(HandshakeError::UnexpectedEof) => "unexpected EOF",
            TunnelError::Handshake(HandshakeError::Malformed) => "unable to parse initial message",
            TunnelError::Frame => "unable to parse message",
            TunnelError::Io => "the connection failed",
        }
    }
}

/// A message from the agent to the broker.
#[derive(Clone, Copy, Debug, PartialEq, Eq, Structural)]
pub enum ClientMessage {
    /// Asks for a tunnel. Wire text `{"ReqTunnel":null}`.
    ReqTunnel,
    /// Opens a proxy connection for the request with this id. Wire text
    /// `{"RegProxy":"<id>"}`.
    RegProxy(u128),
}

/// A message from the broker to the agent.
#[derive(Clone, Copy, Debug, PartialEq, Eq, Structural)]
pub enum ServerMessage {
    /// The public port of the tunnel. Wire text `{"NewTunnel":<port>}`.
    NewTunnel(u16),
    /// Keeps the control connection alive. Wire text `"Heartbeat"`.
    Heartbeat,
    /// Asks the agent for a proxy connection with this id. Wire text
    /// `{"ReqProxy":"<id>"}`.
    ReqProxy(u128),
}

/// The names that stand in the envelopes.
#[derive(Clone, Copy, Debug, PartialEq, Eq, Structural)]
pub enum Tag {
    ReqTunnel,
    RegProxy,
    NewTunnel,
    Heartbeat,
    ReqProxy,
}

/// The bytes of a tag as they stand between the quotes.
pub open spec fn tag_name(tag: Tag) -> Seq<u8> {
    match tag {
        Tag::ReqTunnel => ascii("ReqTunnel"@),
        Tag::RegProxy => ascii("RegProxy"@),
        Tag::NewTunnel => ascii("NewTunnel"@),
        Tag::Heartbeat => ascii("Heartbeat"@),
        Tag::ReqProxy => ascii("ReqProxy"@),
    }
}

/// The value of a variant that carries nothing.
pub open spec fn null_text() -> Seq<u8> {
    ascii("null"@)
}

/// An id as a value: its hyphenated text between quotes.
pub open spec fn id_text(id: u128) -> Seq<u8> {
    seq![QUOTE] + hyphenated(id) + seq![QUOTE]
}

/// The id that a value token denotes, if it is a quoted hyphenated id.
pub open spec fn id_value(value: Seq<u8>) -> Option<u128> {
    if value.len() == 38 && value[0] == QUOTE && value[37] == QUOTE {
        id_of(value.subrange(1, 37))
    } else {
        None
    }
}

/// The envelope in which a client message travels.
pub open spec fn client_envelope(msg: ClientMessage) -> Envelope {
    match msg {
        ClientMessage::ReqTunnel => Envelope {
            name: tag_name(Tag::ReqTunnel),
            value: Some(null_text()),
        },
        ClientMessage::RegProxy(id) => Envelope {
            name: tag_name(Tag::RegProxy),
            value: Some(id_text(id)),
        },
    }
}

/// The client message that an envelope holds. A variant that carries nothing
/// may come bare or with the value `null`.
pub open spec fn client_message(e: Envelope) -> Option<ClientMessage> {
    if e.name == tag_name(Tag::ReqTunnel) {
        if e.value is None || e.value == Some(null_text()) {
            Some(ClientMessage::ReqTunnel)
        } else {
            None
        }
    } else if e.name == tag_name(Tag::RegProxy) && e.value is Some {
        match id_value(e.value.unwrap()) {
            Some(id) => Some(ClientMessage::RegProxy(id)),
            None => None,
        }
    } else {
        None
    }
}

/// The envelope in which a server message travels.
pub open spec fn server_envelope(msg: ServerMessage) -> Envelope {
    match msg {
        ServerMessage::NewTunnel(port) => Envelope {
            name: tag_name(Tag::NewTunnel),
            value: Some(decimal(port as nat)),
        },
        ServerMessage::Heartbeat => Envelope { name: tag_name(Tag::Heartbeat), value: None },
        ServerMessage::ReqProxy(id) => Envelope {
            name: tag_name(Tag::ReqProxy),
            value: Some(id_text(id)),
        },
    }
}

/// The server message that an envelope holds.
pub open spec fn server_message(e: Envelope) -> Option<ServerMessage> {
    if e.name == tag_name(Tag::Heartbeat) {
        if e.value is None || e.value == Some(null_text()) {
            Some(ServerMessage::Heartbeat)
        } else {
            None
        }
    } else if e.name == tag_name(Tag::NewTunnel) && e.value is Some {
        match port_of(e.value.unwrap()) {
            Some(port) => Some(ServerMessage::NewTunnel(port)),
            None => None,
        }
    } else if e.name == tag_name(Tag::ReqProxy) && e.value is Some {
        match id_value(e.value.unwrap()) {
            Some(id) => Some(ServerMessage::ReqProxy(id)),
            None => None,
        }
    } else {
        None
    }
}

/// A message with a wire text.
pub trait WireMessage: Sized {
    /// The text that `encode` writes.
    spec fn text(&self) -> Seq<u8>;

    /// The message that a text denotes, if it denotes one.
    spec fn parse(text: Seq<u8>) -> Option<Self>;

    /// Writes the message's text.
    fn encode(&self) -> (out: Vec<u8>)
        ensures
            out@ == self.text(),
    ;

    /// Reads a message from its text, or `None` from any other bytes.
    fn decode(bytes: &[u8]) -> (msg: Option<Self>)
        ensures
            msg == Self::parse(bytes@),
    ;

    /// A message's own text denotes that message and holds no delimiter.
    proof fn lemma_round_trip(&self)
        ensures
            Self::parse(self.text()) == Some(*self),
            !self.text().contains(DELIMITER),
    ;

    /// A text that holds the delimiter denotes no message.
    proof fn lemma_delimiter_is_rejected(text: Seq<u8>)
        requires
            text.contains(DELIMITER),
        ensures
            Self::parse(text) is None,
    ;
}

/// The bytes of a tag.
pub fn tag_bytes(tag: Tag) -> (r: &'static [u8])
    ensures
        r@ == tag_name(tag),
{
    match tag {
        Tag::ReqTunnel => {
            let s = "ReqTunnel";
            proof {
                reveal_strlit("ReqTunnel");
                vstd::string::is_ascii_spec_bytes(s);
            }
            s.as_bytes()
        },
        Tag::RegProxy => {
            let s = "RegProxy";
            proof {
                reveal_strlit("RegProxy");
                vstd::string::is_ascii_spec_bytes(s);
            }
            s.as_bytes()
        },
        Tag::NewTunnel => {
            let s = "NewTunnel";
            proof {
                reveal_strlit("NewTunnel");
                vstd::string::is_ascii_spec_bytes(s);
            }
            s.as_bytes()
        },
        Tag::Heartbeat => {
            let s = "Heartbeat";
            proof {
                reveal_strlit("Heartbeat");
                vstd::string::is_ascii_spec_bytes(s);
            }
            s.as_bytes()
        },
        Tag::ReqProxy => {
            let s = "ReqProxy";
            proof {
                reveal_strlit("ReqProxy");
                vstd::string::is_ascii_spec_bytes(s);
            }
            s.as_bytes()
        },
    }
}

fn null_bytes() -> (r: &'static [u8])
    ensures
        r@ == null_text(),
{
    let s = "null";
    proof {
        reveal_strlit("null");
        vstd::string::is_ascii_spec_bytes(s);
    }
    s.as_bytes()
}

/// What is known of the tags' bytes: their lengths, that they differ from one
/// another, and that none holds a quote or a delimiter.
pub proof fn lemma_tag_names()
    ensures
        forall|tag: Tag| plain_name(#[trigger] tag_name(tag)),
        forall|tag: Tag| !(#[trigger] tag_name(tag)).contains(DELIMITER),
        forall|a: Tag, b: Tag| #[trigger] tag_name(a) == #[trigger] tag_name(b) ==> a == b,
        plain_value(null_text()),
        !null_text().contains(DELIMITER),
{
    reveal_strlit("ReqTunnel");
    reveal_strlit("RegProxy");
    reveal_strlit("NewTunnel");
    reveal_strlit("Heartbeat");
    reveal_strlit("ReqProxy");
    reveal_strlit("null");
    assert(tag_name(Tag::ReqTunnel)[2] == 0x71);
    assert(tag_name(Tag::RegProxy)[2] == 0x67);
    assert(tag_name(Tag::ReqProxy)[2] == 0x71);
    assert(tag_name(Tag::NewTunnel)[0] == 0x4e);
    assert(tag_name(Tag::Heartbeat)[0] == 0x48);
    assert(tag_name(Tag::ReqTunnel)[0] == 0x52);
    assert(tag_name(Tag::ReqTunnel).len() == 9);
    assert(tag_name(Tag::RegProxy).len() == 8);
    assert(tag_name(Tag::ReqProxy).len() == 8);
}

/// What is known of an id as a value: it is one token, it holds no delimiter,
/// and it reads back as the id.
pub proof fn lemma_id_text(id: u128)
    ensures
        plain_value(id_text(id)),
        !id_text(id).contains(DELIMITER),
        id_value(id_text(id)) == Some(id),
{
    let v = id_text(id);
    assert forall|k: int| 0 <= k < v.len() implies !halts(Until::ValueEnd, #[trigger] v[k]) && v[k]
        != DELIMITER by {
        if 1 <= k < 37 {
            lemma_hyphenated_bytes(id, k - 1);
            assert(v[k] == hyphenated(id)[k - 1]);
        }
    }
    assert(v.subrange(1, 37) =~= hyphenated(id));
    lemma_id_round_trip(id);
}

/// What is known of a port as a value: it is one token, it holds no
/// delimiter, and it reads back as the port.
pub proof fn lemma_port_text(port: u16)
    ensures
        plain_value(decimal(port as nat)),
        !decimal(port as nat).contains(DELIMITER),
        port_of(decimal(port as nat)) == Some(port),
{
    let v = decimal(port as nat);
    lemma_decimal_round_trip(port as nat);
    assert forall|k: int| 0 <= k < v.len() implies !halts(Until::ValueEnd, #[trigger] v[k]) && v[k]
        != DELIMITER by {
        assert(is_digit(v[k]));
    }
}

/// A value token that denotes an id holds no delimiter.
proof fn lemma_id_value_bytes(value: Seq<u8>)
    requires
        id_value(value) is Some,
    ensures
        !value.contains(DELIMITER),
{
    let inner = value.subrange(1, 37);
    assert forall|k: int| 0 <= k < value.len() implies value[k] != DELIMITER by {
        if 1 <= k < 37 {
            lemma_is_hyphenated_bytes(inner, k - 1);
            assert(inner[k - 1] == value[k]);
        }
    }
}

/// A value token that denotes a port holds no delimiter.
proof fn lemma_port_value_bytes(value: Seq<u8>)
    requires
        port_of(value) is Some,
    ensures
        !value.contains(DELIMITER),
{
    assert forall|k: int| 0 <= k < value.len() implies value[k] != DELIMITER by {
        assert(is_digit(value[k]));
    }
}

/// Writes an id as a value.
pub fn write_id_value(id: u128) -> (out: Vec<u8>)
    ensures
        out@ == id_text(id),
{
    let mut out: Vec<u8> = Vec::new();
    out.push(QUOTE);
    write_id(&mut out, id);
    out.push(QUOTE);
    assert(out@ =~= id_text(id));
    out
}

/// Reads an id from a value token.
pub fn read_id_value(value: &[u8]) -> (r: Option<u128>)
    ensures
        r == id_value(value@),
{
    if value.len() == 38 && value[0] == QUOTE && value[37] == QUOTE {
        read_id(&value[1..37])
    } else {
        None
    }
}

/// Whether the value of a variant that carries nothing is in order: absent,
/// or `null`.
fn is_unit(value: Option<&[u8]>) -> (r: bool)
    ensures
        r == match value {
            Some(v) => v@ == null_text(),
            None => true,
        },
{
    match value {
        Some(v) => same_bytes(v, null_bytes()),
        None => true,
    }
}

impl WireMessage for ClientMessage {
    open spec fn text(&self) -> Seq<u8> {
        envelope_text(client_envelope(*self))
    }

    open spec fn parse(text: Seq<u8>) -> Option<Self> {
        match envelope(text) {
            Some(e) => client_message(e),
            None => None,
        }
    }

    fn encode(&self) -> (out: Vec<u8>) {
        match self {
            ClientMessage::ReqTunnel => write_envelope(
                tag_bytes(Tag::ReqTunnel),
                Some(null_bytes()),
            ),
            ClientMessage::RegProxy(id) => {
                let value: Vec<u8> = write_id_value(*id);
                write_envelope(tag_bytes(Tag::RegProxy), Some(value.as_slice()))
            },
        }
    }

    fn decode(bytes: &[u8]) -> (msg: Option<Self>) {
        let fields: Fields = match read_envelope(bytes) {
            Some(fields) => fields,
            None => {
                return None;
            },
        };
        if same_bytes(fields.name, tag_bytes(Tag::ReqTunnel)) {
            if is_unit(fields.value) {
                Some(ClientMessage::ReqTunnel)
            } else {
                None
            }
        } else if same_bytes(fields.name, tag_bytes(Tag::RegProxy)) {
            match fields.value {
                Some(value) => match read_id_value(value) {
                    Some(id) => Some(ClientMessage::RegProxy(id)),
                    None => None,
                },
                None => None,
            }
        } else {
            None
        }
    }

    proof fn lemma_round_trip(&self) {
        let e = client_envelope(*self);
        lemma_tag_names();
        if let ClientMessage::RegProxy(id) = *self {
            lemma_id_text(id);
        }
        lemma_envelope_round_trip(e);
        if self.text().contains(DELIMITER) {
            lemma_envelope_text_bytes(e, DELIMITER);
        }
    }

    proof fn lemma_delimiter_is_rejected(text: Seq<u8>) {
        if Self::parse(text) is Some {
            let e = envelope(text).unwrap();
            let k = choose|k: int| 0 <= k < text.len() && text[k] == DELIMITER;
            lemma_envelope_covers(text, k);
            lemma_tag_names();
            if e.value is Some && e.name == tag_name(Tag::RegProxy) {
                lemma_id_value_bytes(e.value.unwrap());
            }
        }
    }
}

impl WireMessage for ServerMessage {
    open spec fn text(&self) -> Seq<u8> {
        envelope_text(server_envelope(*self))
    }

    open spec fn parse(text: Seq<u8>) -> Option<Self> {
        match envelope(text) {
            Some(e) => server_message(e),
            None => None,
        }
    }

    fn encode(&self) -> (out: Vec<u8>) {
        match self {
            ServerMessage::NewTunnel(port) => {
                let mut value: Vec<u8> = Vec::new();
                write_port(&mut value, *port);
                assert(value@ =~= decimal(*port as nat));
                write_envelope(tag_bytes(Tag::NewTunnel), Some(value.as_slice()))
            },
            ServerMessage::Heartbeat => write_envelope(tag_bytes(Tag::Heartbeat), None),
            ServerMessage::ReqProxy(id) => {
                let value: Vec<u8> = write_id_value(*id);
                write_envelope(tag_bytes(Tag::ReqProxy), Some(value.as_slice()))
            },
        }
    }

    fn decode(bytes: &[u8]) -> (msg: Option<Self>) {
        let fields: Fields = match read_envelope(bytes) {
            Some(fields) => fields,
            None => {
                return None;
            },
        };
        if same_bytes(fields.name, tag_bytes(Tag::Heartbeat)) {
            if is_unit(fields.value) {
                Some(ServerMessage::Heartbeat)
            } else {
                None
            }
        } else if same_bytes(fields.name, tag_bytes(Tag::NewTunnel)) {
            match fields.value {
                Some(value) => match read_port(value) {
                    Some(port) => Some(ServerMessage::NewTunnel(port)),
                    None => None,
                },
                None => None,
            }
        } else if same_bytes(fields.name, tag_bytes(Tag::ReqProxy)) {
            match fields.value {
                Some(value) => match read_id_value(value) {
                    Some(id) => Some(ServerMessage::ReqProxy(id)),
                    None => None,
                },
                None => None,
            }
        } else {
            None
        }
    }

    proof fn lemma_round_trip(&self) {
        let e = server_envelope(*self);
        lemma_tag_names();
        match *self {
            ServerMessage::NewTunnel(port) => {
                lemma_port_text(port);
            },
            ServerMessage::Heartbeat => {},
            ServerMessage::ReqProxy(id) => {
                lemma_id_text(id);
            },
        }
        lemma_envelope_round_trip(e);
        if self.text().contains(DELIMITER) {
            lemma_envelope_text_bytes(e, DELIMITER);
        }
    }

    proof fn lemma_delimiter_is_rejected(text: Seq<u8>) {
        if Self::parse(text) is Some {
            let e = envelope(text).unwrap();
            let k = choose|k: int| 0 <= k < text.len() && text[k] == DELIMITER;
            lemma_envelope_covers(text, k);
            lemma_tag_names();
            if e.value is Some && e.name == tag_name(Tag::ReqProxy) {
                lemma_id_value_bytes(e.value.unwrap());
            }
            if e.value is Some && e.name == tag_name(Tag::NewTunnel) {
                lemma_port_value_bytes(e.value.unwrap());
            }
        }
    }
}

/// A payload with the delimiter behind it.
pub open spec fn frame(payload: Seq<u8>) -> Seq<u8> {
    payload.push(DELIMITER)
}

/// Where the first frame in `bytes` ends: the index of the first delimiter.
pub open spec fn frame_end(bytes: Seq<u8>) -> Option<int> {
    if scan(bytes, 0, Until::Delimiter) < bytes.len() {
        Some(scan(bytes, 0, Until::Delimiter))
    } else {
        None
    }
}

/// A payload without a delimiter, framed and followed by anything, is found
/// again as the first frame, and what followed it is what is left.
pub proof fn lemma_frame_boundary(payload: Seq<u8>, rest: Seq<u8>)
    requires
        !payload.contains(DELIMITER),
    ensures
        frame_end(frame(payload) + rest) == Some(payload.len() as int),
        (frame(payload) + rest).subrange(0, payload.len() as int) == payload,
        (frame(payload) + rest).skip(payload.len() as int + 1) == rest,
{
    let s = frame(payload) + rest;
    let n = payload.len() as int;
    assert forall|k: int| 0 <= k < n implies !halts(Until::Delimiter, #[trigger] s[k]) by {
        assert(s[k] == payload[k]);
        assert(payload.contains(payload[k]));
    }
    assert(s[n] == DELIMITER);
    lemma_scan_stops(s, 0, n, Until::Delimiter);
    assert(s.subrange(0, n) =~= payload);
    assert(s.skip(n + 1) =~= rest);
}

/// The first frame of a byte stream holds no delimiter, whatever the bytes.
pub proof fn lemma_frame_has_no_delimiter(bytes: Seq<u8>)
    requires
        frame_end(bytes) is Some,
    ensures
        !bytes.subrange(0, frame_end(bytes).unwrap()).contains(DELIMITER),
{
    lemma_scan_bounds(bytes, 0, Until::Delimiter);
    let end = frame_end(bytes).unwrap();
    let payload = bytes.subrange(0, end);
    if payload.contains(DELIMITER) {
        let k = choose|k: int| 0 <= k < payload.len() && payload[k] == DELIMITER;
        assert(bytes[k] == DELIMITER);
    }
}

} // verus!
