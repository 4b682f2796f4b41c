//! The forwarding agent: what it makes of the broker's reply to its request
//! for a tunnel, and of each message that comes on the control connection
//! afterwards.

use crate::delimited::Delimited;
use crate::tunnel_protocol::{
    frame, ClientMessage, HandshakeError, ServerMessage, TunnelError, WireMessage, CONTROL_PORT,
};
use vstd::prelude::*;

verus! {

/// An agent whose tunnel is set up.
#[derive(Clone, Copy, Debug, PartialEq, Eq)]
pub struct TcpClient {
    remote_port: u16,
    local_port: u16,
}

/// What the agent does after one read on the control connection.
#[derive(Clone, Copy, Debug, PartialEq, Eq, Structural)]
pub enum Served {
    /// A heartbeat: nothing to do, go on reading.
    Idle,
    /// The broker assigned a tunnel a second time: warn, go on reading.
    UnexpectedHello,
    /// The broker asks for a proxy connection with this id: start a session
    /// of its own for it, and go on reading without waiting for it.
    OpenProxy(u128),
    /// The control connection ended: the tunnel is gone, stop cleanly.
    Closed,
    /// Reading failed: stop with this error.
    Failed(TunnelError),
}

/// What one proxy session does, in this order: dial the broker, write the
/// registration, then dial the local service and relay between the two.
#[derive(Debug, PartialEq, Eq)]
pub struct ProxyPlan {
    /// The broker's port to dial for the proxy connection.
    pub control_port: u16,
    /// The bytes to write on the proxy connection before it becomes a raw
    /// stream.
    pub registration: Vec<u8>,
    /// The port of the local service to dial.
    pub local_port: u16,
}

/// The tunnel's public port that the reply to the request gives, or why the
/// handshake failed. Only the assignment of a tunnel is accepted. Another
/// message, the end of the stream, a frame that holds no message and a
/// timeout are handshake errors; a transport failure stays what it is.
pub open spec fn handshake_port(reply: Result<Option<ServerMessage>, TunnelError>) -> Result<
    u16,
    TunnelError,
> {
    match reply {
        Ok(Some(ServerMessage::NewTunnel(port))) => Ok(port),
        Ok(Some(_)) => Err(TunnelError::Handshake(HandshakeError::UnexpectedMessage)),
        Ok(None) => Err(TunnelError::Handshake(HandshakeError::UnexpectedEof)),
        Err(TunnelError::Frame) => Err(TunnelError::Handshake(HandshakeError::Malformed)),
        Err(e) => Err(e),
    }
}

/// What the agent does with what one read on the control connection gave.
pub open spec fn served(incoming: Result<Option<ServerMessage>, TunnelError>) -> Served {
    match incoming {
        Ok(Some(ServerMessage::NewTunnel(_))) => Served::UnexpectedHello,
        Ok(Some(ServerMessage::Heartbeat)) => Served::Idle,
        Ok(Some(ServerMessage::ReqProxy(id))) => Served::OpenProxy(id),
        Ok(None) => Served::Closed,
        Err(e) => Served::Failed(e),
    }
}

impl Served {
    /// Whether the agent goes on reading the control connection.
    pub open spec fn goes_on(self) -> bool {
        self is Idle || self is UnexpectedHello || self is OpenProxy
    }

    /// Whether the agent goes on reading the control connection.
    pub fn keeps_serving(&self) -> (r: bool)
        ensures
            r == self.goes_on(),
    {
        match self {
            Served::Idle | Served::UnexpectedHello | Served::OpenProxy(_) => true,
            Served::Closed | Served::Failed(_) => false,
        }
    }
}

impl TcpClient {
    /// The public port that the broker assigned to the tunnel.
    pub closed spec fn tunnel_port(&self) -> u16 {
        self.remote_port
    }

    /// The port of the local service that the tunnel leads to.
    pub closed spec fn target_port(&self) -> u16 {
        self.local_port
    }

    /// The bytes that open the handshake on a fresh control connection: the
    /// request for a tunnel, framed.
    pub fn hello() -> (out: Vec<u8>)
        ensures
            out@ == frame(ClientMessage::ReqTunnel.text()),
    {
        Delimited::new().send(&ClientMessage::ReqTunnel)
    }

    /// Completes the handshake. `reply` is what waiting for the first message
    /// on the control connection gave: a message, the end of the stream
    /// (`None`), or an error.
    pub fn new(localport: u16, reply: Result<Option<ServerMessage>, TunnelError>) -> (r: Result<
        Self,
        TunnelError,
    >)
        ensures
            match handshake_port(reply) {
                Ok(port) => r is Ok && r.unwrap().tunnel_port() == port && r.unwrap().target_port()
                    == localport,
                Err(e) => r == Err::<Self, TunnelError>(e),
            },
    {
        match reply {
            Ok(Some(ServerMessage::NewTunnel(port))) => Ok(
                TcpClient { remote_port: port, local_port: localport },
            ),
            Ok(Some(_)) => Err(TunnelError::Handshake(HandshakeError::UnexpectedMessage)),
            Ok(None) => Err(TunnelError::Handshake(HandshakeError::UnexpectedEof)),
            Err(TunnelError::Frame) => Err(TunnelError::Handshake(HandshakeError::Malformed)),
            Err(e) => Err(e),
        }
    }

    pub fn remote_port(&self) -> (port: u16)
        ensures
            port == self.tunnel_port(),
    {
        self.remote_port
    }

    pub fn local_port(&self) -> (port: u16)
        ensures
            port == self.target_port(),
    {
        self.local_port
    }

    /// Decides what to do with what one read on the control connection gave:
    /// a message, the end of the stream (`None`), or an error. The agent
    /// itself stays as it is, whatever comes.
    pub fn handle_server_request(&self, incoming: Result<Option<ServerMessage>, TunnelError>) -> (r:
        Served)
        ensures
            r == served(incoming),
    {
        match incoming {
            Ok(Some(ServerMessage::NewTunnel(_))) => Served::UnexpectedHello,
            Ok(Some(ServerMessage::Heartbeat)) => Served::Idle,
            Ok(Some(ServerMessage::ReqProxy(id))) => Served::OpenProxy(id),
            Ok(None) => Served::Closed,
            Err(e) => Served::Failed(e),
        }
    }

    /// Plans the proxy session that the broker asked for with `id`.
    pub fn handle_connection(&self, id: u128) -> (plan: ProxyPlan)
        ensures
            plan.control_port == CONTROL_PORT,
            plan.registration@ == frame(ClientMessage::RegProxy(id).text()),
            plan.local_port == self.target_port(),
    {
        ProxyPlan {
            control_port: CONTROL_PORT,
            registration: Delimited::new().send(&ClientMessage::RegProxy(id)),
            local_port: self.local_port,
        }
    }
}

} // verus!
