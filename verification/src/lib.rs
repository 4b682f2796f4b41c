//! Control protocol and connection matching for a reverse TCP tunnel.
//!
//! Nothing in this crate touches a socket. The wire format, the framing, the
//! agent's reactions to broker messages and the broker's table of waiting
//! public connections are functions from values to values, each with a
//! contract that Verus checks. A program around the crate reads and writes the
//! bytes.

pub mod delimited;
pub mod numerals;
pub mod relay;
pub mod text;
pub mod tunnel_client;
pub mod tunnel_protocol;
pub mod tunnel_server;
