use aztunnel::tunnel_protocol::{ClientMessage, HandshakeError, ServerMessage, TunnelError};
use aztunnel::tunnel_server::{Accepted, Hello, Matched, Refused, Selector, Server};
use aztunnel::tunnel_server::PendingProxyRequest;

const A: u128 = 0x67e55044_10b1_426f_9247_bb680e5fe0c8;
const B: u128 = 0x0b5a5a67_1c0a_4d0e_8f3e_2e6f1f5d9c11;
const C: u128 = 0xffffffff_ffff_4fff_bfff_ffffffffffff;

fn sorted(mut conns: Vec<u64>) -> Vec<u64> {
    conns.sort();
    conns
}

#[test]
fn the_first_message_tells_what_a_connection_is() {
    assert_eq!(Server::greet(Ok(Some(ClientMessage::ReqTunnel))), Hello::Tunnel);
    assert_eq!(Server::greet(Ok(Some(ClientMessage::RegProxy(A)))), Hello::Proxy(A));
    assert_eq!(Server::greet(Ok(None)), Hello::Reject);
    assert_eq!(Server::greet(Err(TunnelError::Frame)), Hello::Reject);
    assert_eq!(Server::greet(Err(TunnelError::Io)), Hello::Reject);
    assert_eq!(
        Server::greet(Err(TunnelError::Handshake(HandshakeError::Timeout))),
        Hello::Reject
    );
}

#[test]
fn a_public_port_belongs_to_one_tunnel() {
    let mut server = Server::new();
    assert_eq!(server.open_tunnel(40000), Some(ServerMessage::NewTunnel(40000)));
    assert_eq!(server.open_tunnel(40001), Some(ServerMessage::NewTunnel(40001)));
    assert_eq!(server.open_tunnel(40000), None);
    assert_eq!(server.close_tunnel(40000), Vec::<u64>::new());
    assert_eq!(server.open_tunnel(40000), Some(ServerMessage::NewTunnel(40000)));
}

#[test]
fn a_connection_on_a_port_without_a_tunnel_is_refused() {
    let mut server = Server::new();
    assert_eq!(server.enqueue(40000, A, 0), Err(Refused::NoSuchTunnel));
    assert_eq!(server.accept_public(40000, 0), Err(Refused::NoSuchTunnel));
    server.open_tunnel(40000);
    assert_eq!(server.enqueue(40001, A, 0), Err(Refused::NoSuchTunnel));
    assert_eq!(server.register_proxy(A, 0), Matched::Unknown);
}

#[test]
fn two_waiting_connections_are_told_apart() {
    let mut server = Server::new();
    server.open_tunnel(40000);
    let first = server.enqueue(40000, A, 1000).unwrap();
    let second = server.enqueue(40000, B, 1000).unwrap();
    assert_eq!(first, Accepted { conn: 0, request: ServerMessage::ReqProxy(A) });
    assert_eq!(second, Accepted { conn: 1, request: ServerMessage::ReqProxy(B) });
    assert_eq!(server.register_proxy(B, 1001), Matched::Paired(1));
    assert_eq!(server.register_proxy(A, 1002), Matched::Paired(0));
}

#[test]
fn an_id_that_waits_already_is_not_taken_twice() {
    let mut server = Server::new();
    server.open_tunnel(40000);
    server.open_tunnel(40001);
    assert_eq!(server.enqueue(40000, A, 0).unwrap().conn, 0);
    assert_eq!(server.enqueue(40000, A, 5), Err(Refused::DuplicateId));
    assert_eq!(server.enqueue(40001, A, 5), Err(Refused::DuplicateId));
    assert_eq!(server.enqueue(40001, B, 5).unwrap().conn, 1);
    assert_eq!(server.register_proxy(A, 10), Matched::Paired(0));
    assert_eq!(server.enqueue(40001, A, 20).unwrap().conn, 2);
    assert_eq!(server.register_proxy(A, 21), Matched::Paired(2));
}

#[test]
fn drawn_ids_are_random_uuids_and_differ() {
    let mut server = Server::new();
    server.open_tunnel(40000);
    let mut ids = Vec::new();
    for expected in 0..64u64 {
        let accepted = server.accept_public(40000, 0).unwrap();
        assert_eq!(accepted.conn, expected);
        let id = match accepted.request {
            ServerMessage::ReqProxy(id) => id,
            other => panic!("{:?}", other),
        };
        assert_eq!((id >> 76) & 0xf, 4);
        assert_eq!((id >> 62) & 0x3, 2);
        assert_eq!(uuid::Uuid::from_u128(id).get_version_num(), 4);
        assert!(!ids.contains(&id));
        ids.push(id);
    }
    for (conn, id) in ids.iter().enumerate() {
        assert_eq!(server.register_proxy(*id, 1), Matched::Paired(conn as u64));
    }
}

#[test]
fn an_unknown_id_finds_nothing_and_disturbs_nothing() {
    let mut server = Server::new();
    server.open_tunnel(40000);
    server.enqueue(40000, A, 0).unwrap();
    assert_eq!(server.register_proxy(B, 1), Matched::Unknown);
    assert_eq!(server.register_proxy(C, 1), Matched::Unknown);
    assert_eq!(server.register_proxy(A, 1), Matched::Paired(0));
}

#[test]
fn an_id_is_found_once() {
    let mut server = Server::new();
    server.open_tunnel(40000);
    server.enqueue(40000, A, 0).unwrap();
    server.enqueue(40000, B, 0).unwrap();
    assert_eq!(server.register_proxy(A, 1), Matched::Paired(0));
    assert_eq!(server.register_proxy(A, 1), Matched::Unknown);
    assert_eq!(server.register_proxy(A, 2), Matched::Unknown);
    assert_eq!(server.register_proxy(B, 3), Matched::Paired(1));
    assert_eq!(server.register_proxy(B, 3), Matched::Unknown);
}

#[test]
fn a_request_expires_at_its_deadline() {
    let mut server = Server::new();
    server.open_tunnel(40000);
    server.enqueue(40000, A, 1000).unwrap();
    server.enqueue(40000, B, 1000).unwrap();
    assert_eq!(server.register_proxy(A, 5999), Matched::Paired(0));
    assert_eq!(server.register_proxy(B, 6000), Matched::Expired(1));
    assert_eq!(server.register_proxy(B, 6000), Matched::Unknown);
}

#[test]
fn a_sweep_evicts_what_has_expired() {
    let mut server = Server::new();
    server.open_tunnel(40000);
    server.open_tunnel(40001);
    server.enqueue(40000, A, 1000).unwrap();
    server.enqueue(40001, B, 1001).unwrap();
    server.enqueue(40000, C, 2000).unwrap();
    assert_eq!(server.sweep_expired(0), Vec::<u64>::new());
    assert_eq!(server.sweep_expired(5999), Vec::<u64>::new());
    assert_eq!(server.sweep_expired(6000), vec![0]);
    assert_eq!(server.sweep_expired(6000), Vec::<u64>::new());
    assert_eq!(server.register_proxy(A, 6000), Matched::Unknown);
    assert_eq!(server.register_proxy(A, 0), Matched::Unknown);
    assert_eq!(sorted(server.sweep_expired(u64::MAX)), vec![1, 2]);
    assert_eq!(server.register_proxy(B, 0), Matched::Unknown);
    assert_eq!(server.register_proxy(C, 0), Matched::Unknown);
}

#[test]
fn a_deadline_does_not_wrap_around() {
    let mut server = Server::new();
    server.open_tunnel(40000);
    server.enqueue(40000, A, u64::MAX - 4999).unwrap();
    server.enqueue(40000, B, u64::MAX - 5001).unwrap();
    assert_eq!(server.sweep_expired(u64::MAX - 2), Vec::<u64>::new());
    assert_eq!(server.sweep_expired(u64::MAX - 1), vec![1]);
    assert_eq!(server.register_proxy(A, u64::MAX - 1), Matched::Paired(0));
    server.enqueue(40000, C, u64::MAX).unwrap();
    assert_eq!(server.register_proxy(C, u64::MAX), Matched::Expired(2));
}

#[test]
fn closing_a_tunnel_aborts_all_that_wait_on_it() {
    let mut server = Server::new();
    server.open_tunnel(40000);
    server.open_tunnel(40001);
    let mut on_first = Vec::new();
    for n in 0..5u128 {
        on_first.push(server.enqueue(40000, A + n, 0).unwrap().conn);
    }
    let other = server.enqueue(40001, B, 0).unwrap().conn;
    assert_eq!(sorted(server.close_tunnel(40000)), on_first);
    for n in 0..5u128 {
        assert_eq!(server.register_proxy(A + n, 1), Matched::Unknown);
    }
    assert_eq!(server.enqueue(40000, C, 1), Err(Refused::NoSuchTunnel));
    assert_eq!(server.accept_public(40000, 1), Err(Refused::NoSuchTunnel));
    assert_eq!(server.close_tunnel(40000), Vec::<u64>::new());
    assert_eq!(server.register_proxy(B, 1), Matched::Paired(other));
}

#[test]
fn a_selector_picks_by_deadline_or_by_tunnel() {
    let entry = PendingProxyRequest { port: 40000, conn: 7, deadline: 6000 };
    assert!(!Selector::Expired(5999).takes(&entry));
    assert!(Selector::Expired(6000).takes(&entry));
    assert!(Selector::Expired(6001).takes(&entry));
    assert!(Selector::OfTunnel(40000).takes(&entry));
    assert!(!Selector::OfTunnel(40001).takes(&entry));
}
