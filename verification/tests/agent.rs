use aztunnel::relay::{proxy, Relay, RelayAction, RelayEvent, Side};
use aztunnel::tunnel_client::{ProxyPlan, Served, TcpClient};
use aztunnel::tunnel_protocol::{HandshakeError, ServerMessage, TunnelError, CONTROL_PORT};

const ID: u128 = 0x67e55044_10b1_426f_9247_bb680e5fe0c8;

#[test]
fn the_handshake_opens_with_a_request_for_a_tunnel() {
    assert_eq!(TcpClient::hello(), b"{\"ReqTunnel\":null}\0".to_vec());
}

#[test]
fn the_assignment_of_a_tunnel_completes_the_handshake() {
    let client = TcpClient::new(8080, Ok(Some(ServerMessage::NewTunnel(41234)))).unwrap();
    assert_eq!(client.remote_port(), 41234);
    assert_eq!(client.local_port(), 8080);
}

#[test]
fn a_handshake_without_a_reply_in_time_fails() {
    assert_eq!(
        TcpClient::new(8080, Err(TunnelError::Handshake(HandshakeError::Timeout))),
        Err(TunnelError::Handshake(HandshakeError::Timeout))
    );
}

#[test]
fn any_other_first_message_fails_the_handshake() {
    assert_eq!(
        TcpClient::new(8080, Ok(Some(ServerMessage::Heartbeat))),
        Err(TunnelError::Handshake(HandshakeError::UnexpectedMessage))
    );
    assert_eq!(
        TcpClient::new(8080, Ok(Some(ServerMessage::ReqProxy(ID)))),
        Err(TunnelError::Handshake(HandshakeError::UnexpectedMessage))
    );
    assert_eq!(
        TcpClient::new(8080, Ok(None)),
        Err(TunnelError::Handshake(HandshakeError::UnexpectedEof))
    );
    assert_eq!(
        TcpClient::new(8080, Err(TunnelError::Frame)),
        Err(TunnelError::Handshake(HandshakeError::Malformed))
    );
    assert_eq!(TcpClient::new(8080, Err(TunnelError::Io)), Err(TunnelError::Io));
}

#[test]
fn a_heartbeat_changes_nothing() {
    let client = TcpClient::new(8080, Ok(Some(ServerMessage::NewTunnel(41234)))).unwrap();
    let before = client;
    for _ in 0..3 {
        let served = client.handle_server_request(Ok(Some(ServerMessage::Heartbeat)));
        assert_eq!(served, Served::Idle);
        assert!(served.keeps_serving());
    }
    assert_eq!(client, before);
    assert_eq!(client.remote_port(), 41234);
    assert_eq!(client.local_port(), 8080);
}

#[test]
fn each_control_message_has_its_answer() {
    let client = TcpClient::new(3000, Ok(Some(ServerMessage::NewTunnel(5)))).unwrap();
    let served = client.handle_server_request(Ok(Some(ServerMessage::ReqProxy(ID))));
    assert_eq!(served, Served::OpenProxy(ID));
    assert!(served.keeps_serving());
    let served = client.handle_server_request(Ok(Some(ServerMessage::NewTunnel(6))));
    assert_eq!(served, Served::UnexpectedHello);
    assert!(served.keeps_serving());
    assert_eq!(client.remote_port(), 5);
    let served = client.handle_server_request(Ok(None));
    assert_eq!(served, Served::Closed);
    assert!(!served.keeps_serving());
    let served = client.handle_server_request(Err(TunnelError::Frame));
    assert_eq!(served, Served::Failed(TunnelError::Frame));
    assert!(!served.keeps_serving());
    let served = client.handle_server_request(Err(TunnelError::Io));
    assert_eq!(served, Served::Failed(TunnelError::Io));
}

#[test]
fn a_proxy_session_registers_and_dials_the_local_service() {
    let client = TcpClient::new(3000, Ok(Some(ServerMessage::NewTunnel(5)))).unwrap();
    assert_eq!(
        client.handle_connection(ID),
        ProxyPlan {
            control_port: CONTROL_PORT,
            registration: b"{\"RegProxy\":\"67e55044-10b1-426f-9247-bb680e5fe0c8\"}\0".to_vec(),
            local_port: 3000,
        }
    );
    assert_eq!(CONTROL_PORT, 4300);
}

#[test]
fn the_relay_passes_bytes_on_as_they_are() {
    let mut relay = Relay::new();
    assert_eq!(relay.result(), None);
    assert_eq!(
        proxy(&mut relay, RelayEvent::Data(Side::First, b"hello\0\xff".to_vec())),
        RelayAction::Forward(Side::Second, b"hello\0\xff".to_vec())
    );
    assert_eq!(
        proxy(&mut relay, RelayEvent::Data(Side::Second, b"world".to_vec())),
        RelayAction::Forward(Side::First, b"world".to_vec())
    );
    assert_eq!(
        proxy(&mut relay, RelayEvent::Data(Side::Second, Vec::new())),
        RelayAction::Forward(Side::First, Vec::new())
    );
    assert_eq!(relay.result(), None);
    assert_eq!(Side::First.opposite(), Side::Second);
    assert_eq!(Side::Second.opposite(), Side::First);
}

#[test]
fn the_relay_stops_when_either_side_ends() {
    for side in [Side::First, Side::Second] {
        let mut relay = Relay::new();
        assert_eq!(proxy(&mut relay, RelayEvent::Eof(side)), RelayAction::Stop(Ok(())));
        assert_eq!(relay.result(), Some(Ok(())));
        assert_eq!(
            proxy(&mut relay, RelayEvent::Data(side.opposite(), b"late".to_vec())),
            RelayAction::Stop(Ok(()))
        );
        assert_eq!(proxy(&mut relay, RelayEvent::Failed(side)), RelayAction::Stop(Ok(())));
    }
}

#[test]
fn the_relay_reports_the_first_failure() {
    for side in [Side::First, Side::Second] {
        let mut relay = Relay::new();
        assert_eq!(
            proxy(&mut relay, RelayEvent::Data(side, b"x".to_vec())),
            RelayAction::Forward(side.opposite(), b"x".to_vec())
        );
        assert_eq!(
            proxy(&mut relay, RelayEvent::Failed(side)),
            RelayAction::Stop(Err(TunnelError::Io))
        );
        assert_eq!(relay.result(), Some(Err(TunnelError::Io)));
        assert_eq!(
            proxy(&mut relay, RelayEvent::Eof(side.opposite())),
            RelayAction::Stop(Err(TunnelError::Io))
        );
    }
}

#[test]
fn every_error_says_what_went_wrong() {
    assert_eq!(
        TunnelError::Handshake(HandshakeError::Timeout).describe(),
        "timed out waiting for initial message"
    );
    assert_eq!(
        TunnelError::Handshake(HandshakeError::UnexpectedMessage).describe(),
        "unexpected initial non-hello message"
    );
    assert_eq!(TunnelError::Handshake(HandshakeError::UnexpectedEof).describe(), "unexpected EOF");
    assert_eq!(
        TunnelError::Handshake(HandshakeError::Malformed).describe(),
        "unable to parse initial message"
    );
    assert_eq!(TunnelError::Frame.describe(), "unable to parse message");
    assert_eq!(TunnelError::Io.describe(), "the connection failed");
}
