use aztunnel::numerals::{read_id, read_port, write_id, write_port};
use aztunnel::text::{read_envelope, same_bytes, scan_bytes, write_envelope, Until};
use aztunnel::tunnel_protocol::{
    read_id_value, tag_bytes, write_id_value, ClientMessage, ServerMessage, Tag, WireMessage,
};

const ID: u128 = 0xa1a2a3a4b1b2c1c2d1d2d3d4d5d6d7d8;

#[test]
fn client_messages_have_their_wire_text() {
    assert_eq!(ClientMessage::ReqTunnel.encode(), b"{\"ReqTunnel\":null}".to_vec());
    assert_eq!(
        ClientMessage::RegProxy(ID).encode(),
        b"{\"RegProxy\":\"a1a2a3a4-b1b2-c1c2-d1d2-d3d4d5d6d7d8\"}".to_vec()
    );
}

#[test]
fn server_messages_have_their_wire_text() {
    assert_eq!(ServerMessage::NewTunnel(8080).encode(), b"{\"NewTunnel\":8080}".to_vec());
    assert_eq!(ServerMessage::Heartbeat.encode(), b"\"Heartbeat\"".to_vec());
    assert_eq!(
        ServerMessage::ReqProxy(ID).encode(),
        b"{\"ReqProxy\":\"a1a2a3a4-b1b2-c1c2-d1d2-d3d4d5d6d7d8\"}".to_vec()
    );
}

#[test]
fn every_message_reads_back_as_itself() {
    let ids = [0u128, 1, ID, u128::MAX, 0x0123456789abcdef_fedcba9876543210];
    assert_eq!(
        ClientMessage::decode(&ClientMessage::ReqTunnel.encode()),
        Some(ClientMessage::ReqTunnel)
    );
    assert_eq!(
        ServerMessage::decode(&ServerMessage::Heartbeat.encode()),
        Some(ServerMessage::Heartbeat)
    );
    for id in ids {
        let reg = ClientMessage::RegProxy(id);
        assert_eq!(ClientMessage::decode(&reg.encode()), Some(reg));
        let req = ServerMessage::ReqProxy(id);
        assert_eq!(ServerMessage::decode(&req.encode()), Some(req));
    }
    for port in [0u16, 1, 9, 10, 99, 100, 4300, 8080, 65534, 65535] {
        let msg = ServerMessage::NewTunnel(port);
        assert_eq!(ServerMessage::decode(&msg.encode()), Some(msg));
    }
}

#[test]
fn every_port_reads_back_as_itself() {
    for port in 0..=u16::MAX {
        let mut text = Vec::new();
        write_port(&mut text, port);
        assert_eq!(text, port.to_string().into_bytes());
        assert_eq!(read_port(&text), Some(port));
    }
}

#[test]
fn no_message_text_holds_the_delimiter() {
    let texts = [
        ClientMessage::ReqTunnel.encode(),
        ClientMessage::RegProxy(0).encode(),
        ClientMessage::RegProxy(u128::MAX).encode(),
        ServerMessage::NewTunnel(0).encode(),
        ServerMessage::NewTunnel(65535).encode(),
        ServerMessage::Heartbeat.encode(),
        ServerMessage::ReqProxy(ID).encode(),
    ];
    for text in texts {
        assert!(!text.contains(&0));
    }
}

#[test]
fn whitespace_around_the_tokens_is_accepted() {
    assert_eq!(ClientMessage::decode(b"{\"ReqTunnel\": null}"), Some(ClientMessage::ReqTunnel));
    assert_eq!(
        ClientMessage::decode(b" \t{ \"ReqTunnel\" :\r\n null } \n"),
        Some(ClientMessage::ReqTunnel)
    );
    assert_eq!(
        ClientMessage::decode(b"{\"RegProxy\": \"a1a2a3a4-b1b2-c1c2-d1d2-d3d4d5d6d7d8\"}"),
        Some(ClientMessage::RegProxy(ID))
    );
    assert_eq!(ServerMessage::decode(b"{ \"NewTunnel\" : 8080 }"), Some(ServerMessage::NewTunnel(8080)));
    assert_eq!(ServerMessage::decode(b"  \"Heartbeat\"  "), Some(ServerMessage::Heartbeat));
}

#[test]
fn a_variant_without_payload_comes_bare_or_with_null() {
    assert_eq!(ClientMessage::decode(b"\"ReqTunnel\""), Some(ClientMessage::ReqTunnel));
    assert_eq!(ClientMessage::decode(b"{\"ReqTunnel\":null}"), Some(ClientMessage::ReqTunnel));
    assert_eq!(ServerMessage::decode(b"\"Heartbeat\""), Some(ServerMessage::Heartbeat));
    assert_eq!(ServerMessage::decode(b"{\"Heartbeat\":null}"), Some(ServerMessage::Heartbeat));
    assert_eq!(ClientMessage::decode(b"{\"ReqTunnel\":0}"), None);
    assert_eq!(ServerMessage::decode(b"{\"Heartbeat\":\"\"}"), None);
}

#[test]
fn an_id_may_be_written_in_upper_case() {
    assert_eq!(
        ClientMessage::decode(b"{\"RegProxy\":\"A1A2A3A4-B1B2-C1C2-D1D2-D3D4D5D6D7D8\"}"),
        Some(ClientMessage::RegProxy(ID))
    );
    assert_eq!(read_id(b"A1a2A3a4-B1b2-C1c2-D1d2-D3d4D5d6D7d8"), Some(ID));
}

#[test]
fn malformed_client_texts_are_rejected() {
    let bad: [&[u8]; 16] = [
        b"",
        b" ",
        b"null",
        b"{}",
        b"\"ReqTunnel",
        b"ReqTunnel",
        b"\"reqtunnel\"",
        b"\"ReqTunnel\" x",
        b"{\"ReqTunnel\":null",
        b"{\"ReqTunnel\":null}}",
        b"{\"ReqTunnel\" null}",
        b"{\"ReqTunnel\":nu ll}",
        b"\"RegProxy\"",
        b"{\"RegProxy\":null}",
        b"{\"RegProxy\":\"a1a2a3a4b1b2c1c2d1d2d3d4d5d6d7d8\"}",
        b"{\"RegProxy\":\"a1a2a3a4-b1b2-c1c2-d1d2-d3d4d5d6d7dg\"}",
    ];
    for text in bad {
        assert_eq!(ClientMessage::decode(text), None);
    }
}

#[test]
fn malformed_server_texts_are_rejected() {
    let bad: [&[u8]; 14] = [
        b"",
        b"\"NewTunnel\"",
        b"{\"NewTunnel\":}",
        b"{\"NewTunnel\":65536}",
        b"{\"NewTunnel\":080}",
        b"{\"NewTunnel\":00}",
        b"{\"NewTunnel\":-1}",
        b"{\"NewTunnel\":8080.0}",
        b"{\"NewTunnel\":\"8080\"}",
        b"{\"NewTunnel\":99999999999999999999999999}",
        b"{\"NewTunnel\":80 80}",
        b"{\"ReqProxy\":\"a1a2a3a4-b1b2-c1c2-d1d2-d3d4d5d6d7d\"}",
        b"{\"ReqProxy\":\"a1a2a3a4-b1b2-c1c2-d1d2_d3d4d5d6d7d8\"}",
        b"{\"Heartbeat\":null} \"Heartbeat\"",
    ];
    for text in bad {
        assert_eq!(ServerMessage::decode(text), None);
    }
}

#[test]
fn each_side_reads_only_its_own_messages() {
    assert_eq!(ClientMessage::decode(&ServerMessage::Heartbeat.encode()), None);
    assert_eq!(ClientMessage::decode(&ServerMessage::NewTunnel(1).encode()), None);
    assert_eq!(ClientMessage::decode(&ServerMessage::ReqProxy(ID).encode()), None);
    assert_eq!(ServerMessage::decode(&ClientMessage::ReqTunnel.encode()), None);
    assert_eq!(ServerMessage::decode(&ClientMessage::RegProxy(ID).encode()), None);
}

#[test]
fn ports_are_canonical_decimal_numbers() {
    assert_eq!(read_port(b"0"), Some(0));
    assert_eq!(read_port(b"65535"), Some(65535));
    assert_eq!(read_port(b"65536"), None);
    assert_eq!(read_port(b"100000"), None);
    assert_eq!(read_port(b"4294967296"), None);
    assert_eq!(read_port(b"18446744073709551616"), None);
    assert_eq!(read_port(b""), None);
    assert_eq!(read_port(b"01"), None);
    assert_eq!(read_port(b"+1"), None);
    assert_eq!(read_port(b"1a"), None);
    assert_eq!(read_port(b"1 "), None);
}

#[test]
fn ids_are_hyphenated_hexadecimal() {
    let mut text = Vec::new();
    write_id(&mut text, ID);
    assert_eq!(text, b"a1a2a3a4-b1b2-c1c2-d1d2-d3d4d5d6d7d8".to_vec());
    assert_eq!(read_id(&text), Some(ID));
    assert_eq!(read_id(b"00000000-0000-0000-0000-000000000000"), Some(0));
    assert_eq!(read_id(b"ffffffff-ffff-ffff-ffff-ffffffffffff"), Some(u128::MAX));
    assert_eq!(read_id(b"00000000-0000-0000-0000-000000000001"), Some(1));
    assert_eq!(read_id(b"10000000-0000-0000-0000-000000000000"), Some(1 << 124));
    assert_eq!(read_id(b"a1a2a3a4b1b2c1c2d1d2d3d4d5d6d7d8"), None);
    assert_eq!(read_id(b"a1a2a3a4-b1b2-c1c2-d1d2-d3d4d5d6d7d"), None);
    assert_eq!(read_id(b"a1a2a3a4-b1b2-c1c2-d1d2-d3d4d5d6d7d88"), None);
    assert_eq!(read_id(b"a1a2a3a4-b1b2-c1c2-d1d2-d3d4d5d6d7dx"), None);
    assert_eq!(read_id(b"a1a2a3a4--1b2-c1c2-d1d2-d3d4d5d6d7d8"), None);
    assert_eq!(read_id(b"a1a2a3a4bb1b2-c1c2-d1d2-d3d4d5d6d7d8"), None);
    assert_eq!(write_id_value(1), b"\"00000000-0000-0000-0000-000000000001\"".to_vec());
    assert_eq!(read_id_value(b"\"00000000-0000-0000-0000-000000000001\""), Some(1));
    assert_eq!(read_id_value(b"00000000-0000-0000-0000-000000000001"), None);
    assert_eq!(read_id_value(b"'00000000-0000-0000-0000-000000000001'"), None);
}

#[test]
fn id_text_is_the_hyphenated_form_of_a_uuid() {
    for id in [0u128, 1, ID, u128::MAX, 0x0123456789abcdef_fedcba9876543210] {
        let uuid = uuid::Uuid::from_u128(id);
        let mut text = Vec::new();
        write_id(&mut text, id);
        assert_eq!(text, uuid.hyphenated().to_string().into_bytes());
        let parsed = uuid::Uuid::parse_str(std::str::from_utf8(&text).unwrap()).unwrap();
        assert_eq!(read_id(&text), Some(parsed.as_u128()));
    }
}

#[test]
fn message_text_is_json() {
    let value: serde_json::Value =
        serde_json::from_slice(&ServerMessage::NewTunnel(8080).encode()).unwrap();
    assert_eq!(value.get("NewTunnel").and_then(|port| port.as_u64()), Some(8080));
    let value: serde_json::Value =
        serde_json::from_slice(&ClientMessage::RegProxy(ID).encode()).unwrap();
    assert_eq!(
        value.get("RegProxy").and_then(|id| id.as_str()),
        Some("a1a2a3a4-b1b2-c1c2-d1d2-d3d4d5d6d7d8")
    );
    let value: serde_json::Value =
        serde_json::from_slice(&ClientMessage::ReqTunnel.encode()).unwrap();
    assert_eq!(value.get("ReqTunnel"), Some(&serde_json::Value::Null));
    let value: serde_json::Value =
        serde_json::from_slice(&ServerMessage::Heartbeat.encode()).unwrap();
    assert_eq!(value.as_str(), Some("Heartbeat"));
}

#[test]
fn json_written_elsewhere_is_read() {
    let mut object = serde_json::Map::new();
    object.insert("NewTunnel".to_string(), serde_json::Value::from(4300u16));
    let text = serde_json::to_string(&serde_json::Value::Object(object)).unwrap();
    assert_eq!(ServerMessage::decode(text.as_bytes()), Some(ServerMessage::NewTunnel(4300)));

    let mut object = serde_json::Map::new();
    object.insert(
        "ReqProxy".to_string(),
        serde_json::Value::from(uuid::Uuid::from_u128(ID).to_string()),
    );
    let value = serde_json::Value::Object(object);
    let text = serde_json::to_string(&value).unwrap();
    assert_eq!(ServerMessage::decode(text.as_bytes()), Some(ServerMessage::ReqProxy(ID)));
    let pretty = serde_json::to_string_pretty(&value).unwrap();
    assert_eq!(ServerMessage::decode(pretty.as_bytes()), Some(ServerMessage::ReqProxy(ID)));

    let text = serde_json::to_string(&serde_json::Value::from("ReqTunnel")).unwrap();
    assert_eq!(ClientMessage::decode(text.as_bytes()), Some(ClientMessage::ReqTunnel));
}

#[test]
fn envelopes_are_read_and_written() {
    let text = write_envelope(b"Name", Some(b"12"));
    assert_eq!(text, b"{\"Name\":12}".to_vec());
    let fields = read_envelope(&text).unwrap();
    assert_eq!(fields.name, b"Name");
    assert_eq!(fields.value, Some(&b"12"[..]));

    let text = write_envelope(b"Name", None);
    assert_eq!(text, b"\"Name\"".to_vec());
    let fields = read_envelope(&text).unwrap();
    assert_eq!(fields.name, b"Name");
    assert_eq!(fields.value, None);

    let fields = read_envelope(b"{\"\":}").unwrap();
    assert_eq!(fields.name, b"");
    assert_eq!(fields.value, Some(&b""[..]));
    assert!(read_envelope(b"{\"a\":1").is_none());
    assert!(read_envelope(b"{\"a\" 1}").is_none());
    assert!(read_envelope(b"{a:1}").is_none());
    assert!(read_envelope(b"\"a\"\"b\"").is_none());
}

#[test]
fn scans_stop_where_they_should() {
    assert_eq!(scan_bytes(b"  \t\r\nx ", 0, Until::Text), 5);
    assert_eq!(scan_bytes(b"   ", 1, Until::Text), 3);
    assert_eq!(scan_bytes(b"ab\"c", 0, Until::Quote), 2);
    assert_eq!(scan_bytes(b"12}", 0, Until::ValueEnd), 2);
    assert_eq!(scan_bytes(b"12 }", 0, Until::ValueEnd), 2);
    assert_eq!(scan_bytes(b"ab\0cd\0", 0, Until::Delimiter), 2);
    assert_eq!(scan_bytes(b"ab\0cd\0", 3, Until::Delimiter), 5);
    assert_eq!(scan_bytes(b"abc", 3, Until::Delimiter), 3);
    assert_eq!(scan_bytes(b"abc", 7, Until::Delimiter), 7);
    assert_eq!(scan_bytes(b"", 0, Until::Text), 0);
    assert!(same_bytes(b"abc", b"abc"));
    assert!(!same_bytes(b"abc", b"abd"));
    assert!(!same_bytes(b"abc", b"ab"));
    assert!(same_bytes(tag_bytes(Tag::NewTunnel), b"NewTunnel"));
    assert!(same_bytes(tag_bytes(Tag::ReqTunnel), b"ReqTunnel"));
    assert!(same_bytes(tag_bytes(Tag::RegProxy), b"RegProxy"));
    assert!(same_bytes(tag_bytes(Tag::ReqProxy), b"ReqProxy"));
    assert!(same_bytes(tag_bytes(Tag::Heartbeat), b"Heartbeat"));
}

#[test]
fn a_text_with_the_delimiter_in_it_is_no_message() {
    let texts: [&[u8]; 8] = [
        b"\0",
        b"{\"ReqTunnel\":null}\0",
        b"\0{\"ReqTunnel\":null}",
        b"{\"ReqTunnel\":\0null}",
        b"\"Req\0Tunnel\"",
        b"{\"RegProxy\":\"a1a2a3a4-b1b2-c1c2-d1d2-d3d4d5d6d7\0\x38\"}",
        b"{\"NewTunnel\":80\080}",
        b"\"Heartbeat\"\0",
    ];
    for text in texts {
        assert_eq!(ClientMessage::decode(text), None);
        assert_eq!(ServerMessage::decode(text), None);
    }
}
