use hapi_core::json::Json;
use hapi_core::socket::{
    classify_frame, connect_frame, disconnect_frame, emit_frame, emit_with_ack_frame, handshake_step,
    parse_sio_packet, pong_frame, socket_scheme, socket_url, starts_with, AckTable, HandshakeError,
    HandshakeInput, HandshakeState, HandshakeStep, Incoming, Reaction, SocketClient, SocketUrlError,
    CONNECT_TIMEOUT_SECS,
};

#[test]
fn packet_with_namespace_and_payload() {
    let p = parse_sio_packet("42/cli,[\"tunnel:open\",{\"port\":80}]", "/cli").unwrap();
    assert_eq!(p.packet_type, 2);
    assert_eq!(p.id, None);
    assert_eq!(p.payload.unwrap().render(), "[\"tunnel:open\",{\"port\":80}]");
}

#[test]
fn packet_with_ack_id() {
    let p = parse_sio_packet("43/cli,12[{\"ok\":true}]", "/cli").unwrap();
    assert_eq!(p.packet_type, 3);
    assert_eq!(p.id, Some(12));
    assert_eq!(p.payload.unwrap().render(), "[{\"ok\":true}]");
    let zeros = parse_sio_packet("43/cli,007[]", "/cli").unwrap();
    assert_eq!(zeros.id, Some(7));
}

#[test]
fn packet_without_namespace_or_comma() {
    let p = parse_sio_packet("425[\"e\"]", "/cli").unwrap();
    assert_eq!(p.packet_type, 2);
    assert_eq!(p.id, Some(5));
    assert_eq!(p.payload.unwrap().render(), "[\"e\"]");
    let q = parse_sio_packet("42/cli3[\"e\"]", "/cli").unwrap();
    assert_eq!(q.id, Some(3));
    let other = parse_sio_packet("42/other,[\"e\"]", "/cli").unwrap();
    assert_eq!(other.id, None);
    assert!(other.payload.is_none());
}

#[test]
fn packet_with_an_id_that_does_not_fit() {
    let max = parse_sio_packet("43/cli,9223372036854775807[1]", "/cli").unwrap();
    assert_eq!(max.id, Some(i64::MAX));
    let over = parse_sio_packet("43/cli,9223372036854775808[1]", "/cli").unwrap();
    assert_eq!(over.id, None);
    assert_eq!(over.payload.unwrap().render(), "[1]");
    let huge = parse_sio_packet("43/cli,99999999999999999999999[1]", "/cli").unwrap();
    assert_eq!(huge.id, None);
    assert_eq!(huge.payload.unwrap().render(), "[1]");
}

#[test]
fn packet_without_payload_or_with_bad_payload() {
    let bare = parse_sio_packet("40/cli,", "/cli").unwrap();
    assert_eq!(bare.packet_type, 0);
    assert!(bare.payload.is_none());
    let blank = parse_sio_packet("42/cli,  ", "/cli").unwrap();
    assert!(blank.payload.is_none());
    let bad = parse_sio_packet("42/cli,[oops", "/cli").unwrap();
    assert!(bad.payload.is_none());
    let only_id = parse_sio_packet("43/cli,4", "/cli").unwrap();
    assert_eq!(only_id.id, Some(4));
    assert!(only_id.payload.is_none());
}

#[test]
fn frames_that_carry_no_packet() {
    assert!(parse_sio_packet("", "/cli").is_none());
    assert!(parse_sio_packet("4", "/cli").is_none());
    assert!(parse_sio_packet("4x", "/cli").is_none());
    assert!(parse_sio_packet("2", "/cli").is_none());
    assert!(parse_sio_packet("32", "/cli").is_none());
}

#[test]
fn frames_are_classified() {
    assert!(matches!(classify_frame("2", "/cli"), Incoming::Ping));
    assert!(matches!(classify_frame("1", "/cli"), Incoming::Disconnect));
    assert!(matches!(classify_frame("1abc", "/cli"), Incoming::Disconnect));
    assert!(matches!(classify_frame("41/cli", "/cli"), Incoming::Disconnect));
    assert!(matches!(classify_frame("41/cli,", "/cli"), Incoming::Disconnect));
    assert!(matches!(classify_frame("41/other", "/cli"), Incoming::Ignore));
    assert!(matches!(classify_frame("3", "/cli"), Incoming::Ignore));
    assert!(matches!(classify_frame("0{\"sid\":\"x\"}", "/cli"), Incoming::Ignore));
    assert!(matches!(classify_frame("", "/cli"), Incoming::Ignore));
    assert!(matches!(classify_frame("22", "/cli"), Incoming::Ignore));
    assert!(matches!(classify_frame("40/cli,{\"sid\":\"y\"}", "/cli"), Incoming::Ignore));
    assert!(matches!(classify_frame("43/cli,[1]", "/cli"), Incoming::Ignore));
    assert!(matches!(classify_frame("43/cli,5", "/cli"), Incoming::Ignore));
    assert!(matches!(classify_frame("42/cli,{\"a\":1}", "/cli"), Incoming::Ignore));
    assert!(matches!(classify_frame("42/cli,[1,2]", "/cli"), Incoming::Ignore));
    assert!(matches!(classify_frame("42/cli,[]", "/cli"), Incoming::Ignore));
}

#[test]
fn events_and_acks_carry_their_payload() {
    match classify_frame("42/cli,[\"tunnel:data\",{\"tunnelId\":\"t1\"},\"extra\"]", "/cli") {
        Incoming::Event { name, data } => {
            assert_eq!(name, "tunnel:data");
            assert_eq!(data.render(), "{\"tunnelId\":\"t1\"}");
        }
        other => panic!("unexpected {:?}", other),
    }
    match classify_frame("42/cli,[\"bare\"]", "/cli") {
        Incoming::Event { name, data } => {
            assert_eq!(name, "bare");
            assert!(matches!(data, Json::Null));
        }
        other => panic!("unexpected {:?}", other),
    }
    match classify_frame("43/cli,31[{\"ok\":true}]", "/cli") {
        Incoming::Ack { id, payload } => {
            assert_eq!(id, 31);
            assert_eq!(payload.render(), "[{\"ok\":true}]");
        }
        other => panic!("unexpected {:?}", other),
    }
}

#[test]
fn frames_are_written_as_the_protocol_asks() {
    assert_eq!(pong_frame(), "3");
    let auth = Json::parse("{\"token\":\"t\"}").unwrap();
    assert_eq!(connect_frame("/cli", &auth), "40/cli,{\"token\":\"t\"}");
    let data = Json::parse("{\"machineId\":\"m\"}").unwrap();
    assert_eq!(emit_frame("/cli", "machine-alive", data.clone()), "42/cli,[\"machine-alive\",{\"machineId\":\"m\"}]");
    assert_eq!(
        emit_with_ack_frame("/cli", 17, "machine-update-state", data.clone()),
        "42/cli,17[\"machine-update-state\",{\"machineId\":\"m\"}]"
    );
    assert_eq!(emit_with_ack_frame("", -3, "e", Json::Null), "42,-3[\"e\",null]");
    assert_eq!(disconnect_frame("/cli"), "41/cli");
}

#[test]
fn written_frames_are_read_back() {
    let data = Json::parse("{\"tunnelId\":\"t1\",\"data\":\"cGluZw==\"}").unwrap();
    let frame = emit_frame("/cli", "tunnel:data", data);
    match classify_frame(&frame, "/cli") {
        Incoming::Event { name, data } => {
            assert_eq!(name, "tunnel:data");
            assert_eq!(data.str_at("data"), Some("cGluZw=="));
        }
        other => panic!("unexpected {:?}", other),
    }
}

#[test]
fn socket_ack_round_trip() {
    let mut client: SocketClient<&'static str> = SocketClient::new("/cli");
    assert!(client.acks.is_idle());
    let data = Json::parse("{\"machineId\":\"m1\"}").unwrap();
    let frame = client.emit_with_ack("machine-update-state", data, "caller").unwrap();
    assert_eq!(frame, "42/cli,1[\"machine-update-state\",{\"machineId\":\"m1\"}]");
    assert!(!client.acks.is_idle());
    match client.on_frame("43/cli,1[{\"ok\":true}]") {
        Reaction::Reply { waiter, payload } => {
            assert_eq!(waiter, "caller");
            assert_eq!(payload.render(), "[{\"ok\":true}]");
            assert!(matches!(payload.at(0).and_then(|o| o.get("ok")), Some(Json::Bool(true))));
        }
        other => panic!("unexpected {:?}", other),
    }
    assert!(client.acks.is_idle());
    assert_eq!(CONNECT_TIMEOUT_SECS, 10);
}

#[test]
fn socket_acks_reach_their_own_waiter_once() {
    let mut client: SocketClient<u32> = SocketClient::new("/cli");
    let first = client.emit_with_ack("a", Json::Null, 100).unwrap();
    let second = client.emit_with_ack("b", Json::Null, 200).unwrap();
    let third = client.emit_with_ack("c", Json::Null, 300).unwrap();
    assert_eq!(first, "42/cli,1[\"a\",null]");
    assert_eq!(second, "42/cli,2[\"b\",null]");
    assert_eq!(third, "42/cli,3[\"c\",null]");
    assert!(matches!(client.on_frame("43/cli,2[\"second\"]"), Reaction::Reply { waiter: 200, .. }));
    assert!(matches!(client.on_frame("43/cli,2[\"again\"]"), Reaction::Nothing));
    assert!(matches!(client.on_frame("43/cli,9[\"unknown\"]"), Reaction::Nothing));
    assert!(matches!(client.on_frame("43/cli,1[\"first\"]"), Reaction::Reply { waiter: 100, .. }));
    assert!(!client.acks.is_idle());
    assert!(matches!(client.on_frame("43/cli,3[\"third\"]"), Reaction::Reply { waiter: 300, .. }));
    assert!(client.acks.is_idle());
    assert_eq!(client.emit_with_ack("d", Json::Null, 400).unwrap(), "42/cli,4[\"d\",null]");
}

#[test]
fn socket_client_reacts_to_frames() {
    let mut client: SocketClient<u8> = SocketClient::new("/cli");
    assert!(matches!(client.on_frame("2"), Reaction::Send(f) if f == "3"));
    assert!(matches!(client.on_frame("41/cli"), Reaction::Disconnected));
    assert!(matches!(client.on_frame("1"), Reaction::Disconnected));
    assert!(matches!(client.on_frame("noise"), Reaction::Nothing));
    assert!(matches!(
        client.on_frame("42/cli,[\"tunnel:close\",{\"tunnelId\":\"t\"}]"),
        Reaction::Event { name, .. } if name == "tunnel:close"
    ));
    assert_eq!(client.emit("e", Json::unsigned(1)), "42/cli,[\"e\",1]");
    assert_eq!(client.disconnect(), "41/cli");
}

#[test]
fn ack_table_hands_out_growing_ids() {
    let mut table: AckTable<String> = AckTable::new();
    assert_eq!(table.register("a".to_string()), Ok(1));
    assert_eq!(table.register("b".to_string()), Ok(2));
    assert_eq!(table.take(1).as_deref(), Some("a"));
    assert_eq!(table.take(1), None);
    assert_eq!(table.register("c".to_string()), Ok(3));
    assert_eq!(table.take(3).as_deref(), Some("c"));
    assert_eq!(table.take(2).as_deref(), Some("b"));
    assert_eq!(table.take(0), None);
    assert_eq!(table.take(-1), None);
    assert!(table.is_idle());
}

#[test]
fn handshake_follows_the_connection_sequence() {
    let open = HandshakeInput::Text("0{\"sid\":\"abc\"}".to_string());
    let (state, step) = handshake_step(HandshakeState::AwaitOpen, open, "/cli");
    assert_eq!(state, HandshakeState::AwaitAck);
    assert!(matches!(step, HandshakeStep::SendConnect));
    let (state, step) = handshake_step(state, HandshakeInput::Text("2".to_string()), "/cli");
    assert!(matches!(step, HandshakeStep::SendPong));
    let (state, step) = handshake_step(state, HandshakeInput::Other, "/cli");
    assert!(matches!(step, HandshakeStep::Wait));
    let (state, step) = handshake_step(state, HandshakeInput::Text("42/cli,[\"early\"]".to_string()), "/cli");
    assert!(matches!(step, HandshakeStep::Wait));
    let (_, step) = handshake_step(state, HandshakeInput::Text("40/cli,{\"sid\":\"x\"}".to_string()), "/cli");
    assert!(matches!(step, HandshakeStep::Connected));
}

#[test]
fn handshake_fails_as_the_protocol_says() {
    let state = HandshakeState::AwaitOpen;
    let long = "9".repeat(100);
    assert!(matches!(
        handshake_step(state, HandshakeInput::Text(long), "/cli").1,
        HandshakeStep::Fail(HandshakeError::UnexpectedOpen(head)) if head == "9".repeat(80)
    ));
    assert!(matches!(
        handshake_step(state, HandshakeInput::Text("x".to_string()), "/cli").1,
        HandshakeStep::Fail(HandshakeError::UnexpectedOpen(head)) if head == "x"
    ));
    for input in [HandshakeInput::Other, HandshakeInput::Failed, HandshakeInput::Closed, HandshakeInput::TimedOut] {
        assert!(matches!(
            handshake_step(state, input, "/cli").1,
            HandshakeStep::Fail(HandshakeError::NoOpenPacket)
        ));
    }
    let state = HandshakeState::AwaitAck;
    assert!(matches!(
        handshake_step(state, HandshakeInput::Text("44/cli,{\"message\":\"no\"}".to_string()), "/cli").1,
        HandshakeStep::Fail(HandshakeError::ConnectError(t)) if t == "44/cli,{\"message\":\"no\"}"
    ));
    assert!(matches!(
        handshake_step(state, HandshakeInput::Text("41".to_string()), "/cli").1,
        HandshakeStep::Fail(HandshakeError::ClosedDuringConnect(t)) if t == "41"
    ));
    assert!(matches!(
        handshake_step(state, HandshakeInput::Failed, "/cli").1,
        HandshakeStep::Fail(HandshakeError::SocketFailed)
    ));
    assert!(matches!(
        handshake_step(state, HandshakeInput::Closed, "/cli").1,
        HandshakeStep::Fail(HandshakeError::SocketClosed)
    ));
    assert!(matches!(
        handshake_step(state, HandshakeInput::TimedOut, "/cli").1,
        HandshakeStep::Fail(HandshakeError::TimedOut)
    ));
}

#[test]
fn socket_url_translates_the_scheme() {
    assert_eq!(
        socket_url("http://localhost:3006").unwrap(),
        "ws://localhost:3006/socket.io/?EIO=4&transport=websocket"
    );
    assert_eq!(
        socket_url("https://hub.example.com/some/path?x=1").unwrap(),
        "wss://hub.example.com/socket.io/?EIO=4&transport=websocket"
    );
    assert_eq!(socket_url("not a url"), Err(SocketUrlError::Unparsable));
    assert_eq!(socket_url(""), Err(SocketUrlError::Unparsable));
    let long = format!("http://h/{}", "p".repeat(65536));
    assert_eq!(socket_url(&long), Err(SocketUrlError::Unparsable));
    let fits = format!("http://h/{}", "p".repeat(65536 - 9));
    assert_eq!(socket_url(&fits).unwrap(), "ws://h/socket.io/?EIO=4&transport=websocket");
    assert_eq!(socket_url("mailto:someone@example.com"), Err(SocketUrlError::SchemeRefused));
    assert_eq!(socket_scheme("https"), "wss");
    assert_eq!(socket_scheme("http"), "ws");
    assert_eq!(socket_scheme("ftp"), "ws");
}

#[test]
fn starts_with_compares_characters() {
    assert!(starts_with("40/cli,", "40/cli"));
    assert!(starts_with("abc", ""));
    assert!(!starts_with("ab", "abc"));
    assert!(!starts_with("äbc", "a"));
    assert!(starts_with("äbc", "äb"));
}
