use hapi_core::connection::SocketEvent;
use hapi_core::tunnel::{
    decode_base64, on_read, tunnel_ready, tunnel_refused, ReadOutcome, TunnelAction, TunnelManager,
    READ_BUFFER_BYTES, WRITE_QUEUE_BUFFERS,
};

#[test]
fn tunnel_echo() {
    let mut manager: TunnelManager<&'static str> = TunnelManager::new();
    let open = SocketEvent::TunnelOpen { tunnel_id: "t1".to_string(), host: Some("127.0.0.1".to_string()), port: 4000 };
    match manager.on_event(open) {
        TunnelAction::Dial { tunnel_id, host, port } => {
            assert_eq!(tunnel_id, "t1");
            assert_eq!(host, "127.0.0.1");
            assert_eq!(port, 4000);
        }
        other => panic!("unexpected {:?}", other),
    }
    let ready = tunnel_ready("t1");
    assert_eq!(ready.event, "tunnel:ready");
    assert_eq!(ready.data.render(), "{\"tunnelId\":\"t1\"}");
    assert!(manager.insert("t1".to_string(), "handle").is_none());
    let data = SocketEvent::TunnelData { tunnel_id: "t1".to_string(), data: "cGluZw==".to_string() };
    match manager.on_event(data) {
        TunnelAction::Write { tunnel_id, bytes } => {
            assert_eq!(tunnel_id, "t1");
            assert_eq!(bytes, b"ping");
        }
        other => panic!("unexpected {:?}", other),
    }
    let step = on_read("t1", ReadOutcome::Data(b"ping".to_vec()));
    assert!(step.read_on);
    assert_eq!(step.emit.event, "tunnel:data");
    assert_eq!(step.emit.data.render(), "{\"data\":\"cGluZw==\",\"tunnelId\":\"t1\"}");
    let closed = on_read("t1", ReadOutcome::Eof);
    assert!(!closed.read_on);
    assert_eq!(closed.emit.event, "tunnel:close");
    assert_eq!(closed.emit.data.render(), "{\"tunnelId\":\"t1\"}");
    assert_eq!(manager.remove("t1"), Some("handle"));
    assert!(!manager.is_open("t1"));
}

#[test]
fn tunnel_open_defaults_to_the_local_host() {
    let mut manager: TunnelManager<u8> = TunnelManager::new();
    let open = SocketEvent::TunnelOpen { tunnel_id: "t".to_string(), host: None, port: 22 };
    assert!(matches!(
        manager.on_event(open),
        TunnelAction::Dial { host, port: 22, .. } if host == "127.0.0.1"
    ));
    assert!(!manager.is_open("t"));
}

#[test]
fn tunnel_data_for_unknown_tunnels_or_bad_text_is_dropped() {
    let mut manager: TunnelManager<u8> = TunnelManager::new();
    let unknown = SocketEvent::TunnelData { tunnel_id: "nope".to_string(), data: "cGluZw==".to_string() };
    assert!(matches!(manager.on_event(unknown), TunnelAction::Nothing));
    manager.insert("t".to_string(), 1);
    let bad = SocketEvent::TunnelData { tunnel_id: "t".to_string(), data: "not base64!".to_string() };
    assert!(matches!(manager.on_event(bad), TunnelAction::Nothing));
    let unpadded = SocketEvent::TunnelData { tunnel_id: "t".to_string(), data: "cGluZw".to_string() };
    assert!(matches!(manager.on_event(unpadded), TunnelAction::Nothing));
    let empty = SocketEvent::TunnelData { tunnel_id: "t".to_string(), data: String::new() };
    assert!(matches!(manager.on_event(empty), TunnelAction::Write { bytes, .. } if bytes.is_empty()));
    assert!(manager.is_open("t"));
}

#[test]
fn tunnel_close_and_disconnect_hand_out_handles() {
    let mut manager: TunnelManager<u32> = TunnelManager::new();
    assert_eq!(manager.insert("a".to_string(), 1), None);
    assert_eq!(manager.insert("b".to_string(), 2), None);
    assert_eq!(manager.insert("a".to_string(), 3), Some(1));
    assert_eq!(manager.get("a"), Some(&3));
    assert_eq!(manager.get("c"), None);
    let close = SocketEvent::TunnelClose { tunnel_id: "b".to_string() };
    assert!(matches!(manager.on_event(close), TunnelAction::Closed(Some(2))));
    let again = SocketEvent::TunnelClose { tunnel_id: "b".to_string() };
    assert!(matches!(manager.on_event(again), TunnelAction::Closed(None)));
    manager.insert("c".to_string(), 4);
    match manager.on_event(SocketEvent::Disconnected) {
        TunnelAction::Stopped(mut handles) => {
            handles.sort();
            assert_eq!(handles, vec![3, 4]);
        }
        other => panic!("unexpected {:?}", other),
    }
    assert!(!manager.is_open("a"));
    assert!(!manager.is_open("c"));
    assert!(manager.clear().is_empty());
}

#[test]
fn read_pump_reports_failures() {
    assert_eq!(READ_BUFFER_BYTES, 16 * 1024);
    assert_eq!(WRITE_QUEUE_BUFFERS, 256);
    let failed = on_read("t9", ReadOutcome::Failed("connection reset".to_string()));
    assert!(!failed.read_on);
    assert_eq!(failed.emit.event, "tunnel:error");
    assert_eq!(failed.emit.data.render(), "{\"message\":\"connection reset\",\"tunnelId\":\"t9\"}");
    let big = on_read("t9", ReadOutcome::Data(vec![0xff; READ_BUFFER_BYTES]));
    assert!(big.read_on);
    assert_eq!(big.emit.data.str_at("data").unwrap().len(), 21848);
    let three = on_read("t", ReadOutcome::Data(vec![0, 1, 2]));
    assert_eq!(three.emit.data.str_at("data"), Some("AAEC"));
}

#[test]
fn refused_dial_is_reported_with_host_and_port() {
    let emit = tunnel_refused("t1", "127.0.0.1", 8080);
    assert_eq!(emit.event, "tunnel:error");
    assert_eq!(emit.data.render(), "{\"message\":\"connect ECONNREFUSED 127.0.0.1:8080\",\"tunnelId\":\"t1\"}");
    assert_eq!(tunnel_refused("t", "h", 0).data.str_at("message"), Some("connect ECONNREFUSED h:0"));
    assert_eq!(tunnel_refused("t", "h", 65535).data.str_at("message"), Some("connect ECONNREFUSED h:65535"));
}

#[test]
fn tunnel_is_closed_when_its_pumps_are_gone() {
    let mut manager: TunnelManager<u32> = TunnelManager::new();
    manager.insert("a".to_string(), 1);
    manager.insert("b".to_string(), 2);
    assert_eq!(manager.on_write_result("a", true), None);
    assert!(manager.is_open("a"));
    assert_eq!(manager.on_write_result("a", false), Some(1));
    assert!(!manager.is_open("a"));
    assert_eq!(manager.on_write_result("a", false), None);
    assert_eq!(manager.on_pump_ended("b"), Some(2));
    assert!(!manager.is_open("b"));
    assert_eq!(manager.on_pump_ended("b"), None);
}

#[test]
fn base64_is_decoded_only_in_its_canonical_form() {
    assert_eq!(decode_base64("cGluZw==").as_deref(), Some(&b"ping"[..]));
    assert_eq!(decode_base64("").as_deref(), Some(&b""[..]));
    assert_eq!(decode_base64("AAEC").as_deref(), Some(&[0u8, 1, 2][..]));
    assert_eq!(decode_base64("/+8=").as_deref(), Some(&[0xffu8, 0xef][..]));
    for bad in ["cGluZw", "cGluZw=", "cGluZx==", "cGlu Zw==", "cGluZw==\n", "=", "c", "cG=u", "cGluZw===", "-_8="] {
        assert!(decode_base64(bad).is_none(), "{:?}", bad);
    }
    for n in 0..40usize {
        let bytes: Vec<u8> = (0..n).map(|i| (i * 37 % 256) as u8).collect();
        let text = on_read("t", ReadOutcome::Data(bytes.clone())).emit.data.str_at("data").unwrap().to_string();
        assert_eq!(decode_base64(&text), Some(bytes));
    }
}
