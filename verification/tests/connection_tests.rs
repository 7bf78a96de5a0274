use hapi_core::connection::{
    auth_payload, decode_event, initial_state_payload, keep_alive_payload, next_backoff, Backoff,
    LoopAction, LoopEvent, SocketEvent, DEFAULT_TUNNEL_HOST, INITIAL_STATE_TIMEOUT_SECS,
    KEEP_ALIVE_SECS, MAX_BACKOFF_SECS, NAMESPACE,
};
use hapi_core::json::Json;

fn data(text: &str) -> Json {
    Json::parse(text).unwrap()
}

#[test]
fn tunnel_open_is_decoded() {
    let event = decode_event("tunnel:open", &data("{\"tunnelId\":\"t1\",\"host\":\"10.0.0.2\",\"port\":8080}"));
    assert!(matches!(
        event,
        Some(SocketEvent::TunnelOpen { tunnel_id, host: Some(h), port: 8080 }) if tunnel_id == "t1" && h == "10.0.0.2"
    ));
    let no_host = decode_event("tunnel:open", &data("{\"tunnelId\":\"t1\",\"port\":22}"));
    assert!(matches!(no_host, Some(SocketEvent::TunnelOpen { host: None, port: 22, .. })));
    let wrapped = decode_event("tunnel:open", &data("{\"tunnelId\":\"t1\",\"port\":65537}"));
    assert!(matches!(wrapped, Some(SocketEvent::TunnelOpen { port: 1, .. })));
}

#[test]
fn tunnel_open_without_id_or_port_is_dropped() {
    assert!(decode_event("tunnel:open", &data("{\"port\":80}")).is_none());
    assert!(decode_event("tunnel:open", &data("{\"tunnelId\":\"\",\"port\":80}")).is_none());
    assert!(decode_event("tunnel:open", &data("{\"tunnelId\":\"t\"}")).is_none());
    assert!(decode_event("tunnel:open", &data("{\"tunnelId\":\"t\",\"port\":0}")).is_none());
    assert!(decode_event("tunnel:open", &data("{\"tunnelId\":\"t\",\"port\":65536}")).is_none());
    assert!(decode_event("tunnel:open", &data("{\"tunnelId\":\"t\",\"port\":-1}")).is_none());
    assert!(decode_event("tunnel:open", &data("{\"tunnelId\":\"t\",\"port\":\"80\"}")).is_none());
    assert!(decode_event("tunnel:open", &data("null")).is_none());
}

#[test]
fn tunnel_data_and_close_are_decoded() {
    let d = decode_event("tunnel:data", &data("{\"tunnelId\":\"t1\",\"data\":\"cGluZw==\"}"));
    assert!(matches!(d, Some(SocketEvent::TunnelData { tunnel_id, data }) if tunnel_id == "t1" && data == "cGluZw=="));
    let empty = decode_event("tunnel:data", &data("{\"tunnelId\":\"t1\"}"));
    assert!(matches!(empty, Some(SocketEvent::TunnelData { data, .. }) if data.is_empty()));
    assert!(decode_event("tunnel:data", &data("{\"data\":\"x\"}")).is_none());
    let c = decode_event("tunnel:close", &data("{\"tunnelId\":\"t1\"}"));
    assert!(matches!(c, Some(SocketEvent::TunnelClose { tunnel_id }) if tunnel_id == "t1"));
    assert!(decode_event("tunnel:close", &data("{}")).is_none());
    assert!(decode_event("tunnel:ready", &data("{\"tunnelId\":\"t1\"}")).is_none());
    assert!(decode_event("", &data("{\"tunnelId\":\"t1\"}")).is_none());
}

#[test]
fn payloads_are_what_the_hub_expects() {
    assert_eq!(NAMESPACE, "/cli");
    assert_eq!(DEFAULT_TUNNEL_HOST, "127.0.0.1");
    assert_eq!(KEEP_ALIVE_SECS, 20);
    assert_eq!(INITIAL_STATE_TIMEOUT_SECS, 10);
    assert_eq!(
        auth_payload("tok", "m-1").render(),
        "{\"clientType\":\"machine-scoped\",\"machineId\":\"m-1\",\"token\":\"tok\"}"
    );
    assert_eq!(
        initial_state_payload("m-1", 1700000000123).render(),
        "{\"expectedVersion\":0,\"machineId\":\"m-1\",\"runnerState\":{\"startedAt\":1700000000123,\"status\":\"running\"}}"
    );
    assert_eq!(keep_alive_payload("m-1", 5).render(), "{\"machineId\":\"m-1\",\"time\":5}");
}

#[test]
fn backoff_doubles_up_to_thirty_seconds() {
    let mut waits = Vec::new();
    let mut secs = 1;
    for _ in 0..8 {
        waits.push(secs);
        secs = next_backoff(secs);
    }
    assert_eq!(waits, vec![1, 2, 4, 8, 16, 30, 30, 30]);
    assert_eq!(next_backoff(15), 30);
    assert_eq!(next_backoff(u64::MAX), MAX_BACKOFF_SECS);
}

#[test]
fn connection_loop_waits_and_resets() {
    let mut backoff = Backoff::new();
    assert_eq!(backoff.on_event(LoopEvent::ConnectFailed), LoopAction::RetryAfter(1));
    assert_eq!(backoff.on_event(LoopEvent::ConnectFailed), LoopAction::RetryAfter(2));
    assert_eq!(backoff.on_event(LoopEvent::ConnectFailed), LoopAction::RetryAfter(4));
    assert_eq!(backoff.on_event(LoopEvent::Connected), LoopAction::Start);
    assert_eq!(backoff.secs, 1);
    assert_eq!(backoff.on_event(LoopEvent::InitialStateFailed), LoopAction::LeaveAndRetryAfter(1));
    assert_eq!(backoff.on_event(LoopEvent::Connected), LoopAction::Start);
    assert_eq!(backoff.on_event(LoopEvent::Disconnected), LoopAction::StopKeepAliveAndRetryAfter(1));
    assert_eq!(backoff.secs, 2);
    assert_eq!(backoff.on_event(LoopEvent::SignalWhileConnected), LoopAction::Shutdown);
    assert_eq!(backoff.on_event(LoopEvent::SignalWhileWaiting), LoopAction::Exit);
    assert_eq!(backoff.secs, 2);
}
