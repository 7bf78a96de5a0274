use hapi_core::hub_client::HubClient;
use hapi_core::json::Json;
use hapi_core::models::{
    SessionMetadata, SseEvent, SseMessage, SummaryText, SyncMessage, SyncMessagesResponse, SyncSession,
};
use hapi_core::syncer::{
    chunk_partitions, on_index_failure, pair_documents, partition_by_session, plan_batch, CatchUp,
    FailureAction, LiveAction, Phase, SyncMode, Syncer, BATCH_SIZE, EMBED_BATCH_SIZE,
};

fn user_message(id: &str, session: &str, seq: i64, text: &str) -> SyncMessage {
    SyncMessage {
        id: id.to_string(),
        session_id: session.to_string(),
        seq,
        content: Json::parse(&format!("{{\"role\":\"user\",\"content\":{{\"text\":\"{}\"}}}}", text)).unwrap(),
        created_at: 1000 + seq,
    }
}

fn session(id: &str, name: Option<&str>, summary: Option<&str>) -> SyncSession {
    SyncSession {
        id: id.to_string(),
        namespace: None,
        metadata: Some(SessionMetadata {
            name: name.map(|s| s.to_string()),
            path: Some(format!("/work/{}", id)),
            summary: summary.map(|s| SummaryText { text: s.to_string() }),
            flavor: Some("shell".to_string()),
            machine_id: None,
        }),
        created_at: 1,
        updated_at: 2,
        active: true,
    }
}

fn hub_with(sessions: Vec<SyncSession>) -> HubClient {
    let mut hub = HubClient::new("http://hub/", "key");
    hub.sessions_fetched(&sessions);
    hub
}

#[test]
fn partition_keeps_first_seen_order_of_sessions() {
    let messages = vec![
        user_message("m1", "b", 1, "one"),
        user_message("m2", "a", 1, "two"),
        user_message("m3", "b", 2, "three"),
        user_message("m4", "a", 2, "   "),
        user_message("m5", "c", 1, "five"),
    ];
    let parts = partition_by_session(&messages);
    let ids: Vec<Vec<&str>> = parts.iter().map(|p| p.iter().map(|m| m.message_id.as_str()).collect()).collect();
    assert_eq!(ids, vec![vec!["m1", "m3"], vec!["m2"], vec!["m5"]]);
    assert_eq!(parts[0][1].seq, 2);
    assert_eq!(parts[0][1].created_at, 1002);
    assert_eq!(parts[0][1].segments[0].text, "three");
    let chunks = chunk_partitions(&parts);
    let texts: Vec<&str> = chunks.iter().map(|c| c.text.as_str()).collect();
    assert_eq!(texts, vec!["[user] one\n[user] three", "[user] two", "[user] five"]);
    assert!(chunks.iter().all(|c| c.chunk_index == 0));
}

#[test]
fn plan_builds_documents_and_embedding_inputs() {
    let hub = hub_with(vec![session("a", Some("Design"), Some("ignored")), session("b", None, Some("Summary"))]);
    let messages = vec![
        user_message("m1", "a", 1, "first"),
        user_message("m2", "b", 7, "second"),
        user_message("m3", "c", 9, "third"),
    ];
    let windows = plan_batch(&messages, &hub.sessions);
    assert_eq!(windows.len(), 1);
    let w = &windows[0];
    assert_eq!(w.inputs, vec!["[Design] [user] first", "[Summary] [user] second", "[user] third"]);
    assert_eq!(w.documents.len(), 3);
    let d = &w.documents[0];
    assert_eq!(d.id, "msg_m1_chunk_0");
    assert_eq!(d.message_id, "m1");
    assert_eq!(d.session_id, "a");
    assert_eq!(d.seq, 1);
    assert_eq!(d.role, "user");
    assert_eq!(d.text, "[user] first");
    assert_eq!(d.session_name, "Design");
    assert_eq!(d.session_path, "/work/a");
    assert_eq!(d.session_flavor, "shell");
    assert_eq!(d.created_at, 1001);
    assert_eq!(w.documents[1].session_name, "Summary");
    assert_eq!(w.documents[2].session_name, "");
    assert_eq!(w.documents[2].session_path, "");
    assert_eq!(w.documents[2].session_flavor, "");
    assert_eq!(w.documents[2].id, "msg_m3_chunk_0");
}

#[test]
fn plan_numbers_the_chunks_of_a_session() {
    let hub = hub_with(vec![]);
    let long = "y".repeat(1000);
    let messages = vec![
        user_message("m1", "a", 1, &long),
        user_message("m2", "a", 2, &long),
        user_message("m3", "a", 3, &long),
    ];
    let windows = plan_batch(&messages, &hub.sessions);
    let ids: Vec<&str> = windows[0].documents.iter().map(|d| d.id.as_str()).collect();
    assert_eq!(ids, vec!["msg_m1_chunk_0", "msg_m2_chunk_1", "msg_m3_chunk_2"]);
}

#[test]
fn plan_puts_thirty_two_chunks_in_a_window() {
    assert_eq!(EMBED_BATCH_SIZE, 32);
    assert_eq!(BATCH_SIZE, 500);
    let hub = hub_with(vec![]);
    let messages: Vec<SyncMessage> =
        (0..70).map(|i| user_message(&format!("m{}", i), &format!("s{}", i), 1, "t")).collect();
    let windows = plan_batch(&messages, &hub.sessions);
    let sizes: Vec<usize> = windows.iter().map(|w| w.documents.len()).collect();
    assert_eq!(sizes, vec![32, 32, 6]);
    assert!(windows.iter().all(|w| w.inputs.len() == w.documents.len()));
    assert_eq!(windows[1].documents[0].id, "msg_m32_chunk_0");
    let exact: Vec<SyncMessage> =
        (0..64).map(|i| user_message(&format!("m{}", i), &format!("s{}", i), 1, "t")).collect();
    assert_eq!(plan_batch(&exact, &hub.sessions).len(), 2);
    assert!(plan_batch(&[], &hub.sessions).is_empty());
}

#[test]
fn plan_gives_the_same_document_ids_each_time() {
    let hub = hub_with(vec![session("a", Some("A"), None)]);
    let messages: Vec<SyncMessage> = (0..40)
        .map(|i| user_message(&format!("m{}", i), &format!("s{}", i % 5), i, &"z".repeat(400)))
        .collect();
    let syncer = Syncer::new(hub, "http://hapi/");
    assert_eq!(syncer.hapi_url, "http://hapi");
    let ids = |ws: &Vec<hapi_core::syncer::EmbedWindow>| -> Vec<String> {
        let mut v: Vec<String> = ws.iter().flat_map(|w| w.documents.iter().map(|d| d.id.clone())).collect();
        v.sort();
        v
    };
    let first = syncer.process_messages(&messages);
    let second = syncer.process_messages(&messages);
    assert_eq!(ids(&first), ids(&second));
    let mut unique = ids(&first);
    unique.dedup();
    assert_eq!(unique.len(), ids(&first).len());
}

#[test]
fn pair_documents_stops_at_the_shorter_side() {
    let hub = hub_with(vec![]);
    let messages: Vec<SyncMessage> =
        (0..3).map(|i| user_message(&format!("m{}", i), &format!("s{}", i), 1, "t")).collect();
    let docs = || plan_batch(&messages, &hub.sessions).remove(0).documents;
    assert_eq!(pair_documents(docs(), 3).len(), 3);
    assert_eq!(pair_documents(docs(), 5).len(), 3);
    let two = pair_documents(docs(), 2);
    assert_eq!(two.len(), 2);
    assert_eq!(two[1].id, "msg_m1_chunk_0");
    assert!(pair_documents(docs(), 0).is_empty());
}

fn page(times: &[i64], cursor: Option<&str>, has_more: bool) -> SyncMessagesResponse {
    SyncMessagesResponse {
        messages: times
            .iter()
            .enumerate()
            .map(|(i, t)| SyncMessage {
                id: format!("m{}", i),
                session_id: "s".to_string(),
                seq: i as i64,
                content: Json::Null,
                created_at: *t,
            })
            .collect(),
        cursor: cursor.map(|c| c.to_string()),
        has_more,
    }
}

#[test]
fn catch_up_advances_time_and_cursor() {
    let mut pass = CatchUp::start(100, Some("c0".to_string()));
    let request = pass.next_request();
    assert_eq!((request.since, request.limit, request.cursor.as_deref()), (100, 500, Some("c0")));
    assert!(!CatchUp::has_work(&page(&[], None, true)));
    let first = page(&[100, 150, 140], Some("c1"), true);
    assert!(CatchUp::has_work(&first));
    let step = pass.advance(&first).unwrap();
    assert_eq!(step.write_last_sync_ts, 140);
    assert_eq!(step.write_cursor.as_deref(), Some("c1"));
    assert!(step.fetch_more);
    assert_eq!(pass.last_sync_ts, 140);
    assert_eq!(pass.cursor.as_deref(), Some("c1"));
    let request = pass.next_request();
    assert_eq!((request.since, request.limit, request.cursor.as_deref()), (140, 500, Some("c1")));
    let second = page(&[200], None, false);
    let step = pass.advance(&second).unwrap();
    assert_eq!(step.write_last_sync_ts, 200);
    assert_eq!(step.write_cursor, None);
    assert!(!step.fetch_more);
    assert_eq!(pass.cursor.as_deref(), Some("c1"));
    assert!(pass.last_sync_ts >= 100);
    assert!(pass.advance(&page(&[], Some("c9"), true)).is_none());
    assert_eq!(pass.last_sync_ts, 200);
    assert_eq!(pass.cursor.as_deref(), Some("c1"));
}

#[test]
fn live_events_ask_for_the_right_action() {
    let hub = hub_with(vec![session("a", Some("A"), None), session("b", Some("B"), None)]);
    let mut syncer = Syncer::new(hub, "http://hapi");
    let received = SseEvent::MessageReceived {
        session_id: "a".to_string(),
        message: SseMessage { id: "m9".to_string(), seq: None, content: Json::text("c"), created_at: 77 },
    };
    match syncer.on_event(received) {
        LiveAction::Index(m) => {
            assert_eq!(m.id, "m9");
            assert_eq!(m.session_id, "a");
            assert_eq!(m.seq, 0);
            assert_eq!(m.created_at, 77);
            assert_eq!(m.content.as_str(), Some("c"));
        }
        other => panic!("unexpected action {:?}", other),
    }
    let with_seq = SseEvent::MessageReceived {
        session_id: "a".to_string(),
        message: SseMessage { id: "m10".to_string(), seq: Some(5), content: Json::Null, created_at: 78 },
    };
    assert!(matches!(syncer.on_event(with_seq), LiveAction::Index(m) if m.seq == 5));
    assert!(matches!(
        syncer.on_event(SseEvent::SessionUpdated { session_id: "a".to_string() }),
        LiveAction::RefreshSessions
    ));
    assert!(syncer.hub.get_session("a").is_some());
    assert!(matches!(
        syncer.on_event(SseEvent::SessionRemoved { session_id: "a".to_string() }),
        LiveAction::DeleteSession(id) if id == "a"
    ));
    assert!(syncer.hub.get_session("a").is_none());
    assert!(syncer.hub.get_session("b").is_some());
    assert!(matches!(syncer.on_event(SseEvent::ConnectionChanged { data: Json::Null }), LiveAction::Nothing));
    assert!(matches!(syncer.on_event(SseEvent::Unknown), LiveAction::Nothing));
}

#[test]
fn startup_runs_its_phases_in_order() {
    let first = Syncer::first_phase();
    assert_eq!(first, Phase::InitIndex);
    assert_eq!(first.next(), Phase::SeedSessions);
    assert_eq!(first.next().next(), Phase::CatchUp);
    assert_eq!(first.next().next().next(), Phase::Live);
    assert_eq!(Phase::Live.next(), Phase::Live);
}

#[test]
fn window_is_skipped_when_the_embedder_fails() {
    let hub = hub_with(vec![]);
    let messages: Vec<SyncMessage> =
        (0..3).map(|i| user_message(&format!("m{}", i), &format!("s{}", i), 1, "t")).collect();
    let window = || plan_batch(&messages, &hub.sessions).remove(0);
    assert!(window().settle(None).is_empty());
    assert_eq!(window().settle(Some(3)).len(), 3);
    assert_eq!(window().settle(Some(1)).len(), 1);
    assert_eq!(window().settle(Some(9)).len(), 3);
}

#[test]
fn engine_failure_ends_the_pass_but_not_the_stream() {
    assert_eq!(on_index_failure(SyncMode::CatchUp), FailureAction::EndPass);
    assert_eq!(on_index_failure(SyncMode::Live), FailureAction::LogAndContinue);
}
