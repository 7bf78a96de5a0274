use hapi_core::config::{
    default_listen, default_meilisearch_url, default_ollama_model, default_ollama_url,
    default_state_db, Cli, Config, HubConfig, MeilisearchConfig, OllamaConfig, SearchConfig,
};
use hapi_core::embedder::{EmbedError, Embedder};
use hapi_core::indexer::{
    after_step, highlighted_text, read_stats, status_is_success, Indexer, Method, SetupError,
    SetupStep, CREATE_WAIT_SECS, INDEX_NAME,
};
use hapi_core::json::Json;
use hapi_core::state::{parse_i64, read_last_sync_ts, write_last_sync_ts, CURSOR_KEY, LAST_SYNC_TS_KEY};
use hapi_core::web::{default_limit, format_compact, snippet, CompactEntry, SearchQuery};

#[test]
fn config_defaults() {
    assert_eq!(default_listen(), "0.0.0.0:7600");
    assert_eq!(default_state_db(), "hapi-search-state.db");
    assert_eq!(default_meilisearch_url(), "http://localhost:7700");
    assert_eq!(default_ollama_url(), "http://localhost:11434");
    assert_eq!(default_ollama_model(), "bge-m3");
    let s = SearchConfig::default();
    assert_eq!(s.listen, "0.0.0.0:7600");
    assert_eq!(s.hapi_url, None);
    assert_eq!(s.state_db, "hapi-search-state.db");
    let m = MeilisearchConfig::default();
    assert_eq!(m.url, "http://localhost:7700");
    assert_eq!(m.api_key, None);
    let o = OllamaConfig::default();
    assert_eq!(o.url, "http://localhost:11434");
    assert_eq!(o.model, "bge-m3");
    assert_eq!(Cli::new().config, "hapi-search.toml");
}

#[test]
fn config_links_sessions_under_the_hub_by_default() {
    let mut c = Config::fallback();
    assert_eq!(c.hub.url, "http://localhost:3006");
    assert_eq!(c.hub.api_key, "");
    assert_eq!(c.hapi_url(), "http://localhost:3006");
    c.hub = HubConfig { url: "http://hub".to_string(), api_key: "k".to_string() };
    assert_eq!(c.hapi_url(), "http://hub");
    c.search.hapi_url = Some("https://public".to_string());
    assert_eq!(c.hapi_url(), "https://public");
}

#[test]
fn embedder_builds_its_request() {
    let e = Embedder::new("http://ollama:11434/", "bge-m3");
    assert_eq!(e.url, "http://ollama:11434");
    assert_eq!(e.endpoint(), "http://ollama:11434/api/embed");
    assert!(e.embed(&[]).is_none());
    let body = e.embed(&["one".to_string(), "two \"2\"".to_string()]).unwrap();
    assert_eq!(body.render(), "{\"input\":[\"one\",\"two \\\"2\\\"\"],\"model\":\"bge-m3\"}");
    assert_eq!(Embedder::embed_query(1), Ok(0));
    assert_eq!(Embedder::embed_query(3), Ok(0));
    assert_eq!(Embedder::embed_query(0), Err(EmbedError::NoEmbedding));
}

#[test]
fn indexer_requests_carry_address_and_key() {
    let with_key = Indexer::new("http://meili:7700//", Some("secret"));
    assert_eq!(with_key.base_url, "http://meili:7700");
    let r = with_key.get_stats();
    assert_eq!(r.method, Method::Get);
    assert_eq!(r.url, "http://meili:7700/indexes/hapi-messages/stats");
    assert_eq!(r.authorization.as_deref(), Some("Bearer secret"));
    assert!(r.body.is_none());
    let without = Indexer::new("http://meili:7700", None);
    assert!(without.add_documents(0).is_none());
    let add = without.add_documents(3).unwrap();
    assert_eq!(add.authorization, None);
    assert_eq!(add.url, "http://meili:7700/indexes/hapi-messages/documents");
    assert_eq!(add.method, Method::Post);
    assert!(add.body.is_none());
    assert_eq!(with_key.add_documents(1).unwrap().authorization.as_deref(), Some("Bearer secret"));
    assert_eq!(INDEX_NAME, "hapi-messages");
}

#[test]
fn indexer_setup_requests() {
    let keyed = Indexer::new("http://m", Some("k"));
    assert_eq!(keyed.enable_vector_store().authorization.as_deref(), Some("Bearer k"));
    assert_eq!(keyed.create_index().authorization.as_deref(), Some("Bearer k"));
    assert_eq!(keyed.configure().authorization.as_deref(), Some("Bearer k"));
    assert_eq!(keyed.delete_session_documents("s").authorization.as_deref(), Some("Bearer k"));
    assert_eq!(keyed.search("q", 1, 0).authorization.as_deref(), Some("Bearer k"));
    let i = Indexer::new("http://m", None);
    assert_eq!(i.search("q", 1, 0).authorization, None);
    let v = i.enable_vector_store();
    assert_eq!(v.method, Method::Patch);
    assert_eq!(v.url, "http://m/experimental-features");
    assert_eq!(v.body.unwrap().render(), "{\"vectorStore\":true}");
    let c = i.create_index();
    assert_eq!(c.method, Method::Post);
    assert_eq!(c.url, "http://m/indexes");
    assert_eq!(c.body.unwrap().render(), "{\"primaryKey\":\"id\",\"uid\":\"hapi-messages\"}");
    let s = i.configure();
    assert_eq!(s.method, Method::Patch);
    assert_eq!(s.url, "http://m/indexes/hapi-messages/settings");
    assert_eq!(
        s.body.unwrap().render(),
        "{\"embedders\":{\"bge\":{\"dimensions\":1024,\"source\":\"userProvided\"}},\"filterableAttributes\":[\"sessionId\",\"role\",\"sessionFlavor\"],\"localizedAttributes\":[{\"attributePatterns\":[\"text\",\"sessionName\",\"sessionPath\"],\"locales\":[\"cmn\",\"eng\"]}],\"searchableAttributes\":[\"text\",\"sessionName\",\"sessionPath\"],\"sortableAttributes\":[\"createdAt\"]}"
    );
}

#[test]
fn indexer_delete_and_search_requests() {
    let i = Indexer::new("http://m", None);
    let d = i.delete_session_documents("s-1");
    assert_eq!(d.method, Method::Post);
    assert_eq!(d.url, "http://m/indexes/hapi-messages/documents/delete");
    assert_eq!(d.body.unwrap().render(), "{\"filter\":\"sessionId = \\\"s-1\\\"\"}");
    let s = i.search("how to", 50, 0);
    assert_eq!(s.method, Method::Post);
    assert_eq!(s.url, "http://m/indexes/hapi-messages/search");
    assert_eq!(
        s.body.unwrap().render(),
        "{\"attributesToHighlight\":[\"text\"],\"highlightPostTag\":\"</mark>\",\"highlightPreTag\":\"<mark>\",\"hybrid\":{\"embedder\":\"bge\",\"semanticRatio\":0.9},\"limit\":50,\"offset\":0,\"q\":\"how to\",\"showRankingScore\":true,\"showRankingScoreDetails\":true}"
    );
}

#[test]
fn indexer_setup_goes_through_its_steps() {
    assert_eq!(CREATE_WAIT_SECS, 1);
    assert!(matches!(after_step(SetupStep::EnableVectorStore, 200, ""), Ok(SetupStep::CreateIndex)));
    assert!(matches!(after_step(SetupStep::CreateIndex, 202, ""), Ok(SetupStep::WaitForIndex)));
    assert!(matches!(after_step(SetupStep::CreateIndex, 200, ""), Ok(SetupStep::WaitForIndex)));
    assert!(matches!(
        after_step(SetupStep::CreateIndex, 409, "{\"code\":\"index_already_exists\"}"),
        Ok(SetupStep::WaitForIndex)
    ));
    assert!(matches!(after_step(SetupStep::WaitForIndex, 0, ""), Ok(SetupStep::Configure)));
    assert!(matches!(after_step(SetupStep::Configure, 202, ""), Ok(SetupStep::Done)));
    assert!(matches!(after_step(SetupStep::Done, 500, "x"), Ok(SetupStep::Done)));
}

#[test]
fn indexer_setup_reports_refusals() {
    assert!(matches!(
        after_step(SetupStep::EnableVectorStore, 403, "no"),
        Err(SetupError::VectorStoreRefused(b)) if b == "no"
    ));
    assert!(matches!(
        after_step(SetupStep::CreateIndex, 400, "bad"),
        Err(SetupError::CreateRefused { status: 400, body }) if body == "bad"
    ));
    assert!(matches!(
        after_step(SetupStep::CreateIndex, 201, "created"),
        Err(SetupError::CreateRefused { status: 201, .. })
    ));
    assert!(matches!(
        after_step(SetupStep::Configure, 500, "broken"),
        Err(SetupError::SettingsRefused(b)) if b == "broken"
    ));
    assert!(status_is_success(200) && status_is_success(299) && status_is_success(202));
    assert!(!status_is_success(199) && !status_is_success(300) && !status_is_success(404));
}

#[test]
fn indexer_reads_answers() {
    let formatted = Json::parse("{\"text\":\"a <mark>b</mark>\"}").unwrap();
    assert_eq!(highlighted_text(Some(&formatted)), "a <mark>b</mark>");
    assert_eq!(highlighted_text(Some(&Json::parse("{\"text\":1}").unwrap())), "");
    assert_eq!(highlighted_text(None), "");
    let stats = Json::parse("{\"numberOfDocuments\":1234,\"isIndexing\":false}").unwrap();
    assert_eq!(read_stats(200, Some(&stats)).number_of_documents, 1234);
    assert_eq!(read_stats(500, Some(&stats)).number_of_documents, 0);
    assert_eq!(read_stats(200, None).number_of_documents, 0);
    assert_eq!(read_stats(200, Some(&Json::parse("{\"numberOfDocuments\":-1}").unwrap())).number_of_documents, 0);
    assert_eq!(read_stats(200, Some(&Json::parse("{}").unwrap())).number_of_documents, 0);
}

#[test]
fn sync_state_reads_and_writes_times() {
    assert_eq!(CURSOR_KEY, "messages_cursor");
    assert_eq!(LAST_SYNC_TS_KEY, "last_sync_ts");
    assert_eq!(read_last_sync_ts(None), 0);
    assert_eq!(read_last_sync_ts(Some("1700000000000")), 1700000000000);
    assert_eq!(read_last_sync_ts(Some("-12")), -12);
    assert_eq!(read_last_sync_ts(Some("+7")), 7);
    assert_eq!(read_last_sync_ts(Some("")), 0);
    assert_eq!(read_last_sync_ts(Some("12a")), 0);
    assert_eq!(read_last_sync_ts(Some(" 12")), 0);
    assert_eq!(read_last_sync_ts(Some("9223372036854775808")), 0);
    assert_eq!(write_last_sync_ts(0), "0");
    assert_eq!(write_last_sync_ts(1700000000000), "1700000000000");
    assert_eq!(write_last_sync_ts(-45), "-45");
    for ts in [0, 1, -1, 10, 99, 100, i64::MAX, i64::MIN, 1700000000123] {
        assert_eq!(read_last_sync_ts(Some(&write_last_sync_ts(ts))), ts);
        assert_eq!(write_last_sync_ts(ts), ts.to_string());
    }
}

#[test]
fn integers_are_read_as_the_standard_library_reads_them() {
    for text in ["0", "-0", "+0", "007", "-", "+", "", "1-", "--1", "+-1", "1.0", "9223372036854775807",
        "-9223372036854775808", "-9223372036854775809", "18446744073709551616", "٣"] {
        assert_eq!(parse_i64(text), text.parse::<i64>().ok(), "{:?}", text);
    }
}

#[test]
fn search_query_limits() {
    assert_eq!(default_limit(), 20);
    let mut q = SearchQuery::new("words".to_string());
    assert_eq!(q.q, "words");
    assert_eq!(q.limit, 20);
    assert_eq!(q.offset, 0);
    assert_eq!(q.effective_limit(), 20);
    assert!(!q.is_compact());
    q.limit = 100;
    assert_eq!(q.effective_limit(), 100);
    q.limit = 101;
    assert_eq!(q.effective_limit(), 100);
    q.format = Some("compact".to_string());
    assert!(q.is_compact());
    q.format = Some("json".to_string());
    assert!(!q.is_compact());
}

#[test]
fn snippet_strips_marks_and_line_breaks() {
    assert_eq!(snippet("a <mark>b</mark> c"), "a b c");
    assert_eq!(snippet("line one\nline two\r\nend"), "line oneline twoend");
    assert_eq!(snippet("<mar<mark>k>x"), "<mark>x");
    assert_eq!(snippet("<<mark>/mark>y"), "y");
    assert_eq!(snippet("<mark"), "<mark");
    assert_eq!(snippet(""), "");
    let long = "é".repeat(200);
    assert_eq!(snippet(&long), "é".repeat(80));
    let broken = format!("{}\n{}", "a".repeat(79), "b".repeat(10));
    assert_eq!(snippet(&broken), format!("{}b", "a".repeat(79)));
    let marked = "<mark>x</mark>".repeat(100);
    assert_eq!(snippet(&marked), "x".repeat(80));
}

#[test]
fn compact_table_lists_hits() {
    assert_eq!(format_compact(&[]), "No results found.\n");
    let entries = vec![
        CompactEntry {
            session_name: "Design".to_string(),
            semantic_score: Some("0.812".to_string()),
            keyword_score: None,
            text: "about <mark>vector</mark>\nsearch".to_string(),
            url: "http://hapi/sessions/s1".to_string(),
        },
        CompactEntry {
            session_name: String::new(),
            semantic_score: None,
            keyword_score: Some("1.000".to_string()),
            text: "second".to_string(),
            url: "http://hapi/sessions/s2".to_string(),
        },
    ];
    assert_eq!(
        format_compact(&entries),
        "1. [Design] (sem=0.812 kw=-) about vectorsearch\n   http://hapi/sessions/s1\n2. [] (sem=- kw=1.000) second\n   http://hapi/sessions/s2\n"
    );
}
