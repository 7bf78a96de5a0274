use hapi_core::json::Json;
use hapi_core::models::{SearchHit, SearchHitSession};
use hapi_core::search::{
    compute_name_boost, fetch_limit, group_by_session, rank_groups, rank_hits, take_page,
    NameBoost, ScoreKeys, SearchService,
};

fn hit(session: &str, message: &str, score: u64) -> SearchHit {
    SearchHit {
        text: format!("text of {}", message),
        role: "assistant".to_string(),
        message_id: message.to_string(),
        seq: 1,
        created_at: 2,
        session: SearchHitSession {
            id: session.to_string(),
            name: format!("name of {}", session),
            path: "/p".to_string(),
            flavor: "f".to_string(),
            url: format!("http://h/sessions/{}", session),
        },
        score,
        semantic_score: None,
        keyword_score: None,
    }
}

/// An integer that orders as the score does.
fn key(score: f64) -> u64 {
    let bits = score.to_bits();
    if score.is_sign_negative() { !bits } else { bits | (1u64 << 63) }
}

#[test]
fn name_boost_counts_matching_tokens() {
    let boost = compute_name_boost("Vector Search Design", "vector search planning");
    assert_eq!(boost, NameBoost { matched: 2, total: 3 });
    let ratio = boost.matched as f64 / boost.total as f64;
    let name_boost = ratio * 0.02;
    assert!((name_boost - 0.0133).abs() < 0.0001);
    assert!((0.700 + name_boost - 0.7133).abs() < 0.0001);
    assert!(name_boost >= 0.0 && name_boost <= 0.02);
}

#[test]
fn name_boost_is_nothing_without_a_name_or_tokens() {
    assert_eq!(compute_name_boost("", "vector search"), NameBoost { matched: 0, total: 0 });
    assert_eq!(compute_name_boost("Name", ""), NameBoost { matched: 0, total: 0 });
    assert_eq!(compute_name_boost("Name", "a bc ,, de"), NameBoost { matched: 0, total: 0 });
}

#[test]
fn name_boost_splits_on_commas_and_ignores_short_tokens() {
    assert_eq!(compute_name_boost("alpha beta", "alpha,gamma、beta ab"), NameBoost { matched: 2, total: 3 });
    assert_eq!(compute_name_boost("alpha beta", "alpha\tbeta\nalp"), NameBoost { matched: 3, total: 3 });
}

#[test]
fn name_boost_counts_bytes_of_tokens() {
    // Two characters of three bytes each are a token; two ASCII characters are not.
    assert_eq!(compute_name_boost("設計メモ", "設計 xy"), NameBoost { matched: 1, total: 1 });
    assert_eq!(compute_name_boost("naïve", "ï é"), NameBoost { matched: 0, total: 0 });
}

#[test]
fn name_boost_lowers_the_name_only() {
    assert_eq!(compute_name_boost("VECTOR", "vector"), NameBoost { matched: 1, total: 1 });
    assert_eq!(compute_name_boost("vector", "VECTOR"), NameBoost { matched: 0, total: 1 });
    let doc = Json::parse("{\"sessionName\":\"Vector Search Design\"}").unwrap();
    assert_eq!(SearchService::name_boost(&doc, "VECTOR search Planning"), NameBoost { matched: 2, total: 3 });
}

#[test]
fn fetch_limit_is_five_times_the_limit_within_bounds() {
    assert_eq!(fetch_limit(0), 50);
    assert_eq!(fetch_limit(1), 50);
    assert_eq!(fetch_limit(10), 50);
    assert_eq!(fetch_limit(11), 55);
    assert_eq!(fetch_limit(20), 100);
    assert_eq!(fetch_limit(40), 200);
    assert_eq!(fetch_limit(41), 200);
    assert_eq!(fetch_limit(usize::MAX), 200);
}

#[test]
fn grouping_keeps_the_best_hit_and_counts_chunks() {
    let hits = vec![hit("a", "a1", 10), hit("b", "b1", 30), hit("a", "a2", 20), hit("a", "a3", 20), hit("c", "c1", 5)];
    let groups = group_by_session(hits);
    assert_eq!(groups.len(), 3);
    assert_eq!(groups[0].best_hit.session.id, "a");
    assert_eq!(groups[0].best_hit.message_id, "a2");
    assert_eq!(groups[0].chunk_count, 3);
    assert_eq!(groups[1].best_hit.message_id, "b1");
    assert_eq!(groups[1].chunk_count, 1);
    assert_eq!(groups[2].best_hit.message_id, "c1");
}

#[test]
fn ranking_orders_by_score_then_by_chunk_count() {
    let hits = vec![
        hit("a", "a1", 10),
        hit("b", "b1", 30),
        hit("c", "c1", 10),
        hit("c", "c2", 9),
        hit("d", "d1", 40),
    ];
    let ranked = rank_groups(group_by_session(hits));
    let order: Vec<&str> = ranked.iter().map(|g| g.best_hit.session.id.as_str()).collect();
    assert_eq!(order, vec!["d", "b", "c", "a"]);
    assert_eq!(ranked[2].chunk_count, 2);
}

#[test]
fn paging_skips_and_takes() {
    let hits: Vec<SearchHit> = (0..6).map(|i| hit(&format!("s{}", i), "m", 100 - i)).collect();
    let ranked = rank_groups(group_by_session(hits.clone()));
    let page: Vec<String> = take_page(ranked, 2, 3).into_iter().map(|h| h.session.id).collect();
    assert_eq!(page, vec!["s2", "s3", "s4"]);
    let ranked = rank_groups(group_by_session(hits.clone()));
    assert_eq!(take_page(ranked, 4, 10).len(), 2);
    let ranked = rank_groups(group_by_session(hits.clone()));
    assert!(take_page(ranked, 6, 10).is_empty());
    let ranked = rank_groups(group_by_session(hits.clone()));
    assert!(take_page(ranked, 100, usize::MAX).is_empty());
    let ranked = rank_groups(group_by_session(hits));
    assert!(take_page(ranked, 0, 0).is_empty());
}

#[test]
fn search_returns_one_hit_per_session_with_descending_scores() {
    let mut hits = Vec::new();
    for i in 0..50u64 {
        let score = 0.3 + ((i * 7919) % 100) as f64 / 1000.0;
        hits.push(hit(&format!("s{}", i % 9), &format!("m{}", i), key(score)));
    }
    let response = rank_hits("q", hits, 20, 0, 12);
    assert_eq!(response.query, "q");
    assert_eq!(response.total_hits, 9);
    assert_eq!(response.processing_time_ms, 12);
    assert_eq!(response.hits.len(), 9);
    for i in 0..response.hits.len() {
        for j in i + 1..response.hits.len() {
            assert_ne!(response.hits[i].session.id, response.hits[j].session.id);
            assert!(response.hits[i].score >= response.hits[j].score);
        }
    }
}

#[test]
fn search_applies_offset_and_limit_to_sessions() {
    let hits = vec![hit("a", "a1", 1), hit("b", "b1", 3), hit("c", "c1", 2), hit("b", "b2", 4)];
    let service = SearchService::new("http://hapi.example/");
    let response = service.search("q", hits, 1, 1, 0);
    assert_eq!(response.total_hits, 3);
    assert_eq!(response.hits.len(), 1);
    assert_eq!(response.hits[0].session.id, "c");
}

#[test]
fn score_keys_order_as_scores_do() {
    assert!(key(0.7133) > key(0.7));
    assert!(key(0.0) < key(0.0001));
    assert!(key(-0.5) < key(0.0));
}

#[test]
fn hit_is_built_from_the_document() {
    let service = SearchService::new("http://hapi.example//");
    assert_eq!(service.hapi_url, "http://hapi.example");
    let doc = Json::parse(
        "{\"sessionId\":\"s1\",\"sessionName\":\"N\",\"sessionPath\":\"/w\",\"sessionFlavor\":\"shell\",\"role\":\"user\",\"messageId\":\"m1\",\"seq\":4,\"createdAt\":1700000000000}",
    )
    .unwrap();
    let scores = ScoreKeys { score: 9, semantic_score: Some(8), keyword_score: None };
    let h = service.hit(&doc, "<mark>x</mark>".to_string(), scores);
    assert_eq!(h.text, "<mark>x</mark>");
    assert_eq!(h.role, "user");
    assert_eq!(h.message_id, "m1");
    assert_eq!(h.seq, 4);
    assert_eq!(h.created_at, 1700000000000);
    assert_eq!(h.session.id, "s1");
    assert_eq!(h.session.name, "N");
    assert_eq!(h.session.path, "/w");
    assert_eq!(h.session.flavor, "shell");
    assert_eq!(h.session.url, "http://hapi.example/sessions/s1");
    assert_eq!(h.score, 9);
    assert_eq!(h.semantic_score, Some(8));
    assert_eq!(h.keyword_score, None);
    let empty = service.hit(&Json::parse("{\"seq\":\"x\"}").unwrap(), String::new(), scores);
    assert_eq!(empty.session.id, "");
    assert_eq!(empty.seq, 0);
    assert_eq!(empty.session.url, "http://hapi.example/sessions/");
}
