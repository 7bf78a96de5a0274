use hapi_core::chunker::{chunk_messages, dominant_role, flatten_segments, MessageInfo, TARGET_CHUNK_CHARS};
use hapi_core::models::TextSegment;

fn seg(role: &str, text: &str) -> TextSegment {
    TextSegment { role: role.to_string(), text: text.to_string() }
}

fn msg(id: &str, seq: i64, segments: Vec<TextSegment>) -> MessageInfo {
    MessageInfo {
        message_id: id.to_string(),
        session_id: "s1".to_string(),
        seq,
        created_at: 1000 + seq,
        segments,
    }
}

fn filler(role: &str, block_chars: usize) -> String {
    "x".repeat(block_chars - role.len() - 3)
}

#[test]
fn chunker_merges_short_messages() {
    let msgs = vec![
        msg("m1", 1, vec![seg("user", "hi")]),
        msg("m2", 2, vec![seg("assistant", "hello")]),
        msg("m3", 3, vec![seg("user", "how are you")]),
    ];
    let chunks = chunk_messages(&msgs);
    assert_eq!(chunks.len(), 1);
    assert_eq!(chunks[0].message_id, "m1");
    assert_eq!(chunks[0].chunk_index, 0);
    assert_eq!(chunks[0].text, "[user] hi\n[assistant] hello\n[user] how are you");
    assert_eq!(chunks[0].role, "user");
    assert_eq!(chunks[0].session_id, "s1");
    assert_eq!(chunks[0].seq, 1);
    assert_eq!(chunks[0].created_at, 1001);
}

#[test]
fn chunker_flushes_on_overflow() {
    let a = filler("assistant", 1000);
    let b = filler("assistant", 800);
    let msgs = vec![
        msg("m1", 1, vec![seg("assistant", &a)]),
        msg("m2", 2, vec![seg("assistant", &b)]),
    ];
    let chunks = chunk_messages(&msgs);
    assert_eq!(chunks.len(), 2);
    assert_eq!(chunks[0].chunk_index, 0);
    assert_eq!(chunks[0].text.chars().count(), 1000);
    assert_eq!(chunks[0].text, format!("[assistant] {}", a));
    assert_eq!(chunks[0].message_id, "m1");
    assert_eq!(chunks[1].chunk_index, 1);
    assert_eq!(chunks[1].text.chars().count(), 800);
    assert_eq!(chunks[1].text, format!("[assistant] {}", b));
    assert_eq!(chunks[1].message_id, "m2");
    assert_eq!(chunks[1].seq, 2);
}

#[test]
fn chunker_merges_up_to_the_target_exactly() {
    let a = filler("user", 750);
    let b = filler("user", 749);
    let msgs = vec![msg("m1", 1, vec![seg("user", &a)]), msg("m2", 2, vec![seg("user", &b)])];
    let chunks = chunk_messages(&msgs);
    assert_eq!(chunks.len(), 1);
    assert_eq!(chunks[0].text.chars().count(), TARGET_CHUNK_CHARS);
}

#[test]
fn chunker_splits_one_past_the_target() {
    let a = filler("user", 750);
    let msgs = vec![msg("m1", 1, vec![seg("user", &a)]), msg("m2", 2, vec![seg("user", &a)])];
    let chunks = chunk_messages(&msgs);
    assert_eq!(chunks.len(), 2);
    assert_eq!(chunks[0].text.chars().count(), 750);
    assert_eq!(chunks[1].text.chars().count(), 750);
    assert_eq!(chunks[1].chunk_index, 1);
}

#[test]
fn chunker_keeps_an_oversized_message_whole() {
    let big = filler("assistant", 4000);
    let msgs = vec![
        msg("m1", 1, vec![seg("user", "short")]),
        msg("m2", 2, vec![seg("assistant", &big)]),
        msg("m3", 3, vec![seg("user", "after")]),
    ];
    let chunks = chunk_messages(&msgs);
    assert_eq!(chunks.len(), 3);
    assert_eq!(chunks[0].text, "[user] short");
    assert_eq!(chunks[1].text, format!("[assistant] {}", big));
    assert_eq!(chunks[1].role, "assistant");
    assert_eq!(chunks[2].text, "[user] after");
    assert_eq!(chunks[2].chunk_index, 2);
    assert_eq!(chunks[2].message_id, "m3");
}

#[test]
fn chunker_counts_characters_not_bytes() {
    let a = "é".repeat(750 - 7);
    let b = "é".repeat(749 - 7);
    let msgs = vec![msg("m1", 1, vec![seg("user", &a)]), msg("m2", 2, vec![seg("user", &b)])];
    let chunks = chunk_messages(&msgs);
    assert_eq!(chunks.len(), 1);
    assert_eq!(chunks[0].text.chars().count(), 1500);
}

#[test]
fn chunker_skips_messages_without_text() {
    let msgs = vec![
        msg("m0", 0, vec![seg("user", "   ")]),
        msg("m1", 1, vec![]),
        msg("m2", 2, vec![seg("assistant", "  answer \n")]),
        msg("m3", 3, vec![seg("tool", "\t")]),
    ];
    let chunks = chunk_messages(&msgs);
    assert_eq!(chunks.len(), 1);
    assert_eq!(chunks[0].message_id, "m2");
    assert_eq!(chunks[0].text, "[assistant] answer");
    assert_eq!(chunks[0].chunk_index, 0);
}

#[test]
fn chunker_returns_nothing_for_no_messages() {
    let chunks = chunk_messages(&[]);
    assert!(chunks.is_empty());
    let blank = vec![msg("m1", 1, vec![seg("user", " ")])];
    assert!(chunk_messages(&blank).is_empty());
}

#[test]
fn chunk_texts_are_joins_of_contiguous_messages() {
    let mut msgs = Vec::new();
    for i in 0..40 {
        let text = "w".repeat(100 + (i * 37) % 400);
        msgs.push(msg(&format!("m{}", i), i as i64, vec![seg("assistant", &text)]));
    }
    let chunks = chunk_messages(&msgs);
    let blocks: Vec<String> = msgs.iter().map(|m| flatten_segments(&m.segments)).collect();
    let mut next = 0;
    for (j, chunk) in chunks.iter().enumerate() {
        assert_eq!(chunk.chunk_index, j);
        assert_eq!(chunk.message_id, msgs[next].message_id);
        let mut end = next + 1;
        while end < blocks.len() && blocks[next..end + 1].join("\n").chars().count() <= 1500 {
            end += 1;
        }
        assert_eq!(chunk.text, blocks[next..end].join("\n"));
        next = end;
    }
    assert_eq!(next, msgs.len());
}

#[test]
fn flatten_joins_non_blank_segments() {
    let segments = vec![seg("user", " one "), seg("tool", ""), seg("assistant", "two\nlines")];
    assert_eq!(flatten_segments(&segments), "[user] one\n[assistant] two\nlines");
    assert_eq!(flatten_segments(&[]), "");
    assert_eq!(flatten_segments(&[seg("user", " \n ")]), "");
}

#[test]
fn dominant_role_prefers_the_user() {
    assert_eq!(dominant_role(&[seg("assistant", "a"), seg("user", "b")]), "user");
    assert_eq!(dominant_role(&[seg("tool", "a"), seg("assistant", "b")]), "tool");
    assert_eq!(dominant_role(&[]), "unknown");
    assert_eq!(dominant_role(&[seg("user", "")]), "user");
}
