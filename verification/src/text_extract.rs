//! Turning a message's content tree into role-tagged text segments.

use vstd::prelude::*;
use crate::json::{Json, JsonView, json_text, item_views};
use crate::models::{TextSegment, SegmentView, segment_views};
use crate::text::{
    chars_of, is_blank, is_white_space, join_lines, lemma_trimmed_empty_iff_blank, owned, str_eq,
    string_of, trimmed,
};

verus! {

/// How many characters of a tool's input, or of a tool result that is
/// neither text nor a list, are kept.
pub const TOOL_JSON_CHARS: usize = 500;

/// How many characters of a tool result are kept.
pub const TOOL_RESULT_CHARS: usize = 2000;

/// `s` cut down to about `max_chars` characters: unchanged when it is short
/// enough, else its first and last `max_chars / 2` characters with three
/// dots between them.
pub open spec fn truncated(s: Seq<char>, max_chars: nat) -> Seq<char> {
    if s.len() <= max_chars {
        s
    } else {
        let keep = (max_chars / 2) as int;
        s.take(keep) + seq!['.', '.', '.'] + s.skip(s.len() - keep)
    }
}

/// Shortens a long string, counting characters and not bytes.
pub fn truncate_str(s: &str, max_chars: usize) -> (r: String)
    ensures
        r@ == truncated(s@, max_chars as nat),
        r@.len() <= max_chars + 3,
        s@.len() <= max_chars ==> r@ == s@,
{
    let chars = chars_of(s);
    let n = chars.len();
    if n <= max_chars {
        owned(s)
    } else {
        let keep = max_chars / 2;
        let mut out: Vec<char> = Vec::new();
        let mut i: usize = 0;
        while i < keep
            invariant
                i <= keep,
                keep < n,
                n == chars.len(),
                out@ == chars@.take(i as int),
            decreases keep - i,
        {
            out.push(chars[i]);
            assert(chars@.take(i + 1) =~= chars@.take(i as int).push(chars@[i as int]));
            i += 1;
        }
        out.push('.');
        out.push('.');
        out.push('.');
        let mut j: usize = n - keep;
        while j < n
            invariant
                keep < n,
                n - keep <= j <= n,
                n == chars.len(),
                out@ == chars@.take(keep as int) + seq!['.', '.', '.'] + chars@.subrange(
                    n - keep,
                    j as int,
                ),
            decreases n - j,
        {
            out.push(chars[j]);
            assert(chars@.subrange(n - keep, j + 1) =~= chars@.subrange(n - keep, j as int).push(
                chars@[j as int],
            ));
            j += 1;
        }
        assert(chars@.subrange(n - keep, n as int) =~= chars@.skip(n - keep));
        string_of(&out)
    }
}


/// The role that a content tree names, `unknown` when it names none.
pub open spec fn role_of(content: JsonView) -> Seq<char> {
    match content.str_at("role"@) {
        Some(r) => r,
        None => "unknown"@,
    }
}

/// The segments of a user message: its `content.text`, unless that is missing or blank.
pub open spec fn user_segments(content: JsonView) -> Seq<SegmentView> {
    match content.get("content"@) {
        Some(inner) => match inner.str_at("text"@) {
            Some(text) => if trimmed(text).len() > 0 {
                seq![SegmentView { role: "user"@, text: text }]
            } else {
                Seq::empty()
            },
            None => Seq::empty(),
        },
        None => Seq::empty(),
    }
}

/// Where an assistant message keeps its blocks: `content.message.content`,
/// else `content.data`, else `content` itself when it is an array.
pub open spec fn assistant_blocks(content: JsonView) -> Option<JsonView> {
    match content.get("content"@) {
        None => None,
        Some(inner) => {
            let agent = match inner.get("message"@) {
                Some(m) => m.get("content"@),
                None => None,
            };
            if agent is Some {
                agent
            } else if inner.get("data"@) is Some {
                inner.get("data"@)
            } else if inner is Array {
                Some(inner)
            } else {
                None
            }
        },
    }
}

/// The text of the parts of a tool result that have one, joined by newlines.
pub open spec fn part_texts(parts: Seq<JsonView>) -> Seq<Seq<char>>
    decreases parts.len(),
{
    if parts.len() == 0 {
        Seq::empty()
    } else {
        let rest = part_texts(parts.drop_last());
        match parts.last().str_at("text"@) {
            Some(t) => rest.push(t),
            None => rest,
        }
    }
}

/// What a `tool_result` block says: its `content` when that is a string, the
/// texts of its parts when it is a list, and its shortened JSON text
/// otherwise; nothing when it has no `content`.
pub open spec fn tool_result_text(block: JsonView) -> Seq<char> {
    match block.get("content"@) {
        None => Seq::empty(),
        Some(JsonView::Text(s)) => s,
        Some(JsonView::Array(parts)) => join_lines(part_texts(parts)),
        Some(other) => truncated(json_text(other), TOOL_JSON_CHARS as nat),
    }
}

/// The input of a `tool_use` block as shortened JSON text; empty when it has none.
pub open spec fn tool_input_text(block: JsonView) -> Seq<char> {
    match block.get("input"@) {
        Some(input) => truncated(json_text(input), TOOL_JSON_CHARS as nat),
        None => Seq::empty(),
    }
}

/// The name of the tool of a `tool_use` block, `unknown` when it has none.
pub open spec fn tool_name(block: JsonView) -> Seq<char> {
    match block.str_at("name"@) {
        Some(n) => n,
        None => "unknown"@,
    }
}

/// The segment that one block of an assistant message yields, if any.
pub open spec fn block_segment(block: JsonView) -> Option<SegmentView> {
    let kind = block.str_or_empty("type"@);
    if kind == "text"@ {
        match block.str_at("text"@) {
            Some(t) => if trimmed(t).len() > 0 {
                Some(SegmentView { role: "assistant"@, text: t })
            } else {
                None
            },
            None => None,
        }
    } else if kind == "tool_use"@ {
        if tool_input_text(block).len() > 0 {
            Some(
                SegmentView {
                    role: "tool"@,
                    text: "Tool: "@ + tool_name(block) + " Input: "@ + tool_input_text(block),
                },
            )
        } else {
            None
        }
    } else if kind == "tool_result"@ {
        if trimmed(tool_result_text(block)).len() > 0 {
            Some(
                SegmentView {
                    role: "tool_result"@,
                    text: truncated(tool_result_text(block), TOOL_RESULT_CHARS as nat),
                },
            )
        } else {
            None
        }
    } else {
        None
    }
}

/// The segments of a list of blocks, in order.
pub open spec fn list_segments(blocks: Seq<JsonView>) -> Seq<SegmentView>
    decreases blocks.len(),
{
    if blocks.len() == 0 {
        Seq::empty()
    } else {
        let rest = list_segments(blocks.drop_last());
        match block_segment(blocks.last()) {
            Some(s) => rest.push(s),
            None => rest,
        }
    }
}

/// The segments of the blocks value of an assistant message: one segment for
/// a string that is not blank, the segments of the blocks for a list, none
/// for anything else.
pub open spec fn blocks_segments(value: JsonView) -> Seq<SegmentView> {
    match value {
        JsonView::Text(s) => if trimmed(s).len() > 0 {
            seq![SegmentView { role: "assistant"@, text: s }]
        } else {
            Seq::empty()
        },
        JsonView::Array(blocks) => list_segments(blocks),
        _ => Seq::empty(),
    }
}

/// The segments of an assistant message.
pub open spec fn assistant_segments(content: JsonView) -> Seq<SegmentView> {
    match assistant_blocks(content) {
        Some(blocks) => blocks_segments(blocks),
        None => Seq::empty(),
    }
}

/// The segments of a message: by its role for `user` and `assistant`; for
/// any other role the user reading, and the assistant reading when that
/// gives nothing.
pub open spec fn extracted(content: JsonView) -> Seq<SegmentView> {
    let role = role_of(content);
    if role == "user"@ {
        user_segments(content)
    } else if role == "assistant"@ {
        assistant_segments(content)
    } else if user_segments(content).len() > 0 {
        user_segments(content)
    } else {
        assistant_segments(content)
    }
}

fn segment(role: &str, text: String) -> (s: TextSegment)
    ensures
        s@ == (SegmentView { role: role@, text: text@ }),
{
    TextSegment { role: owned(role), text }
}

/// Extracts the searchable text segments of a message's content.
pub fn extract_text(content: &Json) -> (segments: Vec<TextSegment>)
    ensures
        segment_views(segments@) == extracted(content@),
        forall|i: int| 0 <= i < segments@.len() ==> is_sound_segment((#[trigger] segments@[i])@),
{
    let role = match content.str_at("role") {
        Some(r) => r,
        None => "unknown",
    };
    let segments = if str_eq(role, "user") {
        extract_user_text(content)
    } else if str_eq(role, "assistant") {
        extract_assistant_text(content)
    } else {
        let segments = extract_user_text(content);
        if segments.len() == 0 {
            extract_assistant_text(content)
        } else {
            segments
        }
    };
    proof {
        lemma_extracted_segments_are_sound(content@);
        assert forall|i: int| 0 <= i < segments@.len() implies is_sound_segment(
            (#[trigger] segments@[i])@,
        ) by {
            assert(segment_views(segments@)[i] == segments@[i]@);
            assert(is_sound_segment(extracted(content@)[i]));
        }
    }
    segments
}

/// The segment of a user message.
pub fn extract_user_text(content: &Json) -> (segments: Vec<TextSegment>)
    ensures
        segment_views(segments@) == user_segments(content@),
{
    let mut segments: Vec<TextSegment> = Vec::new();
    if let Some(inner) = content.get("content") {
        if let Some(text) = inner.str_at("text") {
            if !text.trim().is_empty() {
                segments.push(segment("user", owned(text)));
            }
        }
    }
    assert(segment_views(segments@) =~= user_segments(content@));
    segments
}

/// The segments of an assistant message.
pub fn extract_assistant_text(content: &Json) -> (segments: Vec<TextSegment>)
    ensures
        segment_views(segments@) == assistant_segments(content@),
{
    let mut segments: Vec<TextSegment> = Vec::new();
    let inner = match content.get("content") {
        Some(inner) => inner,
        None => {
            assert(segment_views(segments@) =~= assistant_segments(content@));
            return segments;
        },
    };
    let agent = match inner.get("message") {
        Some(m) => m.get("content"),
        None => None,
    };
    let blocks = match agent {
        Some(b) => Some(b),
        None => match inner.get("data") {
            Some(d) => Some(d),
            None => if inner.is_array() {
                Some(inner)
            } else {
                None
            },
        },
    };
    match blocks {
        Some(b) => {
            assert(assistant_blocks(content@) == Some(b@));
            extract_content_blocks(b, &mut segments);
            assert(segment_views(segments@) =~= blocks_segments(b@));
        },
        None => {
            assert(segment_views(segments@) =~= assistant_segments(content@));
        },
    }
    segments
}

/// Appends the segments of a blocks value to `segments`.
pub fn extract_content_blocks(value: &Json, segments: &mut Vec<TextSegment>)
    ensures
        segment_views(final(segments)@) == segment_views(old(segments)@) + blocks_segments(value@),
        forall|i: int|
            0 <= i < blocks_segments(value@).len() ==> is_sound_segment(
                #[trigger] blocks_segments(value@)[i],
            ),
{
    proof {
        lemma_blocks_segments_are_sound(value@);
    }
    let ghost before = segment_views(segments@);
    match value {
        Json::Text(s) => {
            if !s.as_str().trim().is_empty() {
                segments.push(segment("assistant", s.clone()));
            }
            assert(segment_views(segments@) =~= before + blocks_segments(value@));
        },
        Json::Array(blocks) => {
            let ghost views = item_views(blocks@);
            assert(value@->Array_0 =~= views);
            let mut i: usize = 0;
            while i < blocks.len()
                invariant
                    i <= blocks.len(),
                    views == item_views(blocks@),
                    segment_views(segments@) == before + list_segments(views.take(i as int)),
                decreases blocks.len() - i,
            {
                let block = &blocks[i];
                proof {
                    assert(views.take(i + 1).drop_last() =~= views.take(i as int));
                    assert(views.take(i + 1).last() == block@);
                }
                let ghost so_far = segment_views(segments@);
                match extract_block(block) {
                    Some(s) => {
                        segments.push(s);
                        assert(segment_views(segments@) =~= so_far.push(s@));
                        assert(segment_views(segments@) =~= before + list_segments(
                            views.take(i + 1),
                        ));
                    },
                    None => {},
                }
                i += 1;
            }
            assert(views.take(blocks.len() as int) =~= views);
        },
        _ => {
            assert(segment_views(segments@) =~= before + blocks_segments(value@));
        },
    }
}

/// The segment of one block of an assistant message.
pub fn extract_block(block: &Json) -> (found: Option<TextSegment>)
    ensures
        match found {
            Some(s) => block_segment(block@) == Some(s@),
            None => block_segment(block@) is None,
        },
{
    let kind = match block.str_at("type") {
        Some(k) => k,
        None => "",
    };
    proof {
        reveal_strlit("");
        assert(kind@ =~= block@.str_or_empty("type"@));
    }
    if str_eq(kind, "text") {
        match block.str_at("text") {
            Some(text) => if !text.trim().is_empty() {
                Some(segment("assistant", owned(text)))
            } else {
                None
            },
            None => None,
        }
    } else if str_eq(kind, "tool_use") {
        let name = match block.str_at("name") {
            Some(n) => n,
            None => "unknown",
        };
        let input = match block.get("input") {
            Some(i) => truncate_json(i, TOOL_JSON_CHARS),
            None => String::new(),
        };
        if !input.as_str().is_empty() {
            let mut text = owned("Tool: ");
            text.push_str(name);
            text.push_str(" Input: ");
            text.push_str(input.as_str());
            Some(segment("tool", text))
        } else {
            None
        }
    } else if str_eq(kind, "tool_result") {
        let result_text = extract_tool_result_text(block);
        if !result_text.as_str().trim().is_empty() {
            Some(segment("tool_result", truncate_str(result_text.as_str(), TOOL_RESULT_CHARS)))
        } else {
            None
        }
    } else {
        None
    }
}

/// The text of a `tool_result` block.
pub fn extract_tool_result_text(block: &Json) -> (text: String)
    ensures
        text@ == tool_result_text(block@),
{
    match block.get("content") {
        None => String::new(),
        Some(content) => match content {
            Json::Text(s) => s.clone(),
            Json::Array(parts) => {
                let ghost views = item_views(parts@);
                assert(content@->Array_0 =~= views);
                let mut out = String::new();
                let mut first = true;
                let mut i: usize = 0;
                while i < parts.len()
                    invariant
                        i <= parts.len(),
                        views == item_views(parts@),
                        first == (part_texts(views.take(i as int)).len() == 0),
                        out@ == join_lines(part_texts(views.take(i as int))),
                    decreases parts.len() - i,
                {
                    proof {
                        assert(views.take(i + 1).drop_last() =~= views.take(i as int));
                        assert(views.take(i + 1).last() == parts[i as int]@);
                    }
                    if let Some(t) = parts[i].str_at("text") {
                        let ghost so_far = part_texts(views.take(i as int));
                        if !first {
                            out.push('\n');
                        }
                        out.push_str(t);
                        proof {
                            assert(so_far.push(t@).drop_last() =~= so_far);
                            assert(out@ =~= join_lines(so_far.push(t@)));
                        }
                        first = false;
                    }
                    i += 1;
                }
                assert(views.take(parts.len() as int) =~= views);
                out
            },
            _ => truncate_json(content, TOOL_JSON_CHARS),
        },
    }
}

/// The JSON text of a value, shortened to about `max_chars` characters.
pub fn truncate_json(value: &Json, max_chars: usize) -> (r: String)
    ensures
        r@ == truncated(json_text(value@), max_chars as nat),
{
    let s = value.render();
    truncate_str(s.as_str(), max_chars)
}

/// Whether a segment is one that extraction may yield: it has one of the
/// four roles, its text is not blank, and the text of a tool result is no
/// longer than its limit and the three dots.
pub open spec fn is_sound_segment(s: SegmentView) -> bool {
    &&& s.role == "user"@ || s.role == "assistant"@ || s.role == "tool"@ || s.role
        == "tool_result"@
    &&& trimmed(s.text).len() > 0
    &&& s.role == "tool_result"@ ==> s.text.len() <= TOOL_RESULT_CHARS + 3
}

/// A shortened text is no longer than its limit and the three dots, and it
/// is not blank when the text was not.
pub proof fn lemma_truncated_is_sound(s: Seq<char>, max_chars: nat)
    ensures
        truncated(s, max_chars).len() <= max_chars + 3,
        trimmed(s).len() > 0 ==> trimmed(truncated(s, max_chars)).len() > 0,
{
    let t = truncated(s, max_chars);
    lemma_trimmed_empty_iff_blank(s);
    lemma_trimmed_empty_iff_blank(t);
    if s.len() > max_chars {
        let keep = (max_chars / 2) as int;
        assert(t[keep] == '.');
        assert(!is_white_space(t[keep]));
    }
}

/// The rendered input of a tool is no longer than its limit and the three dots.
pub proof fn lemma_tool_input_is_short(block: JsonView)
    ensures
        tool_input_text(block).len() <= TOOL_JSON_CHARS + 3,
{
    if let Some(input) = block.get("input"@) {
        lemma_truncated_is_sound(json_text(input), TOOL_JSON_CHARS as nat);
    }
}

/// Whatever a block yields is a sound segment of the assistant, a tool or
/// a tool result.
pub proof fn lemma_block_segment_is_sound(block: JsonView)
    ensures
        block_segment(block) matches Some(s) ==> is_sound_segment(s) && s.role != "user"@,
{
    reveal_strlit("user");
    reveal_strlit("assistant");
    reveal_strlit("tool");
    reveal_strlit("tool_result");
    reveal_strlit("Tool: ");
    assert("user"@[0] == 'u' && "tool"@[0] == 't');
    assert("user"@.len() == 4 && "assistant"@.len() == 9 && "tool_result"@.len() == 11);
    if let Some(s) = block_segment(block) {
        lemma_trimmed_empty_iff_blank(s.text);
        let kind = block.str_or_empty("type"@);
        if kind == "text"@ {
            assert(s.role == "assistant"@);
        } else if kind == "tool_use"@ {
            assert(s.role == "tool"@);
            assert(s.text[0] == 'T');
            assert(!is_white_space(s.text[0]));
            assert(!is_blank(s.text));
        } else {
            assert(kind == "tool_result"@);
            assert(s.role == "tool_result"@);
            lemma_truncated_is_sound(tool_result_text(block), TOOL_RESULT_CHARS as nat);
        }
    }
}

proof fn lemma_list_segments_are_sound(blocks: Seq<JsonView>)
    ensures
        forall|i: int|
            0 <= i < list_segments(blocks).len() ==> is_sound_segment(
                #[trigger] list_segments(blocks)[i],
            ),
    decreases blocks.len(),
{
    if blocks.len() > 0 {
        lemma_list_segments_are_sound(blocks.drop_last());
        lemma_block_segment_is_sound(blocks.last());
        let rest = list_segments(blocks.drop_last());
        let all = list_segments(blocks);
        assert forall|i: int| 0 <= i < all.len() implies is_sound_segment(#[trigger] all[i]) by {
            if i < rest.len() {
                assert(all[i] == rest[i]);
            }
        }
    }
}

/// Every segment of a blocks value is sound.
pub proof fn lemma_blocks_segments_are_sound(value: JsonView)
    ensures
        forall|i: int|
            0 <= i < blocks_segments(value).len() ==> is_sound_segment(
                #[trigger] blocks_segments(value)[i],
            ),
{
    reveal_strlit("user");
    reveal_strlit("assistant");
    reveal_strlit("tool_result");
    assert("user"@.len() == 4 && "assistant"@.len() == 9 && "tool_result"@.len() == 11);
    let all = blocks_segments(value);
    assert forall|i: int| 0 <= i < all.len() implies is_sound_segment(#[trigger] all[i]) by {
        match value {
            JsonView::Array(blocks) => {
                lemma_list_segments_are_sound(blocks);
                assert(is_sound_segment(list_segments(blocks)[i]));
            },
            _ => {},
        }
    }
}

/// Every segment that extraction yields is sound: blank strings are
/// always dropped.
pub proof fn lemma_extracted_segments_are_sound(content: JsonView)
    ensures
        forall|i: int|
            0 <= i < extracted(content).len() ==> is_sound_segment(#[trigger] extracted(content)[i]),
{
    reveal_strlit("user");
    reveal_strlit("assistant");
    reveal_strlit("tool_result");
    assert("user"@.len() == 4 && "assistant"@.len() == 9 && "tool_result"@.len() == 11);
    let user = user_segments(content);
    assert forall|i: int| 0 <= i < user.len() implies is_sound_segment(#[trigger] user[i]) by {}
    let assistant = assistant_segments(content);
    assert forall|i: int| 0 <= i < assistant.len() implies is_sound_segment(
        #[trigger] assistant[i],
    ) by {
        if let Some(blocks) = assistant_blocks(content) {
            lemma_blocks_segments_are_sound(blocks);
        }
    }
}

/// Extraction is a function of the content alone: two results for the same
/// content hold the same segments.
pub proof fn lemma_extraction_is_deterministic(
    content: JsonView,
    first: Seq<TextSegment>,
    second: Seq<TextSegment>,
)
    requires
        segment_views(first) == extracted(content),
        segment_views(second) == extracted(content),
    ensures
        segment_views(first) == segment_views(second),
        first.len() == second.len(),
{
    assert(segment_views(first).len() == first.len());
    assert(segment_views(second).len() == second.len());
}

} // verus!
