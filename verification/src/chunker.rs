//! Merging one session's messages into embedding-sized chunks.
//!
//! A message is never split. Adjacent short messages are merged until adding
//! the next one would pass [`TARGET_CHUNK_CHARS`]; a message that is longer
//! than the target on its own becomes a chunk of its own.

use vstd::prelude::*;
use crate::models::{TextSegment, SegmentView, segment_views, TextChunk, ChunkView, chunk_views};
use crate::text::{
    is_blank, join_lines, lemma_join_push, lemma_trimmed_empty_iff_blank, owned, str_eq, trimmed,
};

verus! {

/// The length, in characters, that a merged chunk may not pass.
pub const TARGET_CHUNK_CHARS: usize = 1500;

/// A message that is ready for chunking.
pub struct MessageInfo {
    pub message_id: String,
    pub session_id: String,
    pub seq: i64,
    pub created_at: i64,
    pub segments: Vec<TextSegment>,
}

/// What a [`MessageInfo`] holds, as mathematical values.
pub struct MessageView {
    pub message_id: Seq<char>,
    pub session_id: Seq<char>,
    pub seq: int,
    pub created_at: int,
    pub segments: Seq<SegmentView>,
}

impl View for MessageInfo {
    type V = MessageView;

    open spec fn view(&self) -> MessageView {
        MessageView {
            message_id: self.message_id@,
            session_id: self.session_id@,
            seq: self.seq as int,
            created_at: self.created_at as int,
            segments: segment_views(self.segments@),
        }
    }
}

/// The views of a run of messages.
pub open spec fn message_views(msgs: Seq<MessageInfo>) -> Seq<MessageView> {
    msgs.map_values(|m: MessageInfo| m@)
}

/// The line that stands for one segment: its role in brackets, then its trimmed text.
pub open spec fn segment_line(seg: SegmentView) -> Seq<char> {
    seq!['['] + seg.role + seq![']', ' '] + trimmed(seg.text)
}

/// The lines of the segments whose text is not blank, in order.
pub open spec fn segment_lines(segs: Seq<SegmentView>) -> Seq<Seq<char>>
    decreases segs.len(),
{
    if segs.len() == 0 {
        Seq::empty()
    } else {
        let rest = segment_lines(segs.drop_last());
        if trimmed(segs.last().text).len() > 0 {
            rest.push(segment_line(segs.last()))
        } else {
            rest
        }
    }
}

/// The text block of a message: one line per non-blank segment.
pub open spec fn flattened(segs: Seq<SegmentView>) -> Seq<char> {
    join_lines(segment_lines(segs))
}

/// The role of a message as a whole: `user` if any segment is the user's,
/// else the first segment's role, else `unknown`.
pub open spec fn dominant(segs: Seq<SegmentView>) -> Seq<char> {
    if exists|i: int| 0 <= i < segs.len() && (#[trigger] segs[i]).role == "user"@ {
        "user"@
    } else if segs.len() > 0 {
        segs[0].role
    } else {
        "unknown"@
    }
}

/// The chunk that a message opens when it is the first of chunk number `index`.
pub open spec fn opened_by(m: MessageView, index: nat) -> ChunkView {
    ChunkView {
        message_id: m.message_id,
        session_id: m.session_id,
        seq: m.seq,
        created_at: m.created_at,
        role: dominant(m.segments),
        text: flattened(m.segments),
        chunk_index: index,
    }
}

/// The chunk `c` after one more text block has been merged into it.
pub open spec fn merged_with(c: ChunkView, block: Seq<char>) -> ChunkView {
    ChunkView { text: c.text + seq!['\n'] + block, ..c }
}

/// Whether merging `block` into a chunk whose text is `text` would pass the target.
pub open spec fn overflows(text: Seq<char>, block: Seq<char>) -> bool {
    text.len() + 1 + block.len() > TARGET_CHUNK_CHARS
}

/// The state of the chunker after it has read `msgs`: the chunks that are
/// closed, and the chunk that is still growing, if a message has opened one.
pub open spec fn chunk_state(msgs: Seq<MessageView>) -> (Seq<ChunkView>, Option<ChunkView>)
    decreases msgs.len(),
{
    if msgs.len() == 0 {
        (Seq::empty(), None)
    } else {
        let (closed, growing) = chunk_state(msgs.drop_last());
        let m = msgs.last();
        let block = flattened(m.segments);
        if block.len() == 0 {
            (closed, growing)
        } else {
            match growing {
                None => (closed, Some(opened_by(m, closed.len()))),
                Some(c) => if overflows(c.text, block) {
                    (closed.push(c), Some(opened_by(m, closed.len() + 1)))
                } else {
                    (closed, Some(merged_with(c, block)))
                },
            }
        }
    }
}

/// The chunks of a session's messages.
pub open spec fn chunked(msgs: Seq<MessageView>) -> Seq<ChunkView> {
    let (closed, growing) = chunk_state(msgs);
    match growing {
        None => closed,
        Some(c) => closed.push(c),
    }
}

/// Flattens the segments of a message into one text block with role prefixes.
pub fn flatten_segments(segments: &[TextSegment]) -> (block: String)
    ensures
        block@ == flattened(segment_views(segments@)),
{
    let ghost views = segment_views(segments@);
    let mut block = String::new();
    let mut first = true;
    let mut i: usize = 0;
    while i < segments.len()
        invariant
            i <= segments.len(),
            views == segment_views(segments@),
            first == (segment_lines(views.take(i as int)).len() == 0),
            block@ == join_lines(segment_lines(views.take(i as int))),
        decreases segments.len() - i,
    {
        let seg = &segments[i];
        let text = seg.text.as_str().trim();
        proof {
            assert(views.take(i + 1).drop_last() =~= views.take(i as int));
            assert(views.take(i + 1).last() == seg@);
        }
        if !text.is_empty() {
            let ghost before = segment_lines(views.take(i as int));
            if !first {
                block.push('\n');
            }
            block.push('[');
            block.push_str(seg.role.as_str());
            block.push(']');
            block.push(' ');
            block.push_str(text);
            proof {
                let after = before.push(segment_line(seg@));
                assert(after.drop_last() =~= before);
                assert(block@ =~= join_lines(after));
            }
            first = false;
        }
        i += 1;
    }
    assert(views.take(segments.len() as int) =~= views);
    block
}

/// Picks the role that stands for a whole message.
pub fn dominant_role(segments: &[TextSegment]) -> (role: String)
    ensures
        role@ == dominant(segment_views(segments@)),
{
    let ghost views = segment_views(segments@);
    let mut i: usize = 0;
    while i < segments.len()
        invariant
            i <= segments.len(),
            views == segment_views(segments@),
            forall|j: int| 0 <= j < i ==> (#[trigger] views[j]).role != "user"@,
        decreases segments.len() - i,
    {
        if str_eq(segments[i].role.as_str(), "user") {
            assert(views[i as int].role == "user"@);
            return owned("user");
        }
        i += 1;
    }
    if segments.len() > 0 {
        assert(views[0].role == segments@[0].role@);
        segments[0].role.clone()
    } else {
        owned("unknown")
    }
}

/// Merges adjacent messages of one session into chunks.
///
/// Messages whose text block is empty are skipped. Each chunk carries the
/// identity of the first message that went into it, and chunks are numbered
/// from zero in the order in which they were opened.
pub fn chunk_messages(messages: &[MessageInfo]) -> (chunks: Vec<TextChunk>)
    ensures
        chunk_views(chunks@) == chunked(message_views(messages@)),
        exists|starts: Seq<int>|
            covers(message_views(messages@), chunk_views(chunks@), starts) && greedy(
                message_views(messages@),
                chunk_views(chunks@),
                starts,
            ),
{
    let ghost views = message_views(messages@);
    let mut chunks: Vec<TextChunk> = Vec::new();
    let mut chunk_index: usize = 0;
    let mut growing: Option<TextChunk> = None;
    let mut i: usize = 0;
    while i < messages.len()
        invariant
            i <= messages.len(),
            chunk_index == chunks.len(),
            chunks.len() <= i,
            views == message_views(messages@),
            chunk_views(chunks@) == chunk_state(views.take(i as int)).0,
            match growing {
                Some(c) => chunk_state(views.take(i as int)).1 == Some(c@),
                None => chunk_state(views.take(i as int)).1 is None,
            },
        decreases messages.len() - i,
    {
        let msg = &messages[i];
        proof {
            assert(views.take(i + 1).drop_last() =~= views.take(i as int));
            assert(views.take(i + 1).last() == msg@);
        }
        let block = flatten_segments(msg.segments.as_slice());
        let block_chars = block.as_str().unicode_len();
        if block_chars > 0 {
            match growing {
                None => {
                    growing = Some(open_chunk(msg, block, chunk_index));
                },
                Some(mut c) => {
                    let text_chars = c.text.as_str().unicode_len();
                    if text_chars >= TARGET_CHUNK_CHARS || block_chars > TARGET_CHUNK_CHARS - 1
                        - text_chars {
                        let ghost before = chunk_views(chunks@);
                        chunks.push(c);
                        assert(chunk_views(chunks@) =~= before.push(c@));
                        chunk_index += 1;
                        growing = Some(open_chunk(msg, block, chunk_index));
                    } else {
                        let ghost before = c@;
                        c.text.push('\n');
                        c.text.push_str(block.as_str());
                        assert(c@.text =~= before.text + seq!['\n'] + block@);
                        assert(c@ == merged_with(before, block@));
                        growing = Some(c);
                    }
                },
            }
        }
        i += 1;
    }
    assert(views.take(messages.len() as int) =~= views);
    match growing {
        None => {},
        Some(c) => {
            let ghost before = chunk_views(chunks@);
            chunks.push(c);
            assert(chunk_views(chunks@) =~= before.push(c@));
        },
    }
    proof {
        lemma_chunks_fill_the_target(views);
    }
    chunks
}

fn open_chunk(msg: &MessageInfo, block: String, index: usize) -> (c: TextChunk)
    requires
        block@ == flattened(msg@.segments),
    ensures
        c@ == opened_by(msg@, index as nat),
{
    TextChunk {
        message_id: msg.message_id.clone(),
        session_id: msg.session_id.clone(),
        seq: msg.seq,
        created_at: msg.created_at,
        role: dominant_role(msg.segments.as_slice()),
        text: block,
        chunk_index: index,
    }
}


/// The text blocks of the messages that have one, in order.
pub open spec fn message_blocks(msgs: Seq<MessageView>) -> Seq<Seq<char>>
    decreases msgs.len(),
{
    if msgs.len() == 0 {
        Seq::empty()
    } else {
        let rest = message_blocks(msgs.drop_last());
        let block = flattened(msgs.last().segments);
        if block.len() > 0 {
            rest.push(block)
        } else {
            rest
        }
    }
}

/// Where the range of chunk `j` ends: at the start of the next chunk, or at
/// the end of the input for the last one.
pub open spec fn range_end(starts: Seq<int>, j: int, len: int) -> int {
    if j + 1 < starts.len() {
        starts[j + 1]
    } else {
        len
    }
}

/// Chunk number `j` is exactly the messages `lo..hi`: it carries the identity
/// of message `lo`, which has a text block, and its text is the text blocks
/// of that range joined by newlines.
pub open spec fn chunk_spans(msgs: Seq<MessageView>, c: ChunkView, j: int, lo: int, hi: int) -> bool {
    &&& 0 <= lo < hi <= msgs.len()
    &&& flattened(msgs[lo].segments).len() > 0
    &&& message_blocks(msgs.subrange(lo, hi)).len() > 0
    &&& c == ChunkView {
        text: join_lines(message_blocks(msgs.subrange(lo, hi))),
        ..opened_by(msgs[lo], j as nat)
    }
}

/// The chunks tile the input: chunk `j` spans the messages from `starts[j]`
/// up to the start of the next chunk, and no message before the first chunk
/// has a text block.
pub open spec fn covers(msgs: Seq<MessageView>, chunks: Seq<ChunkView>, starts: Seq<int>) -> bool {
    &&& starts.len() == chunks.len()
    &&& forall|j: int|
        0 <= j < chunks.len() ==> chunk_spans(
            msgs,
            #[trigger] chunks[j],
            j,
            starts[j],
            range_end(starts, j, msgs.len() as int),
        )
    &&& forall|k: int|
        0 <= k < (if starts.len() > 0 {
            starts[0]
        } else {
            msgs.len() as int
        }) ==> flattened((#[trigger] msgs[k]).segments).len() == 0
}

/// The index of the message that opens each chunk.
pub open spec fn chunk_starts(msgs: Seq<MessageView>) -> Seq<int>
    decreases msgs.len(),
{
    if msgs.len() == 0 {
        Seq::empty()
    } else {
        let rest = chunk_starts(msgs.drop_last());
        let block = flattened(msgs.last().segments);
        if block.len() == 0 {
            rest
        } else {
            match chunk_state(msgs.drop_last()).1 {
                None => rest.push(msgs.len() - 1),
                Some(c) => if overflows(c.text, block) {
                    rest.push(msgs.len() - 1)
                } else {
                    rest
                },
            }
        }
    }
}

proof fn lemma_blocks_of_extended_range(msgs: Seq<MessageView>, lo: int)
    requires
        0 <= lo < msgs.len(),
    ensures
        message_blocks(msgs.subrange(lo, msgs.len() as int)) == ({
            let rest = message_blocks(msgs.drop_last().subrange(lo, msgs.len() - 1));
            let block = flattened(msgs.last().segments);
            if block.len() > 0 {
                rest.push(block)
            } else {
                rest
            }
        }),
{
    let r = msgs.subrange(lo, msgs.len() as int);
    assert(r.drop_last() =~= msgs.drop_last().subrange(lo, msgs.len() - 1));
    assert(r.last() == msgs.last());
}

proof fn lemma_starts_cover(msgs: Seq<MessageView>)
    ensures
        covers(msgs, chunked(msgs), chunk_starts(msgs)),
        chunk_state(msgs).1 is None ==> chunk_state(msgs).0.len() == 0,
    decreases msgs.len(),
{
    if msgs.len() > 0 {
        let prev = msgs.drop_last();
        lemma_starts_cover(prev);
        let n = prev.len() as int;
        let m = msgs.last();
        let block = flattened(m.segments);
        let (closed, growing) = chunk_state(prev);
        let old_chunks = chunked(prev);
        let old_starts = chunk_starts(prev);
        let chunks = chunked(msgs);
        let starts = chunk_starts(msgs);
        assert forall|k: int|
            0 <= k < (if starts.len() > 0 {
                starts[0]
            } else {
                msgs.len() as int
            }) implies flattened((#[trigger] msgs[k]).segments).len() == 0 by {
            if old_starts.len() > 0 {
                assert(chunk_spans(prev, old_chunks[0], 0, old_starts[0], range_end(old_starts, 0, n)));
                assert(starts[0] == old_starts[0]);
            }
            if k < n {
                assert(prev[k] == msgs[k]);
            }
        }
        assert forall|lo: int, hi: int| 0 <= lo <= hi <= n implies #[trigger] msgs.subrange(lo, hi)
            == prev.subrange(lo, hi) by {
            assert(msgs.subrange(lo, hi) =~= prev.subrange(lo, hi));
        }
        if block.len() == 0 {
            assert(chunks == old_chunks);
            assert(starts == old_starts);
            assert forall|j: int| 0 <= j < chunks.len() implies chunk_spans(
                msgs,
                #[trigger] chunks[j],
                j,
                starts[j],
                range_end(starts, j, msgs.len() as int),
            ) by {
                assert(chunk_spans(prev, old_chunks[j], j, old_starts[j], range_end(old_starts, j, n)));
                if j + 1 == starts.len() {
                    lemma_blocks_of_extended_range(msgs, starts[j]);
                }
            }
            assert(covers(msgs, chunks, starts));
        } else {
            match growing {
                None => {
                    assert(old_chunks.len() == 0);
                    assert(starts =~= seq![n]);
                    assert(chunks =~= seq![opened_by(m, 0)]);
                    lemma_blocks_of_extended_range(msgs, n);
                    assert(prev.subrange(n, n) =~= Seq::<MessageView>::empty());
                    assert(message_blocks(msgs.subrange(n, n + 1)) =~= seq![block]);
                    assert(chunk_spans(msgs, chunks[0], 0, n, n + 1));
                    assert(covers(msgs, chunks, starts));
                },
                Some(c) => {
                    assert(old_chunks == closed.push(c));
                    if overflows(c.text, block) {
                        let fresh = opened_by(m, (closed.len() + 1) as nat);
                        assert(chunks =~= old_chunks.push(fresh));
                        assert(starts == old_starts.push(n));
                        lemma_blocks_of_extended_range(msgs, n);
                        assert(prev.subrange(n, n) =~= Seq::<MessageView>::empty());
                        assert(message_blocks(msgs.subrange(n, n + 1)) =~= seq![block]);
                        assert forall|j: int| 0 <= j < chunks.len() implies chunk_spans(
                            msgs,
                            #[trigger] chunks[j],
                            j,
                            starts[j],
                            range_end(starts, j, msgs.len() as int),
                        ) by {
                            if j < old_chunks.len() {
                                assert(chunk_spans(
                                    prev,
                                    old_chunks[j],
                                    j,
                                    old_starts[j],
                                    range_end(old_starts, j, n),
                                ));
                                assert(range_end(starts, j, msgs.len() as int) == range_end(
                                    old_starts,
                                    j,
                                    n,
                                ));
                            }
                        }
                        assert(covers(msgs, chunks, starts));
                    } else {
                        let last = closed.len() as int;
                        assert(chunks =~= old_chunks.update(last, merged_with(c, block)));
                        assert(starts == old_starts);
                        assert forall|j: int| 0 <= j < chunks.len() implies chunk_spans(
                            msgs,
                            #[trigger] chunks[j],
                            j,
                            starts[j],
                            range_end(starts, j, msgs.len() as int),
                        ) by {
                            assert(chunk_spans(
                                prev,
                                old_chunks[j],
                                j,
                                old_starts[j],
                                range_end(old_starts, j, n),
                            ));
                            if j == last {
                                lemma_blocks_of_extended_range(msgs, starts[j]);
                                lemma_join_push(message_blocks(prev.subrange(starts[j], n)), block);
                            }
                        }
                        assert(covers(msgs, chunks, starts));
                    }
                },
            }
        }
    }
}

/// Whether the chunks are as long as the target lets them be: a chunk of
/// more than one text block does not pass the target, and no chunk could
/// have taken the text block that opens the next one.
pub open spec fn greedy(msgs: Seq<MessageView>, chunks: Seq<ChunkView>, starts: Seq<int>) -> bool {
    &&& starts.len() == chunks.len()
    &&& forall|j: int|
        0 <= j < chunks.len() ==> (#[trigger] chunks[j]).text.len() <= TARGET_CHUNK_CHARS
            || message_blocks(
            msgs.subrange(starts[j], range_end(starts, j, msgs.len() as int)),
        ).len() == 1
    &&& forall|j: int|
        0 <= j < chunks.len() - 1 ==> 0 <= starts[j + 1] < msgs.len() && overflows(
            (#[trigger] chunks[j]).text,
            flattened(msgs[starts[j + 1]].segments),
        )
}

proof fn lemma_starts_are_greedy(msgs: Seq<MessageView>)
    ensures
        greedy(msgs, chunked(msgs), chunk_starts(msgs)),
    decreases msgs.len(),
{
    lemma_starts_cover(msgs);
    if msgs.len() > 0 {
        let prev = msgs.drop_last();
        lemma_starts_are_greedy(prev);
        lemma_starts_cover(prev);
        let n = prev.len() as int;
        let m = msgs.last();
        let block = flattened(m.segments);
        let (closed, growing) = chunk_state(prev);
        let old_chunks = chunked(prev);
        let old_starts = chunk_starts(prev);
        let chunks = chunked(msgs);
        let starts = chunk_starts(msgs);
        assert forall|lo: int, hi: int| 0 <= lo <= hi <= n implies #[trigger] msgs.subrange(lo, hi)
            == prev.subrange(lo, hi) by {
            assert(msgs.subrange(lo, hi) =~= prev.subrange(lo, hi));
        }
        assert forall|j: int| 0 <= j < old_chunks.len() implies 0 <= #[trigger] old_starts[j] < n
            && range_end(old_starts, j, n) <= n by {
            assert(chunk_spans(prev, old_chunks[j], j, old_starts[j], range_end(old_starts, j, n)));
        }
        if block.len() == 0 {
            assert forall|j: int| 0 <= j < chunks.len() implies (#[trigger] chunks[j]).text.len()
                <= TARGET_CHUNK_CHARS || message_blocks(
                msgs.subrange(starts[j], range_end(starts, j, msgs.len() as int)),
            ).len() == 1 by {
                assert(chunks[j] == old_chunks[j]);
                assert(0 <= old_starts[j] < n);
                if j + 1 == starts.len() {
                    lemma_blocks_of_extended_range(msgs, starts[j]);
                }
            }
            assert forall|j: int| 0 <= j < chunks.len() - 1 implies 0 <= starts[j + 1] < msgs.len()
                && overflows((#[trigger] chunks[j]).text, flattened(msgs[starts[j + 1]].segments)) by {
                assert(chunks[j] == old_chunks[j]);
                assert(0 <= old_starts[j + 1] < n);
                assert(msgs[old_starts[j + 1]] == prev[old_starts[j + 1]]);
            }
        } else {
            match growing {
                None => {
                    assert(old_chunks.len() == 0);
                    assert(starts =~= seq![n]);
                    assert(chunks =~= seq![opened_by(m, 0)]);
                    lemma_blocks_of_extended_range(msgs, n);
                    assert(prev.subrange(n, n) =~= Seq::<MessageView>::empty());
                    assert(message_blocks(msgs.subrange(n, n + 1)) =~= seq![block]);
                },
                Some(c) => {
                    assert(old_chunks == closed.push(c));
                    let last = closed.len() as int;
                    if overflows(c.text, block) {
                        let fresh = opened_by(m, (closed.len() + 1) as nat);
                        assert(chunks =~= old_chunks.push(fresh));
                        assert(starts == old_starts.push(n));
                        lemma_blocks_of_extended_range(msgs, n);
                        assert(prev.subrange(n, n) =~= Seq::<MessageView>::empty());
                        assert(message_blocks(msgs.subrange(n, n + 1)) =~= seq![block]);
                        assert forall|j: int| 0 <= j < chunks.len() implies (
                        #[trigger] chunks[j]).text.len() <= TARGET_CHUNK_CHARS || message_blocks(
                            msgs.subrange(starts[j], range_end(starts, j, msgs.len() as int)),
                        ).len() == 1 by {
                            if j < old_chunks.len() {
                                assert(chunks[j] == old_chunks[j]);
                                assert(0 <= old_starts[j] < n);
                                assert(range_end(starts, j, msgs.len() as int) == range_end(
                                    old_starts,
                                    j,
                                    n,
                                ));
                            }
                        }
                        assert forall|j: int| 0 <= j < chunks.len() - 1 implies 0 <= starts[j + 1]
                            < msgs.len() && overflows(
                            (#[trigger] chunks[j]).text,
                            flattened(msgs[starts[j + 1]].segments),
                        ) by {
                            assert(chunks[j] == old_chunks[j]);
                            if j < last {
                                assert(0 <= old_starts[j + 1] < n);
                                assert(msgs[old_starts[j + 1]] == prev[old_starts[j + 1]]);
                            } else {
                                assert(chunks[j] == c);
                                assert(starts[j + 1] == n);
                            }
                        }
                    } else {
                        assert(chunks =~= old_chunks.update(last, merged_with(c, block)));
                        assert(starts == old_starts);
                        assert forall|j: int| 0 <= j < chunks.len() implies (
                        #[trigger] chunks[j]).text.len() <= TARGET_CHUNK_CHARS || message_blocks(
                            msgs.subrange(starts[j], range_end(starts, j, msgs.len() as int)),
                        ).len() == 1 by {
                            if j < last {
                                assert(chunks[j] == old_chunks[j]);
                                assert(0 <= old_starts[j] < n);
                            }
                        }
                        assert forall|j: int| 0 <= j < chunks.len() - 1 implies 0 <= starts[j + 1]
                            < msgs.len() && overflows(
                            (#[trigger] chunks[j]).text,
                            flattened(msgs[starts[j + 1]].segments),
                        ) by {
                            assert(chunks[j] == old_chunks[j]);
                            assert(0 <= old_starts[j + 1] < n);
                            assert(msgs[old_starts[j + 1]] == prev[old_starts[j + 1]]);
                        }
                    }
                },
            }
        }
    }
}

/// Every chunk is a contiguous run of messages, and no message is split.
///
/// The chunks of any input tile it: there are start positions, one per
/// chunk and strictly increasing, such that chunk `j` carries the identity of
/// the message at its start, is numbered `j`, and has as its text the text
/// blocks of the messages from its start up to the next start, joined by
/// newlines. A message's text block therefore lies whole in one chunk.
pub proof fn lemma_chunks_tile_the_input(msgs: Seq<MessageView>)
    ensures
        exists|starts: Seq<int>| covers(msgs, chunked(msgs), starts),
{
    lemma_starts_cover(msgs);
}

/// Short messages are merged for as long as the target allows.
///
/// With the same start positions as in [`lemma_chunks_tile_the_input`]: a
/// chunk that holds more than one text block is no longer than the target,
/// and every chunk but the last would pass the target if it took the text
/// block that opens the next chunk.
pub proof fn lemma_chunks_fill_the_target(msgs: Seq<MessageView>)
    ensures
        exists|starts: Seq<int>|
            covers(msgs, chunked(msgs), starts) && greedy(msgs, chunked(msgs), starts),
{
    lemma_starts_cover(msgs);
    lemma_starts_are_greedy(msgs);
}

proof fn lemma_small_state(msgs: Seq<MessageView>)
    requires
        join_lines(message_blocks(msgs)).len() <= TARGET_CHUNK_CHARS,
    ensures
        chunk_state(msgs).0.len() == 0,
        message_blocks(msgs).len() == 0 ==> chunk_state(msgs).1 is None,
        message_blocks(msgs).len() > 0 ==> chunk_state(msgs).1 is Some && chunk_state(
            msgs,
        ).1->0.text == join_lines(message_blocks(msgs)) && chunk_state(msgs).1->0.chunk_index == 0,
    decreases msgs.len(),
{
    if msgs.len() > 0 {
        let prev = msgs.drop_last();
        let block = flattened(msgs.last().segments);
        let before = message_blocks(prev);
        if block.len() > 0 && before.len() > 0 {
            lemma_join_push(before, block);
        }
        lemma_small_state(prev);
    }
}

/// An input that fits the target becomes one chunk.
///
/// When at least one message has a text block and all the text blocks,
/// joined by newlines, are no longer than the target, the result is a single
/// chunk, numbered zero, that holds exactly that joined text.
pub proof fn lemma_small_input_is_one_chunk(msgs: Seq<MessageView>)
    requires
        message_blocks(msgs).len() > 0,
        join_lines(message_blocks(msgs)).len() <= TARGET_CHUNK_CHARS,
    ensures
        chunked(msgs).len() == 1,
        chunked(msgs)[0].text == join_lines(message_blocks(msgs)),
        chunked(msgs)[0].chunk_index == 0,
{
    lemma_small_state(msgs);
}

/// An input without any text block yields no chunk.
pub proof fn lemma_blank_input_has_no_chunk(msgs: Seq<MessageView>)
    requires
        message_blocks(msgs).len() == 0,
    ensures
        chunked(msgs).len() == 0,
{
    assert(join_lines(message_blocks(msgs)).len() == 0);
    lemma_small_state(msgs);
}


/// Segments that hold nothing but white space leave no trace: a message
/// all of whose segments are blank has an empty text block, and so it is
/// skipped.
pub proof fn lemma_blank_segments_give_no_block(segs: Seq<SegmentView>)
    requires
        forall|i: int| 0 <= i < segs.len() ==> is_blank((#[trigger] segs[i]).text),
    ensures
        segment_lines(segs).len() == 0,
        flattened(segs).len() == 0,
    decreases segs.len(),
{
    if segs.len() > 0 {
        let rest = segs.drop_last();
        assert forall|i: int| 0 <= i < rest.len() implies is_blank((#[trigger] rest[i]).text) by {
            assert(rest[i] == segs[i]);
        }
        lemma_blank_segments_give_no_block(rest);
        assert(segs.last() == segs[segs.len() - 1]);
        lemma_trimmed_empty_iff_blank(segs.last().text);
    }
}

} // verus!
