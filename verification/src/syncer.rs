//! The indexer's pipeline: from a batch of hub messages to the documents of
//! the search engine, the bookkeeping of a catch-up pass, and what each event
//! of the live stream asks for.

use vstd::prelude::*;
use crate::chunker::{
    chunk_messages, chunk_spans, chunked, covers, lemma_chunks_tile_the_input, message_views,
    range_end, MessageInfo, MessageView,
};
use crate::hub_client::{HubClient, SessionCache};
use crate::json::JsonView;
use crate::models::{
    chunk_views, document_views, segment_views, ChunkView, DocumentView, SearchDocument, SseEvent,
    SyncMessage, SyncMessagesResponse, SyncSession, TextChunk,
};
use crate::text::{
    decimal, digits_value, is_digit, is_numeral, lemma_decimal_is_numeral, owned, push_u64, str_eq,
    trim_trailing_slashes, without_trailing_slashes,
};
use crate::text_extract::{extract_text, extracted};

verus! {

/// How many messages are asked of the hub at once.
pub const BATCH_SIZE: u32 = 500;

/// How many chunks are embedded in one request.
pub const EMBED_BATCH_SIZE: usize = 32;

/// What a [`SyncMessage`] holds, as mathematical values.
pub struct SyncMessageView {
    pub id: Seq<char>,
    pub session_id: Seq<char>,
    pub seq: int,
    pub content: JsonView,
    pub created_at: int,
}

impl View for SyncMessage {
    type V = SyncMessageView;

    open spec fn view(&self) -> SyncMessageView {
        SyncMessageView {
            id: self.id@,
            session_id: self.session_id@,
            seq: self.seq as int,
            content: self.content@,
            created_at: self.created_at as int,
        }
    }
}

/// The views of a run of messages.
pub open spec fn sync_views(msgs: Seq<SyncMessage>) -> Seq<SyncMessageView> {
    msgs.map_values(|m: SyncMessage| m@)
}

/// The message with its content turned into segments.
pub open spec fn info_of(m: SyncMessageView) -> MessageView {
    MessageView {
        message_id: m.id,
        session_id: m.session_id,
        seq: m.seq,
        created_at: m.created_at,
        segments: extracted(m.content),
    }
}

/// The position of the partition of session `id`, if there is one. A
/// partition belongs to the session of its first message.
pub open spec fn partition_position(parts: Seq<Seq<MessageView>>, id: Seq<char>) -> Option<int>
    decreases parts.len(),
{
    if parts.len() == 0 {
        None
    } else if partition_position(parts.drop_last(), id) is Some {
        partition_position(parts.drop_last(), id)
    } else if parts.last().len() > 0 && parts.last().first().session_id == id {
        Some(parts.len() - 1)
    } else {
        None
    }
}

/// The messages that have segments, partitioned by session: the partitions
/// in the order in which their sessions were first seen, the messages of
/// each in the order in which they arrived.
pub open spec fn partitioned(msgs: Seq<SyncMessageView>) -> Seq<Seq<MessageView>>
    decreases msgs.len(),
{
    if msgs.len() == 0 {
        Seq::empty()
    } else {
        let parts = partitioned(msgs.drop_last());
        let m = msgs.last();
        if extracted(m.content).len() == 0 {
            parts
        } else {
            match partition_position(parts, m.session_id) {
                Some(k) => parts.update(k, parts[k].push(info_of(m))),
                None => parts.push(seq![info_of(m)]),
            }
        }
    }
}

/// The views of a run of partitions.
pub open spec fn part_views(parts: Seq<Vec<MessageInfo>>) -> Seq<Seq<MessageView>> {
    parts.map_values(|p: Vec<MessageInfo>| message_views(p@))
}

/// The messages of session `id` that have segments, in the order in which
/// they arrived, each with its segments.
pub open spec fn of_session(msgs: Seq<SyncMessageView>, id: Seq<char>) -> Seq<MessageView>
    decreases msgs.len(),
{
    if msgs.len() == 0 {
        Seq::empty()
    } else {
        let rest = of_session(msgs.drop_last(), id);
        let m = msgs.last();
        if extracted(m.content).len() > 0 && m.session_id == id {
            rest.push(info_of(m))
        } else {
            rest
        }
    }
}

/// Whether the partitions sort the messages by session: each partition is
/// all the messages of one session that have segments, in the order in
/// which they arrived; no two partitions are of the same session; and
/// every message that has segments is in the partition of its session.
pub open spec fn sorts_by_session(parts: Seq<Seq<MessageView>>, msgs: Seq<SyncMessageView>) -> bool {
    &&& forall|k: int|
        0 <= k < parts.len() ==> (#[trigger] parts[k]).len() >= 1 && parts[k] == of_session(
            msgs,
            parts[k].first().session_id,
        )
    &&& forall|a: int, b: int|
        0 <= a < b < parts.len() ==> (#[trigger] parts[a]).first().session_id != (
        #[trigger] parts[b]).first().session_id
    &&& forall|i: int|
        0 <= i < msgs.len() && extracted((#[trigger] msgs[i]).content).len() > 0 ==> exists|k: int|
            0 <= k < parts.len() && (#[trigger] parts[k]).len() >= 1 && parts[k].first().session_id
                == msgs[i].session_id
}

/// The messages of a session are of that session, and each of them has segments.
pub proof fn lemma_of_session_is_one_session(msgs: Seq<SyncMessageView>, id: Seq<char>)
    ensures
        forall|j: int|
            0 <= j < of_session(msgs, id).len() ==> (#[trigger] of_session(msgs, id)[j]).session_id
                == id && of_session(msgs, id)[j].segments.len() > 0,
    decreases msgs.len(),
{
    if msgs.len() > 0 {
        let rest = of_session(msgs.drop_last(), id);
        let all = of_session(msgs, id);
        lemma_of_session_is_one_session(msgs.drop_last(), id);
        assert forall|j: int| 0 <= j < all.len() implies (#[trigger] all[j]).session_id == id
            && all[j].segments.len() > 0 by {
            if j < rest.len() {
                assert(all[j] == rest[j]);
            }
        }
    }
}

proof fn lemma_partition_position(parts: Seq<Seq<MessageView>>, id: Seq<char>)
    ensures
        match partition_position(parts, id) {
            Some(k) => 0 <= k < parts.len() && parts[k].len() > 0 && parts[k].first().session_id
                == id,
            None => forall|k: int|
                0 <= k < parts.len() && (#[trigger] parts[k]).len() > 0 ==> parts[k].first().session_id
                    != id,
        },
    decreases parts.len(),
{
    if parts.len() > 0 {
        lemma_partition_position(parts.drop_last(), id);
        if partition_position(parts.drop_last(), id) is None {
            assert forall|k: int| 0 <= k < parts.len() - 1 && (#[trigger] parts[k]).len()
                > 0 implies parts[k].first().session_id != id by {
                assert(parts.drop_last()[k] == parts[k]);
            }
        } else {
            let k = partition_position(parts.drop_last(), id)->0;
            assert(parts.drop_last()[k] == parts[k]);
        }
    }
}

proof fn lemma_none_of_session(msgs: Seq<SyncMessageView>, id: Seq<char>)
    requires
        forall|i: int|
            0 <= i < msgs.len() && extracted((#[trigger] msgs[i]).content).len() > 0
                ==> msgs[i].session_id != id,
    ensures
        of_session(msgs, id).len() == 0,
    decreases msgs.len(),
{
    if msgs.len() > 0 {
        assert forall|i: int|
            0 <= i < msgs.drop_last().len() && extracted(
                (#[trigger] msgs.drop_last()[i]).content,
            ).len() > 0 implies msgs.drop_last()[i].session_id != id by {
            assert(msgs.drop_last()[i] == msgs[i]);
        }
        lemma_none_of_session(msgs.drop_last(), id);
        assert(msgs.last() == msgs[msgs.len() - 1]);
    }
}

/// Partitioning sorts the messages by session.
pub proof fn lemma_partitions_sort_by_session(msgs: Seq<SyncMessageView>)
    ensures
        sorts_by_session(partitioned(msgs), msgs),
    decreases msgs.len(),
{
    if msgs.len() > 0 {
        let prev = msgs.drop_last();
        let m = msgs.last();
        let before = partitioned(prev);
        let parts = partitioned(msgs);
        lemma_partitions_sort_by_session(prev);
        lemma_partition_position(before, m.session_id);
        assert(msgs =~= prev.push(m));
        if extracted(m.content).len() == 0 {
            assert(parts == before);
            assert forall|i: int|
                0 <= i < msgs.len() && extracted((#[trigger] msgs[i]).content).len()
                    > 0 implies exists|k: int|
                0 <= k < parts.len() && (#[trigger] parts[k]).len() >= 1
                    && parts[k].first().session_id == msgs[i].session_id by {
                assert(msgs[i] == prev[i]);
            }
        } else {
            let info = info_of(m);
            match partition_position(before, m.session_id) {
                Some(p) => {
                    assert forall|k: int| 0 <= k < parts.len() implies (#[trigger] parts[k]).len()
                        >= 1 && parts[k] == of_session(msgs, parts[k].first().session_id) by {
                        if k == p {
                            assert(parts[k] == before[k].push(info));
                            assert(parts[k].first() == before[k].first());
                        } else {
                            assert(parts[k] == before[k]);
                            if k < p {
                                assert(before[k].first().session_id != before[p].first().session_id);
                            } else {
                                assert(before[p].first().session_id != before[k].first().session_id);
                            }
                        }
                    }
                    assert forall|a: int, b: int| 0 <= a < b < parts.len() implies (
                    #[trigger] parts[a]).first().session_id != (
                    #[trigger] parts[b]).first().session_id by {
                        assert(parts[a].first() == before[a].first());
                        assert(parts[b].first() == before[b].first());
                        assert(before[a].first().session_id != before[b].first().session_id);
                    }
                    assert forall|i: int|
                        0 <= i < msgs.len() && extracted((#[trigger] msgs[i]).content).len()
                            > 0 implies exists|k: int|
                        0 <= k < parts.len() && (#[trigger] parts[k]).len() >= 1
                            && parts[k].first().session_id == msgs[i].session_id by {
                        if i < prev.len() {
                            assert(msgs[i] == prev[i]);
                            let j = choose|j: int|
                                0 <= j < before.len() && (#[trigger] before[j]).len() >= 1
                                    && before[j].first().session_id == prev[i].session_id;
                            assert(parts[j].first() == before[j].first());
                            assert(parts[j].len() >= 1);
                        } else {
                            assert(parts[p].first() == before[p].first());
                            assert(parts[p].len() >= 1);
                        }
                    }
                },
                None => {
                    assert(parts == before.push(seq![info]));
                    assert forall|i: int|
                        0 <= i < prev.len() && extracted((#[trigger] prev[i]).content).len()
                            > 0 implies prev[i].session_id != m.session_id by {
                        let j = choose|j: int|
                            0 <= j < before.len() && (#[trigger] before[j]).len() >= 1
                                && before[j].first().session_id == prev[i].session_id;
                    }
                    lemma_none_of_session(prev, m.session_id);
                    assert(of_session(msgs, m.session_id) =~= seq![info]);
                    assert forall|k: int| 0 <= k < parts.len() implies (#[trigger] parts[k]).len()
                        >= 1 && parts[k] == of_session(msgs, parts[k].first().session_id) by {
                        if k < before.len() {
                            assert(parts[k] == before[k]);
                        } else {
                            assert(parts[k] =~= seq![info]);
                        }
                    }
                    assert forall|a: int, b: int| 0 <= a < b < parts.len() implies (
                    #[trigger] parts[a]).first().session_id != (
                    #[trigger] parts[b]).first().session_id by {
                        assert(parts[a] == before[a]);
                        if b < before.len() {
                            assert(parts[b] == before[b]);
                        } else {
                            assert(parts[b] =~= seq![info]);
                        }
                    }
                    assert forall|i: int|
                        0 <= i < msgs.len() && extracted((#[trigger] msgs[i]).content).len()
                            > 0 implies exists|k: int|
                        0 <= k < parts.len() && (#[trigger] parts[k]).len() >= 1
                            && parts[k].first().session_id == msgs[i].session_id by {
                        if i < prev.len() {
                            assert(msgs[i] == prev[i]);
                            let j = choose|j: int|
                                0 <= j < before.len() && (#[trigger] before[j]).len() >= 1
                                    && before[j].first().session_id == prev[i].session_id;
                            assert(parts[j] == before[j]);
                        } else {
                            assert(parts[before.len() as int] =~= seq![info]);
                        }
                    }
                },
            }
        }
    }
}

proof fn lemma_partition_extends(parts: Seq<Seq<MessageView>>, n: int, id: Seq<char>)
    requires
        0 <= n <= parts.len(),
        partition_position(parts.take(n), id) is Some,
    ensures
        partition_position(parts, id) == partition_position(parts.take(n), id),
    decreases parts.len() - n,
{
    if n < parts.len() {
        assert(parts.take(n + 1).drop_last() =~= parts.take(n));
        lemma_partition_extends(parts, n + 1, id);
    } else {
        assert(parts.take(n) =~= parts);
    }
}

fn find_partition(parts: &Vec<Vec<MessageInfo>>, id: &str) -> (found: Option<usize>)
    ensures
        match found {
            Some(k) => partition_position(part_views(parts@), id@) == Some(k as int) && k
                < parts.len(),
            None => partition_position(part_views(parts@), id@) is None,
        },
{
    let ghost views = part_views(parts@);
    let mut i: usize = 0;
    while i < parts.len()
        invariant
            i <= parts.len(),
            views == part_views(parts@),
            partition_position(views.take(i as int), id@) is None,
        decreases parts.len() - i,
    {
        proof {
            assert(views.take(i + 1).drop_last() =~= views.take(i as int));
            assert(views.take(i + 1).last() == message_views(parts@[i as int]@));
        }
        if parts[i].len() > 0 && str_eq(parts[i][0].session_id.as_str(), id) {
            proof {
                assert(message_views(parts@[i as int]@).first() == parts@[i as int]@[0]@);
                lemma_partition_extends(views, i + 1, id@);
            }
            return Some(i);
        }
        i += 1;
    }
    assert(views.take(parts.len() as int) =~= views);
    None
}

/// Turns each message's content into segments, drops the messages that have
/// none, and partitions the rest by session.
pub fn partition_by_session(messages: &[SyncMessage]) -> (parts: Vec<Vec<MessageInfo>>)
    ensures
        part_views(parts@) == partitioned(sync_views(messages@)),
        sorts_by_session(part_views(parts@), sync_views(messages@)),
{
    let ghost views = sync_views(messages@);
    let mut parts: Vec<Vec<MessageInfo>> = Vec::new();
    let mut i: usize = 0;
    assert(part_views(parts@) =~= partitioned(views.take(0)));
    while i < messages.len()
        invariant
            i <= messages.len(),
            views == sync_views(messages@),
            part_views(parts@) == partitioned(views.take(i as int)),
        decreases messages.len() - i,
    {
        let msg = &messages[i];
        proof {
            assert(views.take(i + 1).drop_last() =~= views.take(i as int));
            assert(views.take(i + 1).last() == msg@);
        }
        let segments = extract_text(&msg.content);
        if segments.len() > 0 {
            let info = MessageInfo {
                message_id: msg.id.clone(),
                session_id: msg.session_id.clone(),
                seq: msg.seq,
                created_at: msg.created_at,
                segments,
            };
            assert(info@ == info_of(msg@));
            let ghost before = part_views(parts@);
            match find_partition(&parts, msg.session_id.as_str()) {
                Some(k) => {
                    let mut part = parts.remove(k);
                    let ghost old_part = message_views(part@);
                    part.push(info);
                    assert(message_views(part@) =~= old_part.push(info@));
                    parts.insert(k, part);
                    assert(part_views(parts@) =~= before.update(
                        k as int,
                        before[k as int].push(info@),
                    ));
                },
                None => {
                    let mut part: Vec<MessageInfo> = Vec::new();
                    part.push(info);
                    assert(message_views(part@) =~= seq![info@]);
                    parts.push(part);
                    assert(part_views(parts@) =~= before.push(seq![info@]));
                },
            }
        } else {
            assert(segment_views(segments@).len() == 0);
        }
        i += 1;
    }
    proof {
        assert(views.take(messages.len() as int) =~= views);
        lemma_partitions_sort_by_session(views);
    }
    parts
}

/// The chunks of all partitions, partition after partition.
pub open spec fn batch_chunks(parts: Seq<Seq<MessageView>>) -> Seq<ChunkView>
    decreases parts.len(),
{
    if parts.len() == 0 {
        Seq::empty()
    } else {
        batch_chunks(parts.drop_last()) + chunked(parts.last())
    }
}

/// Chunks each partition and puts the chunks in one list.
pub fn chunk_partitions(parts: &Vec<Vec<MessageInfo>>) -> (chunks: Vec<TextChunk>)
    ensures
        chunk_views(chunks@) == batch_chunks(part_views(parts@)),
{
    let ghost views = part_views(parts@);
    let mut chunks: Vec<TextChunk> = Vec::new();
    let mut i: usize = 0;
    assert(chunk_views(chunks@) =~= batch_chunks(views.take(0)));
    while i < parts.len()
        invariant
            i <= parts.len(),
            views == part_views(parts@),
            chunk_views(chunks@) == batch_chunks(views.take(i as int)),
        decreases parts.len() - i,
    {
        proof {
            assert(views.take(i + 1).drop_last() =~= views.take(i as int));
            assert(views.take(i + 1).last() == message_views(parts@[i as int]@));
        }
        let ghost before = chunk_views(chunks@);
        let mut more = chunk_messages(parts[i].as_slice());
        let ghost added = chunk_views(more@);
        chunks.append(&mut more);
        assert(chunk_views(chunks@) =~= before + added);
        i += 1;
    }
    assert(views.take(parts.len() as int) =~= views);
    chunks
}


/// The name under which a session is indexed: its name, else the text of
/// its summary, else nothing. A session that is not known has no name.
pub open spec fn session_name_of(session: Option<SyncSession>) -> Seq<char> {
    match session {
        Some(s) => match s.metadata {
            Some(m) => match m.name {
                Some(n) => n@,
                None => match m.summary {
                    Some(t) => t.text@,
                    None => Seq::empty(),
                },
            },
            None => Seq::empty(),
        },
        None => Seq::empty(),
    }
}

/// The path of a session, or nothing.
pub open spec fn session_path_of(session: Option<SyncSession>) -> Seq<char> {
    match session {
        Some(s) => match s.metadata {
            Some(m) => match m.path {
                Some(p) => p@,
                None => Seq::empty(),
            },
            None => Seq::empty(),
        },
        None => Seq::empty(),
    }
}

/// The flavor of a session, or nothing.
pub open spec fn session_flavor_of(session: Option<SyncSession>) -> Seq<char> {
    match session {
        Some(s) => match s.metadata {
            Some(m) => match m.flavor {
                Some(f) => f@,
                None => Seq::empty(),
            },
            None => Seq::empty(),
        },
        None => Seq::empty(),
    }
}

/// What the cache knows of a session.
pub open spec fn known(cache: Map<Seq<char>, SyncSession>, id: Seq<char>) -> Option<SyncSession> {
    if cache.contains_key(id) {
        Some(cache[id])
    } else {
        None
    }
}

/// What is stored of a chunk's session beside the chunk.
#[derive(Debug)]
pub struct ChunkMeta {
    pub session_name: String,
    pub session_path: String,
    pub session_flavor: String,
}

/// Looks up what is stored of a session beside each of its chunks.
pub fn resolve_meta(cache: &SessionCache, session_id: &str) -> (meta: ChunkMeta)
    ensures
        meta.session_name@ == session_name_of(known(cache@, session_id@)),
        meta.session_path@ == session_path_of(known(cache@, session_id@)),
        meta.session_flavor@ == session_flavor_of(known(cache@, session_id@)),
{
    let mut meta = ChunkMeta {
        session_name: String::new(),
        session_path: String::new(),
        session_flavor: String::new(),
    };
    if let Some(session) = cache.get(session_id) {
        if let Some(m) = &session.metadata {
            match &m.name {
                Some(n) => {
                    meta.session_name = n.clone();
                },
                None => {
                    if let Some(t) = &m.summary {
                        meta.session_name = t.text.clone();
                    }
                },
            }
            if let Some(p) = &m.path {
                meta.session_path = p.clone();
            }
            if let Some(f) = &m.flavor {
                meta.session_flavor = f.clone();
            }
        }
    }
    meta
}

/// The key of a chunk's document: `msg_`, the id of the chunk's first
/// message, `_chunk_` and the chunk's number.
pub open spec fn document_id(message_id: Seq<char>, chunk_index: nat) -> Seq<char> {
    "msg_"@ + message_id + "_chunk_"@ + decimal(chunk_index)
}

/// A document key names one message and one chunk number: two keys are
/// the same only when both the message ids and the chunk numbers are.
pub proof fn lemma_document_id_is_injective(a: Seq<char>, i: nat, b: Seq<char>, j: nat)
    requires
        document_id(a, i) == document_id(b, j),
    ensures
        a == b,
        i == j,
{
    reveal_strlit("msg_");
    reveal_strlit("_chunk_");
    lemma_decimal_is_numeral(i);
    lemma_decimal_is_numeral(j);
    let head = "msg_"@;
    let mid = "_chunk_"@;
    let da = decimal(i);
    let db = decimal(j);
    let pa = head + a + mid;
    let pb = head + b + mid;
    let s = document_id(a, i);
    assert(s == pa + da);
    assert(s == pb + db);
    assert(pa.last() == '_');
    assert(pb.last() == '_');
    assert(!is_digit('_'));
    if da.len() < db.len() {
        let at = s.len() - da.len() - 1;
        assert((pa + da)[at] == pa.last());
        assert((pb + db)[at] == db[at - pb.len()]);
        assert(is_digit(db[at - pb.len()]));
    }
    if db.len() < da.len() {
        let at = s.len() - db.len() - 1;
        assert((pb + db)[at] == pb.last());
        assert((pa + da)[at] == da[at - pa.len()]);
        assert(is_digit(da[at - pa.len()]));
    }
    assert(da.len() == db.len());
    assert(da =~= s.skip(pa.len() as int));
    assert(db =~= s.skip(pb.len() as int));
    assert(da == db);
    assert(digits_value(da) == i && digits_value(db) == j);
    assert(pa =~= s.take(pa.len() as int));
    assert(pb =~= s.take(pb.len() as int));
    assert(pa == pb);
    assert(a =~= pa.subrange(4, 4 + a.len() as int));
    assert(b =~= pb.subrange(4, 4 + b.len() as int));
}

/// The document of a chunk.
pub open spec fn document_of(c: ChunkView, cache: Map<Seq<char>, SyncSession>) -> DocumentView {
    DocumentView {
        id: document_id(c.message_id, c.chunk_index),
        message_id: c.message_id,
        session_id: c.session_id,
        seq: c.seq,
        role: c.role,
        text: c.text,
        session_name: session_name_of(known(cache, c.session_id)),
        session_path: session_path_of(known(cache, c.session_id)),
        session_flavor: session_flavor_of(known(cache, c.session_id)),
        created_at: c.created_at,
    }
}

/// The text that is embedded for a chunk: the chunk's text, after the
/// session's name in brackets when the session has one.
pub open spec fn embed_input(c: ChunkView, cache: Map<Seq<char>, SyncSession>) -> Seq<char> {
    let name = session_name_of(known(cache, c.session_id));
    if name.len() == 0 {
        c.text
    } else {
        seq!['['] + name + seq![']', ' '] + c.text
    }
}

/// The chunks that are embedded in one request: for each the text to embed
/// and the document that will carry the vector.
#[derive(Debug)]
pub struct EmbedWindow {
    pub inputs: Vec<String>,
    pub documents: Vec<SearchDocument>,
}

/// What an [`EmbedWindow`] holds, as mathematical values.
pub struct WindowView {
    pub inputs: Seq<Seq<char>>,
    pub documents: Seq<DocumentView>,
}

impl View for EmbedWindow {
    type V = WindowView;

    open spec fn view(&self) -> WindowView {
        WindowView {
            inputs: self.inputs@.map_values(|s: String| s@),
            documents: document_views(self.documents@),
        }
    }
}

/// The views of a run of windows.
pub open spec fn window_views(windows: Seq<EmbedWindow>) -> Seq<WindowView> {
    windows.map_values(|w: EmbedWindow| w@)
}

/// The window of a run of chunks.
pub open spec fn window_of(chunks: Seq<ChunkView>, cache: Map<Seq<char>, SyncSession>) -> WindowView {
    WindowView {
        inputs: chunks.map_values(|c: ChunkView| embed_input(c, cache)),
        documents: chunks.map_values(|c: ChunkView| document_of(c, cache)),
    }
}

/// The chunks in windows of [`EMBED_BATCH_SIZE`], the last one shorter when
/// the chunks do not fill it.
pub open spec fn windows_of(chunks: Seq<ChunkView>, cache: Map<Seq<char>, SyncSession>) -> Seq<
    WindowView,
>
    decreases chunks.len(),
{
    if chunks.len() == 0 {
        Seq::empty()
    } else if chunks.len() <= EMBED_BATCH_SIZE {
        seq![window_of(chunks, cache)]
    } else {
        seq![window_of(chunks.take(EMBED_BATCH_SIZE as int), cache)] + windows_of(
            chunks.skip(EMBED_BATCH_SIZE as int),
            cache,
        )
    }
}

fn document_for(chunk: &TextChunk, meta: ChunkMeta) -> (doc: SearchDocument)
    ensures
        doc@ == (DocumentView {
            id: document_id(chunk@.message_id, chunk@.chunk_index),
            message_id: chunk@.message_id,
            session_id: chunk@.session_id,
            seq: chunk@.seq,
            role: chunk@.role,
            text: chunk@.text,
            session_name: meta.session_name@,
            session_path: meta.session_path@,
            session_flavor: meta.session_flavor@,
            created_at: chunk@.created_at,
        }),
{
    let mut id = owned("msg_");
    id.push_str(chunk.message_id.as_str());
    id.push_str("_chunk_");
    push_u64(&mut id, chunk.chunk_index as u64);
    SearchDocument {
        id,
        message_id: chunk.message_id.clone(),
        session_id: chunk.session_id.clone(),
        seq: chunk.seq,
        role: chunk.role.clone(),
        text: chunk.text.clone(),
        session_name: meta.session_name,
        session_path: meta.session_path,
        session_flavor: meta.session_flavor,
        created_at: chunk.created_at,
    }
}

fn build_window(chunks: &Vec<TextChunk>, start: usize, end: usize, cache: &SessionCache) -> (window:
    EmbedWindow)
    requires
        start <= end <= chunks.len(),
    ensures
        window@ == window_of(chunk_views(chunks@).subrange(start as int, end as int), cache@),
{
    let ghost views = chunk_views(chunks@).subrange(start as int, end as int);
    let mut inputs: Vec<String> = Vec::new();
    let mut documents: Vec<SearchDocument> = Vec::new();
    let mut i: usize = start;
    while i < end
        invariant
            start <= i <= end <= chunks.len(),
            views == chunk_views(chunks@).subrange(start as int, end as int),
            inputs.len() == i - start,
            documents.len() == i - start,
            forall|k: int|
                0 <= k < i - start ==> (#[trigger] inputs@[k])@ == embed_input(views[k], cache@),
            forall|k: int|
                0 <= k < i - start ==> (#[trigger] documents@[k])@ == document_of(
                    views[k],
                    cache@,
                ),
        decreases end - i,
    {
        let chunk = &chunks[i];
        assert(views[i - start] == chunk@);
        let meta = resolve_meta(cache, chunk.session_id.as_str());
        let input = if meta.session_name.as_str().is_empty() {
            chunk.text.clone()
        } else {
            let mut text = owned("[");
            text.push_str(meta.session_name.as_str());
            text.push_str("] ");
            text.push_str(chunk.text.as_str());
            proof {
                reveal_strlit("[");
                reveal_strlit("] ");
                assert(text@ =~= seq!['['] + meta.session_name@ + seq![']', ' '] + chunk.text@);
            }
            text
        };
        inputs.push(input);
        documents.push(document_for(chunk, meta));
        i += 1;
    }
    let window = EmbedWindow { inputs, documents };
    proof {
        assert(window@.inputs =~= window_of(views, cache@).inputs);
        assert(window@.documents =~= window_of(views, cache@).documents);
    }
    window
}

/// Splits the chunks into windows and prepares, for each chunk, the text to
/// embed and the document to store.
pub fn plan_windows(chunks: &Vec<TextChunk>, cache: &SessionCache) -> (windows: Vec<EmbedWindow>)
    ensures
        window_views(windows@) == windows_of(chunk_views(chunks@), cache@),
{
    let ghost all = chunk_views(chunks@);
    let mut windows: Vec<EmbedWindow> = Vec::new();
    let mut start: usize = 0;
    assert(all.skip(0) =~= all);
    while start < chunks.len()
        invariant
            start <= chunks.len(),
            all == chunk_views(chunks@),
            window_views(windows@) + windows_of(all.skip(start as int), cache@) == windows_of(
                all,
                cache@,
            ),
        decreases chunks.len() - start,
    {
        let end = if chunks.len() - start <= EMBED_BATCH_SIZE {
            chunks.len()
        } else {
            start + EMBED_BATCH_SIZE
        };
        let ghost before = window_views(windows@);
        let ghost rest = all.skip(start as int);
        let window = build_window(chunks, start, end, cache);
        windows.push(window);
        proof {
            assert(window_views(windows@) =~= before.push(window@));
            assert(all.subrange(start as int, end as int) =~= rest.take(end - start));
            assert(rest.skip(end - start) =~= all.skip(end as int));
            if end == chunks.len() {
                assert(rest.take(end - start) =~= rest);
                assert(windows_of(all.skip(end as int), cache@) =~= Seq::<WindowView>::empty());
            }
            assert(before.push(window@) + windows_of(all.skip(end as int), cache@) =~= before
                + windows_of(rest, cache@));
        }
        start = end;
    }
    assert(window_views(windows@) =~= windows_of(all, cache@));
    windows
}

/// What a batch of messages asks of the embedder and of the search engine.
pub open spec fn planned(msgs: Seq<SyncMessageView>, cache: Map<Seq<char>, SyncSession>) -> Seq<
    WindowView,
> {
    windows_of(batch_chunks(partitioned(msgs)), cache)
}

/// Plans the indexing of a batch of messages: their text is extracted, they
/// are partitioned by session and chunked, and the chunks are put in
/// windows of [`EMBED_BATCH_SIZE`], each chunk with the text to embed and
/// with its document.
pub fn plan_batch(messages: &[SyncMessage], cache: &SessionCache) -> (windows: Vec<EmbedWindow>)
    ensures
        window_views(windows@) == planned(sync_views(messages@), cache@),
{
    let parts = partition_by_session(messages);
    let chunks = chunk_partitions(&parts);
    plan_windows(&chunks, cache)
}

/// The documents of a window that got a vector: as many as there are
/// vectors, from the first.
pub fn pair_documents(documents: Vec<SearchDocument>, vector_count: usize) -> (paired: Vec<
    SearchDocument,
>)
    ensures
        paired@ == documents@.take(
            if vector_count < documents.len() {
                vector_count as int
            } else {
                documents.len() as int
            },
        ),
{
    let mut paired = documents;
    if vector_count < paired.len() {
        paired.truncate(vector_count);
    }
    assert(paired@ =~= documents@.take(
        if vector_count < documents.len() {
            vector_count as int
        } else {
            documents.len() as int
        },
    ));
    paired
}

/// The documents of a window that are to be stored once the embedder has
/// answered: none when it failed, so that the window is skipped and the
/// others go on; else those that got a vector.
pub open spec fn settled(documents: Seq<SearchDocument>, vector_count: Option<usize>) -> Seq<
    SearchDocument,
> {
    match vector_count {
        None => Seq::empty(),
        Some(n) => documents.take(
            if n < documents.len() {
                n as int
            } else {
                documents.len() as int
            },
        ),
    }
}

impl EmbedWindow {
    /// Decides what is stored of a window: `vector_count` is the number of
    /// vectors that the embedder returned, or `None` when it failed.
    pub fn settle(self, vector_count: Option<usize>) -> (documents: Vec<SearchDocument>)
        ensures
            documents@ == settled(self.documents@, vector_count),
    {
        match vector_count {
            None => Vec::new(),
            Some(n) => pair_documents(self.documents, n),
        }
    }
}

/// The key of the document of a chunk.
pub open spec fn chunk_key(c: ChunkView) -> Seq<char> {
    document_id(c.message_id, c.chunk_index)
}

/// Whether no two chunks have the same document key.
pub open spec fn keys_are_unique(chunks: Seq<ChunkView>) -> bool {
    forall|x: int, y: int|
        0 <= x < y < chunks.len() ==> chunk_key(#[trigger] chunks[x]) != chunk_key(
            #[trigger] chunks[y],
        )
}

/// Whether no two messages have the same id.
pub open spec fn ids_are_unique(msgs: Seq<SyncMessageView>) -> bool {
    forall|i: int, j: int| 0 <= i < j < msgs.len() ==> (#[trigger] msgs[i]).id != (#[trigger] msgs[j]).id
}

proof fn lemma_of_session_members(msgs: Seq<SyncMessageView>, id: Seq<char>, k: int)
    requires
        0 <= k < of_session(msgs, id).len(),
    ensures
        exists|i: int|
            0 <= i < msgs.len() && (#[trigger] msgs[i]).id == of_session(msgs, id)[k].message_id
                && msgs[i].session_id == id,
    decreases msgs.len(),
{
    if msgs.len() > 0 {
        let rest = of_session(msgs.drop_last(), id);
        if k < rest.len() {
            lemma_of_session_members(msgs.drop_last(), id, k);
            let i = choose|i: int|
                0 <= i < msgs.drop_last().len() && (#[trigger] msgs.drop_last()[i]).id
                    == rest[k].message_id && msgs.drop_last()[i].session_id == id;
            assert(msgs[i] == msgs.drop_last()[i]);
            assert(of_session(msgs, id)[k] == rest[k]);
        } else {
            assert(msgs[msgs.len() - 1] == msgs.last());
        }
    }
}

/// Whether a chunk was opened by a message of `msgs` that belongs to one
/// of the first `n` partitions.
spec fn has_origin(
    c: ChunkView,
    msgs: Seq<SyncMessageView>,
    parts: Seq<Seq<MessageView>>,
    n: int,
) -> bool {
    &&& exists|a: int|
        0 <= a < n && (#[trigger] parts[a]).len() >= 1 && parts[a].first().session_id
            == c.session_id
    &&& exists|i: int|
        0 <= i < msgs.len() && (#[trigger] msgs[i]).id == c.message_id && msgs[i].session_id
            == c.session_id
}

proof fn lemma_batch_keys(msgs: Seq<SyncMessageView>, n: int)
    requires
        ids_are_unique(msgs),
        0 <= n <= partitioned(msgs).len(),
    ensures
        keys_are_unique(batch_chunks(partitioned(msgs).take(n))),
        forall|k: int|
            0 <= k < batch_chunks(partitioned(msgs).take(n)).len() ==> has_origin(
                #[trigger] batch_chunks(partitioned(msgs).take(n))[k],
                msgs,
                partitioned(msgs),
                n,
            ),
    decreases n,
{
    let parts = partitioned(msgs);
    if n > 0 {
        lemma_batch_keys(msgs, n - 1);
        lemma_partitions_sort_by_session(msgs);
        let before = batch_chunks(parts.take(n - 1));
        let part = parts[n - 1];
        let fresh = chunked(part);
        let all = batch_chunks(parts.take(n));
        let id = part.first().session_id;
        assert(parts.take(n).drop_last() =~= parts.take(n - 1));
        assert(parts.take(n).last() == part);
        assert(all == before + fresh);
        lemma_chunks_tile_the_input(part);
        let starts = choose|starts: Seq<int>| covers(part, fresh, starts);
        lemma_of_session_is_one_session(msgs, id);
        assert forall|j: int| 0 <= j < fresh.len() implies (#[trigger] fresh[j]).chunk_index == j
            && fresh[j].session_id == id && has_origin(fresh[j], msgs, parts, n) by {
            assert(chunk_spans(part, fresh[j], j, starts[j], range_end(starts, j, part.len() as int)));
            let lo = starts[j];
            assert(part[lo].session_id == id);
            lemma_of_session_members(msgs, id, lo);
            assert(parts[n - 1].len() >= 1 && parts[n - 1].first().session_id == fresh[j].session_id);
        }
        assert forall|k: int| 0 <= k < all.len() implies has_origin(
            #[trigger] all[k],
            msgs,
            parts,
            n,
        ) by {
            if k < before.len() {
                assert(all[k] == before[k]);
                assert(has_origin(before[k], msgs, parts, n - 1));
                let a = choose|a: int|
                    0 <= a < n - 1 && (#[trigger] parts[a]).len() >= 1 && parts[a].first().session_id
                        == before[k].session_id;
                assert(0 <= a < n && parts[a].len() >= 1);
            } else {
                assert(all[k] == fresh[k - before.len()]);
            }
        }
        assert forall|x: int, y: int| 0 <= x < y < all.len() implies chunk_key(
            #[trigger] all[x],
        ) != chunk_key(#[trigger] all[y]) by {
            if chunk_key(all[x]) == chunk_key(all[y]) {
                lemma_document_id_is_injective(
                    all[x].message_id,
                    all[x].chunk_index,
                    all[y].message_id,
                    all[y].chunk_index,
                );
                if y < before.len() {
                    assert(all[x] == before[x] && all[y] == before[y]);
                } else if x >= before.len() {
                    assert(all[x] == fresh[x - before.len()]);
                    assert(all[y] == fresh[y - before.len()]);
                } else {
                    assert(all[x] == before[x]);
                    assert(all[y] == fresh[y - before.len()]);
                    assert(has_origin(before[x], msgs, parts, n - 1));
                    let a = choose|a: int|
                        0 <= a < n - 1 && (#[trigger] parts[a]).len() >= 1
                            && parts[a].first().session_id == before[x].session_id;
                    assert(parts[a].first().session_id != parts[n - 1].first().session_id);
                    let i1 = choose|i: int|
                        0 <= i < msgs.len() && (#[trigger] msgs[i]).id == all[x].message_id
                            && msgs[i].session_id == all[x].session_id;
                    let i2 = choose|i: int|
                        0 <= i < msgs.len() && (#[trigger] msgs[i]).id == all[y].message_id
                            && msgs[i].session_id == all[y].session_id;
                    if i1 < i2 {
                        assert(msgs[i1].id != msgs[i2].id);
                    } else if i2 < i1 {
                        assert(msgs[i2].id != msgs[i1].id);
                    }
                }
            }
        }
    } else {
        assert(parts.take(0) =~= Seq::<Seq<MessageView>>::empty());
    }
}

/// Messages with ids of their own get documents with keys of their own.
///
/// When no two messages of a batch have the same id, no two of the
/// batch's chunks have the same document key: so each document that the
/// batch writes replaces, at most, the document of the same chunk.
pub proof fn lemma_document_keys_are_unique(msgs: Seq<SyncMessageView>)
    requires
        ids_are_unique(msgs),
    ensures
        keys_are_unique(batch_chunks(partitioned(msgs))),
{
    let parts = partitioned(msgs);
    lemma_batch_keys(msgs, parts.len() as int);
    assert(parts.take(parts.len() as int) =~= parts);
}

/// The keys of the documents of one window.
pub open spec fn window_ids(w: WindowView) -> Seq<Seq<char>> {
    w.documents.map_values(|d: DocumentView| d.id)
}

/// The keys of the documents of a plan, window after window.
pub open spec fn planned_ids(windows: Seq<WindowView>) -> Seq<Seq<char>>
    decreases windows.len(),
{
    if windows.len() == 0 {
        Seq::empty()
    } else {
        planned_ids(windows.drop_last()) + window_ids(windows.last())
    }
}

proof fn lemma_planned_ids_prepend(w: WindowView, rest: Seq<WindowView>)
    ensures
        planned_ids(seq![w] + rest) == window_ids(w) + planned_ids(rest),
    decreases rest.len(),
{
    let all = seq![w] + rest;
    if rest.len() == 0 {
        assert(all =~= seq![w]);
        assert(all.last() == w);
        assert(all.drop_last() =~= Seq::<WindowView>::empty());
        assert(planned_ids(Seq::<WindowView>::empty()).len() == 0);
        assert(planned_ids(all) =~= window_ids(w));
        assert(window_ids(w) + planned_ids(rest) =~= window_ids(w));
    } else {
        lemma_planned_ids_prepend(w, rest.drop_last());
        assert(all.drop_last() =~= seq![w] + rest.drop_last());
        assert(all.last() == rest.last());
        assert(planned_ids(all) =~= window_ids(w) + planned_ids(rest));
    }
}

/// The keys of a plan are the keys of the batch's chunks, in order.
pub proof fn lemma_planned_ids_are_chunk_keys(
    chunks: Seq<ChunkView>,
    cache: Map<Seq<char>, SyncSession>,
)
    ensures
        planned_ids(windows_of(chunks, cache)) == chunks.map_values(|c: ChunkView| chunk_key(c)),
    decreases chunks.len(),
{
    let keys = chunks.map_values(|c: ChunkView| chunk_key(c));
    if chunks.len() == 0 {
        assert(planned_ids(windows_of(chunks, cache)) =~= keys);
    } else if chunks.len() <= EMBED_BATCH_SIZE {
        let w = window_of(chunks, cache);
        lemma_planned_ids_prepend(w, Seq::empty());
        assert(seq![w] + Seq::<WindowView>::empty() =~= seq![w]);
        assert(window_ids(w) =~= keys);
        assert(planned_ids(windows_of(chunks, cache)) =~= keys);
    } else {
        let head = chunks.take(EMBED_BATCH_SIZE as int);
        let tail = chunks.skip(EMBED_BATCH_SIZE as int);
        let w = window_of(head, cache);
        lemma_planned_ids_are_chunk_keys(tail, cache);
        lemma_planned_ids_prepend(w, windows_of(tail, cache));
        assert(window_ids(w) =~= head.map_values(|c: ChunkView| chunk_key(c)));
        assert(keys =~= head.map_values(|c: ChunkView| chunk_key(c)) + tail.map_values(
            |c: ChunkView| chunk_key(c),
        ));
    }
}

/// A batch whose messages have ids of their own plans no key twice.
pub proof fn lemma_planned_keys_are_unique(
    msgs: Seq<SyncMessageView>,
    cache: Map<Seq<char>, SyncSession>,
)
    requires
        ids_are_unique(msgs),
    ensures
        planned_ids(planned(msgs, cache)).no_duplicates(),
{
    let chunks = batch_chunks(partitioned(msgs));
    lemma_document_keys_are_unique(msgs);
    lemma_planned_ids_are_chunk_keys(chunks, cache);
    let keys = planned_ids(planned(msgs, cache));
    assert forall|x: int, y: int| 0 <= x < keys.len() && 0 <= y < keys.len() && x != y implies keys[x]
        != keys[y] by {
        if x < y {
            assert(chunk_key(chunks[x]) != chunk_key(chunks[y]));
        } else {
            assert(chunk_key(chunks[y]) != chunk_key(chunks[x]));
        }
    }
}

/// Planning the same batch twice gives the same document keys.
///
/// Two plans of one batch against one cache hold the same keys, each as
/// often in the one as in the other.
pub proof fn lemma_document_ids_are_deterministic(
    msgs: Seq<SyncMessageView>,
    cache: Map<Seq<char>, SyncSession>,
    first: Seq<EmbedWindow>,
    second: Seq<EmbedWindow>,
)
    requires
        window_views(first) == planned(msgs, cache),
        window_views(second) == planned(msgs, cache),
    ensures
        planned_ids(window_views(first)).to_multiset() == planned_ids(
            window_views(second),
        ).to_multiset(),
        planned_ids(window_views(first)) == planned_ids(window_views(second)),
{
}


/// Where a catch-up pass stands: what the sync state holds, which is also
/// what the next page is asked with.
#[derive(Debug)]
pub struct CatchUp {
    /// The cursor to hand to the hub with the next request.
    pub cursor: Option<String>,
    /// The time that the sync state holds; the next page is asked from it.
    pub last_sync_ts: i64,
}

/// What the hub is asked for a page.
#[derive(Debug)]
pub struct PageRequest {
    pub since: i64,
    pub limit: u32,
    pub cursor: Option<String>,
}

/// What is to be done once a page has been indexed.
#[derive(Debug)]
pub struct PageStep {
    /// The time to write to the sync state.
    pub write_last_sync_ts: i64,
    /// The cursor to write to the sync state, if the hub sent one.
    pub write_cursor: Option<String>,
    /// Whether another page is to be fetched.
    pub fetch_more: bool,
}

/// The state of a pass after a page has been indexed: the time is that of
/// the page's last message, the cursor the page's if it has one. An empty
/// page changes nothing.
pub open spec fn advanced(state: CatchUp, page: SyncMessagesResponse) -> CatchUp {
    if page.messages@.len() == 0 {
        state
    } else {
        CatchUp {
            cursor: match page.cursor {
                Some(c) => Some(c),
                None => state.cursor,
            },
            last_sync_ts: page.messages@.last().created_at,
        }
    }
}

/// Whether every message of a page was written at or after `since`, as the
/// hub promises of the pages it returns for `since`.
pub open spec fn page_respects(page: SyncMessagesResponse, since: i64) -> bool {
    forall|i: int| 0 <= i < page.messages@.len() ==> (#[trigger] page.messages@[i]).created_at >= since
}

impl CatchUp {
    /// The pass that starts from what the sync state holds.
    pub fn start(last_sync_ts: i64, cursor: Option<String>) -> (state: Self)
        ensures
            state.last_sync_ts == last_sync_ts,
            state.cursor == cursor,
    {
        CatchUp { cursor, last_sync_ts }
    }

    /// What the hub is asked next: [`BATCH_SIZE`] messages from the time
    /// that the sync state holds, with the cursor that it holds.
    pub fn next_request(&self) -> (request: PageRequest)
        ensures
            request.since == self.last_sync_ts,
            request.limit == BATCH_SIZE,
            request.cursor == self.cursor,
    {
        PageRequest {
            since: self.last_sync_ts,
            limit: BATCH_SIZE,
            cursor: crate::models::clone_text(&self.cursor),
        }
    }

    /// Whether a page holds anything to index. An empty page ends the pass
    /// and leaves the sync state as it is.
    pub fn has_work(page: &SyncMessagesResponse) -> (b: bool)
        ensures
            b == (page.messages@.len() > 0),
    {
        page.messages.len() > 0
    }

    /// Takes note that a page has been indexed: the time moves to that of
    /// the page's last message, the cursor to the page's cursor if it has
    /// one, and the pass goes on if the hub has more. For an empty page
    /// there is nothing to take note of, and the pass ends. The time does
    /// not move back when the page holds what was asked for.
    pub fn advance(&mut self, page: &SyncMessagesResponse) -> (step: Option<PageStep>)
        ensures
            *final(self) == advanced(*old(self), *page),
            page.messages@.len() == 0 <==> step is None,
            step matches Some(s) ==> s.write_last_sync_ts == page.messages@.last().created_at
                && s.write_cursor == page.cursor && s.fetch_more == page.has_more,
            page_respects(*page, old(self).last_sync_ts) ==> final(self).last_sync_ts >= old(
                self,
            ).last_sync_ts,
    {
        if page.messages.len() == 0 {
            return None;
        }
        let last = &page.messages[page.messages.len() - 1];
        self.last_sync_ts = last.created_at;
        let write_cursor = crate::models::clone_text(&page.cursor);
        if let Some(c) = &page.cursor {
            self.cursor = Some(c.clone());
        }
        Some(
            PageStep { write_last_sync_ts: last.created_at, write_cursor, fetch_more: page.has_more },
        )
    }
}

/// The state of a pass after the pages have been indexed one after another.
pub open spec fn after_pages(state: CatchUp, pages: Seq<SyncMessagesResponse>) -> CatchUp
    decreases pages.len(),
{
    if pages.len() == 0 {
        state
    } else {
        advanced(after_pages(state, pages.drop_last()), pages.last())
    }
}

/// Whether each of the pages holds what it was asked for: every message of
/// a page was written at or after the time that the sync state held when
/// the page was asked for.
pub open spec fn pages_respect(state: CatchUp, pages: Seq<SyncMessagesResponse>) -> bool
    decreases pages.len(),
{
    if pages.len() == 0 {
        true
    } else {
        pages_respect(state, pages.drop_last()) && page_respects(
            pages.last(),
            after_pages(state, pages.drop_last()).last_sync_ts,
        )
    }
}

/// A catch-up pass never moves the sync time back.
///
/// When each page holds what it was asked for, the time that the sync
/// state holds after the pass is at least the time it held before.
pub proof fn lemma_catch_up_is_monotone(state: CatchUp, pages: Seq<SyncMessagesResponse>)
    requires
        pages_respect(state, pages),
    ensures
        after_pages(state, pages).last_sync_ts >= state.last_sync_ts,
    decreases pages.len(),
{
    if pages.len() > 0 {
        let page = pages.last();
        lemma_catch_up_is_monotone(state, pages.drop_last());
        if page.messages@.len() > 0 {
            assert(page.messages@.last() == page.messages@[page.messages@.len() - 1]);
        }
    }
}

/// What the indexer was doing when the search engine refused documents.
#[derive(Debug, Clone, Copy, PartialEq, Eq)]
pub enum SyncMode {
    /// The catch-up pass.
    CatchUp,
    /// Following the live stream.
    Live,
}

/// What follows when the search engine refuses documents.
#[derive(Debug, Clone, Copy, PartialEq, Eq)]
pub enum FailureAction {
    /// End the pass with the error; the sync state stays as it was after
    /// the last page that was indexed.
    EndPass,
    /// Log the error and go on with the next event.
    LogAndContinue,
}

/// Decides what follows when the search engine refuses documents: the
/// catch-up pass ends with the error, the live stream goes on.
pub fn on_index_failure(mode: SyncMode) -> (action: FailureAction)
    ensures
        action == match mode {
            SyncMode::CatchUp => FailureAction::EndPass,
            SyncMode::Live => FailureAction::LogAndContinue,
        },
{
    match mode {
        SyncMode::CatchUp => FailureAction::EndPass,
        SyncMode::Live => FailureAction::LogAndContinue,
    }
}

/// What an event of the live stream asks for.
#[derive(Debug)]
pub enum LiveAction {
    /// Index this message as a batch of one.
    Index(SyncMessage),
    /// Fetch all sessions again.
    RefreshSessions,
    /// Delete the documents of this session; the cache has forgotten it.
    DeleteSession(String),
    /// Nothing.
    Nothing,
}

/// The message of a `message-received` event, with position zero when the
/// event names none.
pub open spec fn received(session_id: String, message: crate::models::SseMessage) -> SyncMessage {
    SyncMessage {
        id: message.id,
        session_id,
        seq: match message.seq {
            Some(n) => n,
            None => 0,
        },
        content: message.content,
        created_at: message.created_at,
    }
}

/// The order in which the indexer starts.
#[derive(Debug, Clone, Copy, PartialEq, Eq)]
pub enum Phase {
    /// Create and configure the search index.
    InitIndex,
    /// Fetch all sessions, so that documents can carry their names.
    SeedSessions,
    /// Index what was written since the last run.
    CatchUp,
    /// Follow the event stream.
    Live,
}

impl Phase {
    /// The phase that follows this one; the live phase has no end.
    pub fn next(self) -> (following: Phase)
        ensures
            following == match self {
                Phase::InitIndex => Phase::SeedSessions,
                Phase::SeedSessions => Phase::CatchUp,
                Phase::CatchUp => Phase::Live,
                Phase::Live => Phase::Live,
            },
    {
        match self {
            Phase::InitIndex => Phase::SeedSessions,
            Phase::SeedSessions => Phase::CatchUp,
            Phase::CatchUp => Phase::Live,
            Phase::Live => Phase::Live,
        }
    }
}

/// The indexer's orchestrator, without the services it drives.
pub struct Syncer {
    pub hub: HubClient,
    pub hapi_url: String,
}

impl Syncer {
    /// An orchestrator for this hub; trailing slashes of the address that
    /// sessions are linked under are dropped.
    pub fn new(hub: HubClient, hapi_url: &str) -> (syncer: Self)
        ensures
            syncer.hub == hub,
            syncer.hapi_url@ == without_trailing_slashes(hapi_url@),
    {
        Syncer { hub, hapi_url: trim_trailing_slashes(hapi_url) }
    }

    /// The phase in which the indexer starts.
    pub fn first_phase() -> (phase: Phase)
        ensures
            phase == Phase::InitIndex,
    {
        Phase::InitIndex
    }

    /// Plans the indexing of a batch of messages against the sessions known.
    pub fn process_messages(&self, messages: &[SyncMessage]) -> (windows: Vec<EmbedWindow>)
        ensures
            window_views(windows@) == planned(sync_views(messages@), self.hub.sessions@),
    {
        plan_batch(messages, &self.hub.sessions)
    }

    /// Decides what an event of the live stream asks for. A removed session
    /// is forgotten at once.
    pub fn on_event(&mut self, event: SseEvent) -> (action: LiveAction)
        ensures
            final(self).hapi_url == old(self).hapi_url,
            is_live_step(old(self).hub, event, final(self).hub, action),
    {
        on_live_event(&mut self.hub, event)
    }
}

/// Whether `action` and the hub `after` are what `event` asks of the hub `before`.
pub open spec fn is_live_step(
    before: HubClient,
    event: SseEvent,
    after: HubClient,
    action: LiveAction,
) -> bool {
    match event {
        SseEvent::MessageReceived { session_id, message } => {
            &&& action == LiveAction::Index(received(session_id, message))
            &&& after == before
        },
        SseEvent::SessionUpdated { session_id } => {
            &&& action is RefreshSessions
            &&& after == before
        },
        SseEvent::SessionRemoved { session_id } => {
            &&& action == LiveAction::DeleteSession(session_id)
            &&& after.sessions@ == before.sessions@.remove(session_id@)
            &&& after.base_url == before.base_url
            &&& after.api_key == before.api_key
            &&& after.tokens == before.tokens
        },
        SseEvent::ConnectionChanged { data } => {
            &&& action is Nothing
            &&& after == before
        },
        SseEvent::Unknown => {
            &&& action is Nothing
            &&& after == before
        },
    }
}

/// Decides what an event of the live stream asks for: a received message is
/// indexed as a batch of one, an updated session has all sessions fetched
/// again, a removed session is forgotten at once and its documents are to
/// be deleted, and every other event asks for nothing.
pub fn on_live_event(hub: &mut HubClient, event: SseEvent) -> (action: LiveAction)
    ensures
        is_live_step(*old(hub), event, *final(hub), action),
{
    match event {
        SseEvent::MessageReceived { session_id, message } => {
            let seq = match message.seq {
                Some(n) => n,
                None => 0,
            };
            LiveAction::Index(
                SyncMessage {
                    id: message.id,
                    session_id,
                    seq,
                    content: message.content,
                    created_at: message.created_at,
                },
            )
        },
        SseEvent::SessionUpdated { session_id } => LiveAction::RefreshSessions,
        SseEvent::SessionRemoved { session_id } => {
            hub.remove_session(session_id.as_str());
            LiveAction::DeleteSession(session_id)
        },
        SseEvent::ConnectionChanged { data } => LiveAction::Nothing,
        SseEvent::Unknown => LiveAction::Nothing,
    }
}

} // verus!
