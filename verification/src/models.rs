//! Data that travels between the hub, the indexer and the search engine.

use vstd::prelude::*;
use crate::json::Json;

verus! {

/// A message as the hub's sync API delivers it.
#[derive(Debug, Clone)]
pub struct SyncMessage {
    pub id: String,
    pub session_id: String,
    /// The position of the message in its session; it only grows.
    pub seq: i64,
    /// The message's content, whose shape depends on who wrote it.
    pub content: Json,
    /// When the message was written, in milliseconds since the epoch.
    pub created_at: i64,
}

/// The one-line summary of a session.
#[derive(Debug)]
pub struct SummaryText {
    pub text: String,
}

/// What the hub knows about a session besides its messages.
#[derive(Debug, Default)]
pub struct SessionMetadata {
    pub name: Option<String>,
    pub path: Option<String>,
    pub summary: Option<SummaryText>,
    pub flavor: Option<String>,
    pub machine_id: Option<String>,
}

/// A session as the hub's sync API delivers it.
#[derive(Debug)]
pub struct SyncSession {
    pub id: String,
    pub namespace: Option<String>,
    pub metadata: Option<SessionMetadata>,
    pub created_at: i64,
    pub updated_at: i64,
    pub active: bool,
}

/// A copy of an optional string.
pub fn clone_text(o: &Option<String>) -> (r: Option<String>)
    ensures
        r == *o,
{
    match o {
        Some(s) => Some(s.clone()),
        None => None,
    }
}

impl Clone for SummaryText {
    fn clone(&self) -> (r: Self)
        ensures
            r == *self,
    {
        SummaryText { text: self.text.clone() }
    }
}

impl Clone for SessionMetadata {
    fn clone(&self) -> (r: Self)
        ensures
            r == *self,
    {
        SessionMetadata {
            name: clone_text(&self.name),
            path: clone_text(&self.path),
            summary: match &self.summary {
                Some(t) => Some(t.clone()),
                None => None,
            },
            flavor: clone_text(&self.flavor),
            machine_id: clone_text(&self.machine_id),
        }
    }
}

impl Clone for SyncSession {
    fn clone(&self) -> (r: Self)
        ensures
            r == *self,
    {
        SyncSession {
            id: self.id.clone(),
            namespace: clone_text(&self.namespace),
            metadata: match &self.metadata {
                Some(m) => Some(m.clone()),
                None => None,
            },
            created_at: self.created_at,
            updated_at: self.updated_at,
            active: self.active,
        }
    }
}

/// One page of the hub's messages.
#[derive(Debug)]
pub struct SyncMessagesResponse {
    pub messages: Vec<SyncMessage>,
    /// Where the next page starts; handed back to the hub unchanged.
    pub cursor: Option<String>,
    pub has_more: bool,
}

/// The hub's answer to a request for sessions.
#[derive(Debug)]
pub struct SyncSessionsResponse {
    pub sessions: Vec<SyncSession>,
}

/// A message as it arrives on the hub's event stream.
#[derive(Debug)]
pub struct SseMessage {
    pub id: String,
    pub seq: Option<i64>,
    pub content: Json,
    pub created_at: i64,
}

/// An event of the hub's event stream.
#[derive(Debug)]
pub enum SseEvent {
    MessageReceived { session_id: String, message: SseMessage },
    SessionUpdated { session_id: String },
    SessionRemoved { session_id: String },
    ConnectionChanged { data: Json },
    /// An event of a kind that the indexer does not know.
    Unknown,
}

/// A chunk as the search engine stores it, without its embedding vector.
#[derive(Debug, Clone)]
pub struct SearchDocument {
    pub id: String,
    pub message_id: String,
    pub session_id: String,
    pub seq: i64,
    pub role: String,
    pub text: String,
    pub session_name: String,
    pub session_path: String,
    pub session_flavor: String,
    pub created_at: i64,
}

/// What a [`SearchDocument`] holds, as mathematical values.
pub struct DocumentView {
    pub id: Seq<char>,
    pub message_id: Seq<char>,
    pub session_id: Seq<char>,
    pub seq: int,
    pub role: Seq<char>,
    pub text: Seq<char>,
    pub session_name: Seq<char>,
    pub session_path: Seq<char>,
    pub session_flavor: Seq<char>,
    pub created_at: int,
}

impl View for SearchDocument {
    type V = DocumentView;

    open spec fn view(&self) -> DocumentView {
        DocumentView {
            id: self.id@,
            message_id: self.message_id@,
            session_id: self.session_id@,
            seq: self.seq as int,
            role: self.role@,
            text: self.text@,
            session_name: self.session_name@,
            session_path: self.session_path@,
            session_flavor: self.session_flavor@,
            created_at: self.created_at as int,
        }
    }
}

/// The views of a run of documents.
pub open spec fn document_views(docs: Seq<SearchDocument>) -> Seq<DocumentView> {
    docs.map_values(|d: SearchDocument| d@)
}

/// A piece of text taken from a message, tagged with the role that wrote it.
///
/// The role is one of `user`, `assistant`, `tool`, `tool_result` or `unknown`.
#[derive(Debug, Clone)]
pub struct TextSegment {
    pub role: String,
    pub text: String,
}

/// What a [`TextSegment`] holds, as mathematical values.
pub struct SegmentView {
    pub role: Seq<char>,
    pub text: Seq<char>,
}

impl View for TextSegment {
    type V = SegmentView;

    open spec fn view(&self) -> SegmentView {
        SegmentView { role: self.role@, text: self.text@ }
    }
}

/// The views of a run of segments.
pub open spec fn segment_views(segments: Seq<TextSegment>) -> Seq<SegmentView> {
    segments.map_values(|s: TextSegment| s@)
}

/// A slice of one session's conversation, sized for one embedding call.
#[derive(Debug, Clone)]
pub struct TextChunk {
    pub message_id: String,
    pub session_id: String,
    pub seq: i64,
    pub created_at: i64,
    pub role: String,
    pub text: String,
    pub chunk_index: usize,
}

/// What a [`TextChunk`] holds, as mathematical values.
pub struct ChunkView {
    pub message_id: Seq<char>,
    pub session_id: Seq<char>,
    pub seq: int,
    pub created_at: int,
    pub role: Seq<char>,
    pub text: Seq<char>,
    pub chunk_index: nat,
}

impl View for TextChunk {
    type V = ChunkView;

    open spec fn view(&self) -> ChunkView {
        ChunkView {
            message_id: self.message_id@,
            session_id: self.session_id@,
            seq: self.seq as int,
            created_at: self.created_at as int,
            role: self.role@,
            text: self.text@,
            chunk_index: self.chunk_index as nat,
        }
    }
}

/// The views of a run of chunks.
pub open spec fn chunk_views(chunks: Seq<TextChunk>) -> Seq<ChunkView> {
    chunks.map_values(|c: TextChunk| c@)
}


/// The session that a search hit belongs to.
#[derive(Debug, Clone)]
pub struct SearchHitSession {
    pub id: String,
    pub name: String,
    pub path: String,
    pub flavor: String,
    pub url: String,
}

/// One search result.
///
/// A score is held as an integer key that orders as the score does: of two
/// hits, the one with the larger key has the larger score.
#[derive(Debug, Clone)]
pub struct SearchHit {
    pub text: String,
    pub role: String,
    pub message_id: String,
    pub seq: i64,
    pub created_at: i64,
    pub session: SearchHitSession,
    pub score: u64,
    pub semantic_score: Option<u64>,
    pub keyword_score: Option<u64>,
}

/// What a search returns: one hit per session, best first.
#[derive(Debug)]
pub struct SearchResponse {
    pub query: String,
    pub hits: Vec<SearchHit>,
    pub total_hits: usize,
    pub processing_time_ms: u64,
}

} // verus!
