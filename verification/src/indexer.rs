//! The requests that the indexer sends to the search engine, and how it
//! reads the engine's answers. Sending is left to the caller.

use vstd::prelude::*;
use crate::json::{
    member_number, member_text, member_value, number_member, object, text_list, text_member,
    value_member, Json, JsonNumber, JsonView, Member, MemberView, NumberView,
};
use crate::text::{
    chars_of, contains_chars, is_substring, owned, trim_trailing_slashes,
    without_trailing_slashes,
};

verus! {

/// The name of the index.
pub const INDEX_NAME: &'static str = "hapi-messages";

/// The name of the embedder.
pub const EMBEDDER_NAME: &'static str = "bge";

/// The length of an embedding vector.
pub const EMBEDDING_DIMENSIONS: u64 = 1024;

/// The share of the score that the vector search decides, as decimal text.
pub const SEMANTIC_RATIO: &'static str = "0.9";

/// How many seconds the indexer waits for the index to be created.
pub const CREATE_WAIT_SECS: u64 = 1;

/// What the engine says in the body of its answer when the index is there already.
pub const ALREADY_EXISTS: &'static str = "already_exists";

/// How many documents the index holds.
#[derive(Debug, Clone, Copy, PartialEq, Eq)]
pub struct IndexStats {
    pub number_of_documents: usize,
}

/// The kind of a request.
#[derive(Debug, Clone, Copy, PartialEq, Eq)]
pub enum Method {
    Get,
    Post,
    Patch,
}

/// A request to the engine. Every request says that its content is JSON.
#[derive(Debug)]
pub struct EngineRequest {
    pub method: Method,
    pub url: String,
    /// The value of the `Authorization` header, when a key is configured.
    pub authorization: Option<String>,
    /// The body, when the library builds it.
    pub body: Option<Json>,
}

/// Whether a status code says that the request succeeded.
pub open spec fn is_success(status: u16) -> bool {
    200 <= status < 300
}

/// Tells whether a status code says that the request succeeded.
pub fn status_is_success(status: u16) -> (b: bool)
    ensures
        b == is_success(status),
{
    200 <= status && status < 300
}

/// The steps that set the index up, in order.
#[derive(Debug, Clone, Copy, PartialEq, Eq)]
pub enum SetupStep {
    /// Switch the engine's vector store on.
    EnableVectorStore,
    /// Create the index.
    CreateIndex,
    /// Wait [`CREATE_WAIT_SECS`] for the index to be created.
    WaitForIndex,
    /// Write the index's settings.
    Configure,
    /// The index is ready.
    Done,
}

/// Why the index could not be set up; each holds the body of the engine's answer.
#[derive(Debug)]
pub enum SetupError {
    VectorStoreRefused(String),
    CreateRefused { status: u16, body: String },
    SettingsRefused(String),
}

/// Whether the engine's answer to a step lets the setup go on: a successful
/// status does, and so does any answer to the creation of the index that
/// says that the index exists.
pub open spec fn step_accepted(step: SetupStep, status: u16, body: Seq<char>) -> bool {
    match step {
        SetupStep::CreateIndex => status == 200 || status == 202 || is_substring(
            ALREADY_EXISTS@,
            body,
        ),
        SetupStep::EnableVectorStore => is_success(status),
        SetupStep::Configure => is_success(status),
        _ => true,
    }
}

/// The step after this one.
pub open spec fn step_after(step: SetupStep) -> SetupStep {
    match step {
        SetupStep::EnableVectorStore => SetupStep::CreateIndex,
        SetupStep::CreateIndex => SetupStep::WaitForIndex,
        SetupStep::WaitForIndex => SetupStep::Configure,
        SetupStep::Configure => SetupStep::Done,
        SetupStep::Done => SetupStep::Done,
    }
}

/// Decides how the setup goes on after the engine answered a step. For the
/// wait and for the end, which send nothing, status and body are not read.
pub fn after_step(step: SetupStep, status: u16, body: &str) -> (r: Result<SetupStep, SetupError>)
    ensures
        step_accepted(step, status, body@) ==> r == Ok::<SetupStep, SetupError>(step_after(step)),
        !step_accepted(step, status, body@) ==> match step {
            SetupStep::EnableVectorStore => r matches Err(SetupError::VectorStoreRefused(b)) && b@
                == body@,
            SetupStep::CreateIndex => r matches Err(SetupError::CreateRefused { status: s, body: b })
                && s == status && b@ == body@,
            _ => r matches Err(SetupError::SettingsRefused(b)) && b@ == body@,
        },
{
    match step {
        SetupStep::EnableVectorStore => if status_is_success(status) {
            Ok(SetupStep::CreateIndex)
        } else {
            Err(SetupError::VectorStoreRefused(owned(body)))
        },
        SetupStep::CreateIndex => {
            if status == 200 || status == 202 {
                Ok(SetupStep::WaitForIndex)
            } else {
                let text = chars_of(body);
                let marker = chars_of(ALREADY_EXISTS);
                if contains_chars(&text, &marker) {
                    Ok(SetupStep::WaitForIndex)
                } else {
                    Err(SetupError::CreateRefused { status, body: owned(body) })
                }
            }
        },
        SetupStep::WaitForIndex => Ok(SetupStep::Configure),
        SetupStep::Configure => if status_is_success(status) {
            Ok(SetupStep::Done)
        } else {
            Err(SetupError::SettingsRefused(owned(body)))
        },
        SetupStep::Done => Ok(SetupStep::Done),
    }
}

/// The setup passes through its steps in order and ends after four of them.
pub proof fn lemma_setup_order()
    ensures
        step_after(SetupStep::EnableVectorStore) == SetupStep::CreateIndex,
        step_after(step_after(SetupStep::EnableVectorStore)) == SetupStep::WaitForIndex,
        step_after(step_after(step_after(SetupStep::EnableVectorStore))) == SetupStep::Configure,
        step_after(step_after(step_after(step_after(SetupStep::EnableVectorStore))))
            == SetupStep::Done,
{
}

/// The body that switches the vector store on.
pub open spec fn vector_store_body() -> JsonView {
    JsonView::Object(seq![value_member("vectorStore"@, JsonView::Bool(true))])
}

/// The body that creates the index, with `id` as its primary key.
pub open spec fn create_body() -> JsonView {
    JsonView::Object(seq![text_member("uid"@, INDEX_NAME@), text_member("primaryKey"@, "id"@)])
}

/// A list of strings.
pub open spec fn texts(items: Seq<&str>) -> JsonView {
    JsonView::Array(items.map_values(|s: &str| JsonView::Text(s@)))
}

/// The settings of the index: what is searched, filtered and sorted, in
/// which languages the text is read, and the embedder that takes vectors
/// from the indexer.
pub open spec fn settings_body() -> JsonView {
    JsonView::Object(
        seq![
            value_member("searchableAttributes"@, texts(seq!["text", "sessionName", "sessionPath"])),
            value_member("filterableAttributes"@, texts(seq!["sessionId", "role", "sessionFlavor"])),
            value_member("sortableAttributes"@, texts(seq!["createdAt"])),
            value_member(
                "localizedAttributes"@,
                JsonView::Array(
                    seq![
                        JsonView::Object(
                            seq![
                                value_member(
                                    "attributePatterns"@,
                                    texts(seq!["text", "sessionName", "sessionPath"]),
                                ),
                                value_member("locales"@, texts(seq!["cmn", "eng"])),
                            ],
                        ),
                    ],
                ),
            ),
            value_member(
                "embedders"@,
                JsonView::Object(
                    seq![
                        value_member(
                            EMBEDDER_NAME@,
                            JsonView::Object(
                                seq![
                                    text_member("source"@, "userProvided"@),
                                    number_member("dimensions"@, EMBEDDING_DIMENSIONS as int),
                                ],
                            ),
                        ),
                    ],
                ),
            ),
        ],
    )
}

/// The filter that selects the documents of a session.
pub open spec fn session_filter_of(session_id: Seq<char>) -> Seq<char> {
    "sessionId = \""@ + session_id + "\""@
}

/// The body that deletes the documents of a session.
pub open spec fn delete_body(session_id: Seq<char>) -> JsonView {
    JsonView::Object(seq![text_member("filter"@, session_filter_of(session_id))])
}

/// The body of a hybrid search, without the query's vector, which the
/// caller adds under `vector`.
pub open spec fn search_body(query: Seq<char>, limit: int, offset: int) -> JsonView {
    JsonView::Object(
        seq![
            text_member("q"@, query),
            number_member("limit"@, limit),
            number_member("offset"@, offset),
            value_member("showRankingScore"@, JsonView::Bool(true)),
            value_member("showRankingScoreDetails"@, JsonView::Bool(true)),
            value_member("attributesToHighlight"@, texts(seq!["text"])),
            text_member("highlightPreTag"@, "<mark>"@),
            text_member("highlightPostTag"@, "</mark>"@),
            value_member(
                "hybrid"@,
                JsonView::Object(
                    seq![
                        value_member(
                            "semanticRatio"@,
                            JsonView::Number(NumberView::Real(SEMANTIC_RATIO@)),
                        ),
                        text_member("embedder"@, EMBEDDER_NAME@),
                    ],
                ),
            ),
        ],
    )
}

/// The text that a hit shows: the `text` of its formatted form, or nothing.
pub open spec fn highlighted_of(formatted: Option<JsonView>) -> Seq<char> {
    match formatted {
        Some(f) => f.str_or_empty("text"@),
        None => Seq::empty(),
    }
}

/// Reads the highlighted text of a hit.
pub fn highlighted_text(formatted: Option<&Json>) -> (text: String)
    ensures
        text@ == highlighted_of(
            match formatted {
                Some(f) => Some(f@),
                None => None,
            },
        ),
{
    match formatted {
        Some(f) => match f.str_at("text") {
            Some(t) => owned(t),
            None => String::new(),
        },
        None => String::new(),
    }
}

/// The number of documents that the engine's statistics tell: zero when the
/// request failed, when the answer names no number, or when the number
/// does not fit.
pub open spec fn document_count(status: u16, answer: Option<JsonView>) -> int {
    if !is_success(status) {
        0
    } else {
        match answer {
            Some(a) => match a.get("numberOfDocuments"@) {
                Some(n) => match n.as_u64() {
                    Some(c) => if c <= usize::MAX {
                        c as int
                    } else {
                        0
                    },
                    None => 0,
                },
                None => 0,
            },
            None => 0,
        }
    }
}

/// Reads the engine's statistics.
pub fn read_stats(status: u16, answer: Option<&Json>) -> (stats: IndexStats)
    ensures
        stats.number_of_documents == document_count(
            status,
            match answer {
                Some(a) => Some(a@),
                None => None,
            },
        ),
{
    let mut count: usize = 0;
    if status_is_success(status) {
        if let Some(a) = answer {
            if let Some(n) = a.get("numberOfDocuments") {
                if let Some(c) = n.as_u64() {
                    if c <= usize::MAX as u64 {
                        count = c as usize;
                    }
                }
            }
        }
    }
    IndexStats { number_of_documents: count }
}

/// The engine as the indexer addresses it.
#[derive(Debug)]
pub struct Indexer {
    pub base_url: String,
    pub api_key: Option<String>,
}

fn bool_member(key: &str, value: bool) -> (m: Member)
    ensures
        (MemberView { key: m.key@, value: m.value@ }) == value_member(key@, JsonView::Bool(value)),
{
    member_value(key, Json::Bool(value))
}

fn three_texts(a: &'static str, b: &'static str, c: &'static str) -> (j: Json)
    ensures
        j@ == texts(seq![a, b, c]),
{
    let items = [a, b, c];
    let j = text_list(items.as_slice());
    assert(items@ =~= seq![a, b, c]);
    j
}

fn two_texts(a: &'static str, b: &'static str) -> (j: Json)
    ensures
        j@ == texts(seq![a, b]),
{
    let items = [a, b];
    let j = text_list(items.as_slice());
    assert(items@ =~= seq![a, b]);
    j
}

fn one_text(a: &'static str) -> (j: Json)
    ensures
        j@ == texts(seq![a]),
{
    let items = [a];
    let j = text_list(items.as_slice());
    assert(items@ =~= seq![a]);
    j
}

impl Indexer {
    /// Whether a request carries the engine's key as a bearer token when
    /// there is a key, and no authorization when there is none.
    pub open spec fn authorizes(&self, r: EngineRequest) -> bool {
        match self.api_key {
            Some(k) => r.authorization matches Some(a) && a@ == "Bearer "@ + k@,
            None => r.authorization is None,
        }
    }

    /// The engine at `url`, whose trailing slashes are dropped.
    pub fn new(url: &str, api_key: Option<&str>) -> (indexer: Self)
        ensures
            indexer.base_url@ == without_trailing_slashes(url@),
            match api_key {
                Some(k) => indexer.api_key matches Some(key) && key@ == k@,
                None => indexer.api_key is None,
            },
    {
        Indexer {
            base_url: trim_trailing_slashes(url),
            api_key: match api_key {
                Some(k) => Some(owned(k)),
                None => None,
            },
        }
    }

    /// A request to `path` under the engine's address, authorized with the
    /// key when there is one.
    pub fn request(&self, method: Method, path: &str, body: Option<Json>) -> (r: EngineRequest)
        ensures
            r.method == method,
            r.url@ == self.base_url@ + path@,
            r.body == body,
            self.authorizes(r),
    {
        let mut url = self.base_url.clone();
        url.push_str(path);
        let authorization = match &self.api_key {
            Some(k) => {
                let mut a = owned("Bearer ");
                a.push_str(k.as_str());
                Some(a)
            },
            None => None,
        };
        EngineRequest { method, url, authorization, body }
    }

    /// The request that switches the vector store on.
    pub fn enable_vector_store(&self) -> (r: EngineRequest)
        ensures
            r.method == Method::Patch,
            self.authorizes(r),
            r.url@ == self.base_url@ + "/experimental-features"@,
            r.body matches Some(b) && b@ == vector_store_body(),
    {
        let mut members: Vec<Member> = Vec::new();
        members.push(bool_member("vectorStore", true));
        let body = object(members);
        assert(body@->Object_0 =~= vector_store_body()->Object_0);
        self.request(Method::Patch, "/experimental-features", Some(body))
    }

    /// The request that creates the index.
    pub fn create_index(&self) -> (r: EngineRequest)
        ensures
            r.method == Method::Post,
            self.authorizes(r),
            r.url@ == self.base_url@ + "/indexes"@,
            r.body matches Some(b) && b@ == create_body(),
    {
        let mut members: Vec<Member> = Vec::new();
        members.push(member_text("uid", INDEX_NAME));
        members.push(member_text("primaryKey", "id"));
        let body = object(members);
        assert(body@->Object_0 =~= create_body()->Object_0);
        self.request(Method::Post, "/indexes", Some(body))
    }

    /// The request that writes the index's settings.
    pub fn configure(&self) -> (r: EngineRequest)
        ensures
            r.method == Method::Patch,
            self.authorizes(r),
            r.url@ == self.base_url@ + "/indexes/hapi-messages/settings"@,
            r.body matches Some(b) && b@ == settings_body(),
    {
        let mut locale: Vec<Member> = Vec::new();
        locale.push(
            member_value("attributePatterns", three_texts("text", "sessionName", "sessionPath")),
        );
        locale.push(member_value("locales", two_texts("cmn", "eng")));
        let locale = object(locale);
        assert(locale@->Object_0 =~= seq![
            value_member("attributePatterns"@, texts(seq!["text", "sessionName", "sessionPath"])),
            value_member("locales"@, texts(seq!["cmn", "eng"])),
        ]);
        let mut localized: Vec<Json> = Vec::new();
        localized.push(locale);
        let localized = Json::Array(localized);
        assert(localized@->Array_0 =~= seq![locale@]);

        let mut embedder: Vec<Member> = Vec::new();
        embedder.push(member_text("source", "userProvided"));
        embedder.push(member_number("dimensions", EMBEDDING_DIMENSIONS));
        let embedder = object(embedder);
        assert(embedder@->Object_0 =~= seq![
            text_member("source"@, "userProvided"@),
            number_member("dimensions"@, EMBEDDING_DIMENSIONS as int),
        ]);
        let mut embedders: Vec<Member> = Vec::new();
        embedders.push(member_value(EMBEDDER_NAME, embedder));
        let embedders = object(embedders);
        assert(embedders@->Object_0 =~= seq![value_member(EMBEDDER_NAME@, embedder@)]);

        let mut members: Vec<Member> = Vec::new();
        members.push(
            member_value("searchableAttributes", three_texts("text", "sessionName", "sessionPath")),
        );
        members.push(
            member_value("filterableAttributes", three_texts("sessionId", "role", "sessionFlavor")),
        );
        members.push(member_value("sortableAttributes", one_text("createdAt")));
        members.push(member_value("localizedAttributes", localized));
        members.push(member_value("embedders", embedders));
        let body = object(members);
        assert(body@->Object_0 =~= settings_body()->Object_0);
        self.request(Method::Patch, "/indexes/hapi-messages/settings", Some(body))
    }

    /// The request that adds or replaces `count` documents, or `None` when
    /// there is none to add: then nothing is sent. The body of the request
    /// is the list of the documents with their vectors, which the caller
    /// writes.
    pub fn add_documents(&self, count: usize) -> (r: Option<EngineRequest>)
        ensures
            count == 0 <==> r is None,
            r matches Some(request) ==> {
                &&& request.method == Method::Post
                &&& request.url@ == self.base_url@ + "/indexes/hapi-messages/documents"@
                &&& request.body is None
                &&& self.authorizes(request)
            },
    {
        if count == 0 {
            None
        } else {
            Some(self.request(Method::Post, "/indexes/hapi-messages/documents", None))
        }
    }

    /// The request that deletes the documents of a session.
    pub fn delete_session_documents(&self, session_id: &str) -> (r: EngineRequest)
        ensures
            r.method == Method::Post,
            self.authorizes(r),
            r.url@ == self.base_url@ + "/indexes/hapi-messages/documents/delete"@,
            r.body matches Some(b) && b@ == delete_body(session_id@),
    {
        let mut filter = owned("sessionId = \"");
        filter.push_str(session_id);
        filter.push_str("\"");
        let mut members: Vec<Member> = Vec::new();
        members.push(member_text("filter", filter.as_str()));
        let body = object(members);
        assert(body@->Object_0 =~= delete_body(session_id@)->Object_0);
        self.request(Method::Post, "/indexes/hapi-messages/documents/delete", Some(body))
    }

    /// The request of a hybrid search. The caller adds the query's vector
    /// to the body under `vector`.
    pub fn search(&self, query: &str, limit: usize, offset: usize) -> (r: EngineRequest)
        ensures
            r.method == Method::Post,
            self.authorizes(r),
            r.url@ == self.base_url@ + "/indexes/hapi-messages/search"@,
            r.body matches Some(b) && b@ == search_body(query@, limit as int, offset as int),
    {
        let mut hybrid: Vec<Member> = Vec::new();
        let ratio = Json::Number(JsonNumber::Real(owned(SEMANTIC_RATIO)));
        hybrid.push(member_value("semanticRatio", ratio));
        hybrid.push(member_text("embedder", EMBEDDER_NAME));
        let hybrid = object(hybrid);
        assert(hybrid@->Object_0 =~= seq![
            value_member("semanticRatio"@, JsonView::Number(NumberView::Real(SEMANTIC_RATIO@))),
            text_member("embedder"@, EMBEDDER_NAME@),
        ]);
        let mut members: Vec<Member> = Vec::new();
        members.push(member_text("q", query));
        members.push(member_number("limit", limit as u64));
        members.push(member_number("offset", offset as u64));
        members.push(bool_member("showRankingScore", true));
        members.push(bool_member("showRankingScoreDetails", true));
        members.push(member_value("attributesToHighlight", one_text("text")));
        members.push(member_text("highlightPreTag", "<mark>"));
        members.push(member_text("highlightPostTag", "</mark>"));
        members.push(member_value("hybrid", hybrid));
        let body = object(members);
        assert(body@->Object_0 =~= search_body(query@, limit as int, offset as int)->Object_0);
        self.request(Method::Post, "/indexes/hapi-messages/search", Some(body))
    }

    /// The request for the index's statistics.
    pub fn get_stats(&self) -> (r: EngineRequest)
        ensures
            r.method == Method::Get,
            self.authorizes(r),
            r.url@ == self.base_url@ + "/indexes/hapi-messages/stats"@,
            r.body is None,
    {
        self.request(Method::Get, "/indexes/hapi-messages/stats", None)
    }
}

} // verus!
