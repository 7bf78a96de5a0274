//! The requests that the indexer sends to the embedding server. The
//! vectors themselves are numbers that the library never looks into.

use vstd::prelude::*;
use crate::json::{
    member_text, member_value, object, text_member, value_member, Json, JsonView, Member,
};
use crate::text::{owned, trim_trailing_slashes, without_trailing_slashes};

verus! {

/// The embedding server as the indexer addresses it.
#[derive(Debug, Clone)]
pub struct Embedder {
    pub url: String,
    pub model: String,
}

/// Why a query has no vector.
#[derive(Debug, Clone, Copy, PartialEq, Eq)]
pub enum EmbedError {
    /// The server returned no vector.
    NoEmbedding,
}

/// The body of an embedding request: the model and the texts.
pub open spec fn embed_body(model: Seq<char>, inputs: Seq<String>) -> JsonView {
    JsonView::Object(
        seq![
            text_member("model"@, model),
            value_member(
                "input"@,
                JsonView::Array(inputs.map_values(|s: String| JsonView::Text(s@))),
            ),
        ],
    )
}

impl Embedder {
    /// The server at `url`, whose trailing slashes are dropped.
    pub fn new(url: &str, model: &str) -> (embedder: Self)
        ensures
            embedder.url@ == without_trailing_slashes(url@),
            embedder.model@ == model@,
    {
        Embedder { url: trim_trailing_slashes(url), model: owned(model) }
    }

    /// The address of embedding requests.
    pub fn endpoint(&self) -> (url: String)
        ensures
            url@ == self.url@ + "/api/embed"@,
    {
        let mut url = self.url.clone();
        url.push_str("/api/embed");
        url
    }

    /// The body of the request that embeds `texts`, or `None` when there is
    /// nothing to embed: then no request is sent and the result is empty.
    pub fn embed(&self, texts: &[String]) -> (body: Option<Json>)
        ensures
            texts@.len() == 0 ==> body is None,
            texts@.len() > 0 ==> (body matches Some(b) && b@ == embed_body(self.model@, texts@)),
    {
        if texts.len() == 0 {
            return None;
        }
        let mut inputs: Vec<Json> = Vec::new();
        let mut i: usize = 0;
        while i < texts.len()
            invariant
                i <= texts.len(),
                inputs.len() == i,
                forall|k: int| 0 <= k < i ==> (#[trigger] inputs@[k])@ == JsonView::Text(texts@[k]@),
            decreases texts.len() - i,
        {
            inputs.push(Json::Text(texts[i].clone()));
            i += 1;
        }
        let list = Json::Array(inputs);
        assert(list@->Array_0 =~= texts@.map_values(|s: String| JsonView::Text(s@)));
        let mut members: Vec<Member> = Vec::new();
        members.push(member_text("model", self.model.as_str()));
        members.push(member_value("input", list));
        let body = object(members);
        assert(body@->Object_0 =~= embed_body(self.model@, texts@)->Object_0);
        Some(body)
    }

    /// Which of the vectors that came back for a query is the query's: the
    /// first. A query for which none came back has no vector.
    pub fn embed_query(vector_count: usize) -> (r: Result<usize, EmbedError>)
        ensures
            vector_count > 0 ==> r == Ok::<usize, EmbedError>(0),
            vector_count == 0 ==> r == Err::<usize, EmbedError>(EmbedError::NoEmbedding),
    {
        if vector_count > 0 {
            Ok(0)
        } else {
            Err(EmbedError::NoEmbedding)
        }
    }
}

} // verus!
