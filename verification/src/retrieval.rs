//! Retrieval over the notes: what a retrieval reports, the capabilities the
//! configuration allows, and how each returned passage says where it was found.
use vstd::prelude::*;
use crate::models::{ModelConfig, EndpointConfig};
use crate::text::{chars_of, string_of};

verus! {

/// How a retrieval went (shown to the user, and for tracing problems).
#[derive(Debug, Clone, Default)]
pub struct RetrievalTrace {
    /// `fts`, `hybrid` or `hybrid+rerank`
    pub mode: String,
    pub fts_hits: usize,
    pub vector_hits: usize,
    pub reranked: bool,
    /// why something was skipped, for the user
    pub degraded: Vec<String>,
    pub elapsed_ms: u64,
}

/// What retrieval can do now.
#[derive(Debug, Clone, Default)]
pub struct RetrievalStatus {
    pub chunks: i64,
    pub vectors: i64,
    pub pending: i64,
    pub embed_model: String,
    pub rerank_model: String,
    pub chat_model: String,
    pub has_chat: bool,
    pub has_embedding: bool,
    pub has_rerank: bool,
    /// an embedding model is set and vectors exist
    pub vector_ready: bool,
}

/// The model of an optional endpoint, empty when absent.
pub open spec fn model_of(e: Option<EndpointConfig>) -> Seq<char> {
    match e {
        Some(c) => c.model@,
        None => seq![],
    }
}

fn model_of_exec(e: &Option<EndpointConfig>) -> (r: String)
    ensures
        r@ == model_of(*e),
{
    match e {
        Some(c) => string_of(chars_of(c.model.as_str()).as_slice()),
        None => String::new(),
    }
}

/// The status from the configuration and the index counts: chunks, vectors
/// of the embedding model and chunks still without one.
pub fn status_from(cfg: &ModelConfig, chunks: i64, vectors: i64, pending: i64) -> (r: RetrievalStatus)
    ensures
        r.chunks == chunks,
        r.vectors == vectors,
        r.pending == pending,
        r.embed_model@ == model_of(cfg.embedding),
        r.rerank_model@ == model_of(cfg.rerank),
        r.chat_model@ == model_of(cfg.chat),
        r.has_chat == cfg.chat is Some,
        r.has_embedding == cfg.embedding is Some,
        r.has_rerank == cfg.rerank is Some,
        r.vector_ready == (cfg.embedding is Some && vectors > 0),
{
    RetrievalStatus {
        chunks,
        vectors,
        pending,
        embed_model: model_of_exec(&cfg.embedding),
        rerank_model: model_of_exec(&cfg.rerank),
        chat_model: model_of_exec(&cfg.chat),
        has_chat: cfg.chat.is_some(),
        has_embedding: cfg.embedding.is_some(),
        has_rerank: cfg.rerank.is_some(),
        vector_ready: cfg.embedding.is_some() && vectors > 0,
    }
}

/// The mode a retrieval ran in.
pub fn retrieval_mode(reranked: bool, vector_hits: usize) -> (r: String)
    ensures
        r@ == if reranked {
            "hybrid+rerank"@
        } else if vector_hits > 0 {
            "hybrid"@
        } else {
            "fts"@
        },
{
    let s = if reranked {
        "hybrid+rerank"
    } else if vector_hits > 0 {
        "hybrid"
    } else {
        "fts"
    };
    string_of(chars_of(s).as_slice())
}

fn has_id(ids: &[i64], id: i64) -> (b: bool)
    ensures
        b == ids@.contains(id),
{
    let mut i: usize = 0;
    while i < ids.len()
        invariant
            i <= ids@.len(),
            forall|k: int| 0 <= k < i ==> ids@[k] != id,
        decreases ids@.len() - i,
    {
        if ids[i] == id {
            assert(ids@[i as int] == id);
            return true;
        }
        i = i + 1;
    }
    false
}

/// Where a returned passage was found: full text, vectors, and whether the
/// reranker ordered it, in that order.
pub open spec fn sources_s(id: i64, fts_hits: Seq<i64>, vector_hits: Seq<i64>, reranked: bool) -> Seq<
    Seq<char>,
> {
    (if fts_hits.contains(id) {
        seq!["fts"@]
    } else {
        seq![]
    }) + (if vector_hits.contains(id) {
        seq!["vector"@]
    } else {
        seq![]
    }) + (if reranked {
        seq!["rerank"@]
    } else {
        seq![]
    })
}

/// The sources of the passage `id`.
pub fn chunk_sources(id: i64, fts_hits: &[i64], vector_hits: &[i64], reranked: bool) -> (r: Vec<String>)
    ensures
        crate::text::str_views(r@) == sources_s(id, fts_hits@, vector_hits@, reranked),
{
    let mut r: Vec<String> = Vec::new();
    let f = has_id(fts_hits, id);
    let v = has_id(vector_hits, id);
    if f {
        r.push(string_of(chars_of("fts").as_slice()));
    }
    let ghost r1 = r@;
    if v {
        r.push(string_of(chars_of("vector").as_slice()));
    }
    let ghost r2 = r@;
    if reranked {
        r.push(string_of(chars_of("rerank").as_slice()));
    }
    assert(crate::text::str_views(r@) =~= sources_s(id, fts_hits@, vector_hits@, reranked));
    r
}

/// Candidates asked of the full-text index: between 1 and 200.
pub fn fts_limit(limit: usize) -> (r: i64)
    ensures
        r == if limit < 1 {
            1
        } else if limit > 200 {
            200
        } else {
            limit as int
        },
{
    if limit < 1 {
        1
    } else if limit > 200 {
        200
    } else {
        limit as i64
    }
}

} // verus!
