//! Settings.

use vstd::prelude::*;

verus! {

/// Settings of the embedding client.
#[derive(Debug)]
pub struct EmbeddingConfig {
    /// `openai` for any OpenAI-compatible endpoint; anything else is Voyage.
    pub provider: String,
    pub model: String,
    pub base_url: Option<String>,
    pub api_keys: Vec<String>,
    /// Texts per request.
    pub embed_batch_size: usize,
}

/// Settings of the reranker by embedding similarity.
#[derive(Debug)]
pub struct RerankConfig {
    pub model: String,
    pub base_url: Option<String>,
    pub api_keys: Vec<String>,
}

/// Settings of the language model.
#[derive(Debug)]
pub struct LlmConfig {
    pub provider: String,
    pub rerank_model: String,
    pub api_keys: Vec<String>,
    pub use_structured_output: bool,
}

} // verus!
