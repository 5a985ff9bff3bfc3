//! What is known of the OpenAI embedding models without asking the service.

use vstd::prelude::*;
use crate::chunking::text::{chars_of, is_text};

verus! {

/// Tokens that a known model takes.
pub const CONTEXT_OF_KNOWN_MODELS: usize = 8191;

/// Tokens that any other model is taken to take.
pub const CONTEXT_OF_OTHER_MODELS: usize = 2048;

/// The model is one of the three whose sizes are known.
pub open spec fn is_known_model(model: Seq<char>) -> bool {
    ||| model == "text-embedding-ada-002"@
    ||| model == "text-embedding-3-small"@
    ||| model == "text-embedding-3-large"@
}

/// Tokens that `model` takes: 8191 for the known models, 2048 for any other.
pub open spec fn context_length_of(model: Seq<char>) -> usize {
    if is_known_model(model) {
        CONTEXT_OF_KNOWN_MODELS
    } else {
        CONTEXT_OF_OTHER_MODELS
    }
}

/// Numbers in an embedding of `model`, where the model is known: 3072 for
/// the large model, 1536 for the other two.
pub open spec fn embed_length_of(model: Seq<char>) -> Option<usize> {
    if model == "text-embedding-ada-002"@ || model == "text-embedding-3-small"@ {
        Some(1536usize)
    } else if model == "text-embedding-3-large"@ {
        Some(3072usize)
    } else {
        None
    }
}

/// Tokens that `model` takes.
pub fn openai_context_length(model: &str) -> (length: usize)
    ensures
        length == context_length_of(model@),
{
    let name = chars_of(model);
    if is_text(&name, "text-embedding-ada-002") || is_text(&name, "text-embedding-3-small")
        || is_text(&name, "text-embedding-3-large") {
        CONTEXT_OF_KNOWN_MODELS
    } else {
        CONTEXT_OF_OTHER_MODELS
    }
}

/// Numbers in an embedding of `model`; `None` for a model that has to be
/// asked.
pub fn openai_embed_length(model: &str) -> (length: Option<usize>)
    ensures
        length == embed_length_of(model@),
{
    let name = chars_of(model);
    if is_text(&name, "text-embedding-ada-002") || is_text(&name, "text-embedding-3-small") {
        Some(1536)
    } else if is_text(&name, "text-embedding-3-large") {
        Some(3072)
    } else {
        None
    }
}

} // verus!
