//! Language-model providers: what a completion returns or why it failed,
//! and the configuration of each backend.

use vstd::prelude::*;

pub mod anthropic;
pub mod llama;
pub mod openai;

verus! {

/// Why a completion failed.
#[derive(Debug, Clone, PartialEq, Eq)]
pub enum CompletionError {
    InvalidArgument(String),
    /// The provider's name and the error it reported.
    ApiError(String, String),
    StreamError(String),
    InvalidResponse(String),
    UnknownError(String),
}

/// A whole completion.
#[derive(Debug, Clone, PartialEq, Eq)]
pub struct CompletionResponse {
    pub id: String,
    pub content: String,
}

/// One piece of a streamed completion.
#[derive(Debug, Clone, PartialEq, Eq)]
pub struct CompletionResponseDelta {
    pub id: String,
    pub content: String,
}

} // verus!
