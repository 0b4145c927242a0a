//! The error type of the library and its messages.

use vstd::prelude::*;
use crate::text::{push_signed_decimal, signed_decimal};

verus! {

/// Failures reported by the wrapper.
#[derive(Clone, Copy, Debug, PartialEq, Eq, Structural)]
pub enum Error {
    ModelLoadFailed,
    ContextInitFailed,
    SamplerInitFailed,
    InvalidCString,
    InvalidInput,
    TokenizationFailed,
    DetokenizationFailed,
    ChatTemplateFailed,
    DecodeFailed(i32),
    EncodeFailed(i32),
    EmbeddingUnavailable,
    RerankUnavailable,
    ProjectorInvalid,
}

/// Results of the wrapper's fallible operations.
pub type Result<T> = core::result::Result<T, Error>;

/// The human-readable description of an error.
pub open spec fn error_message(e: Error) -> Seq<char> {
    match e {
        Error::ModelLoadFailed => "failed to load llama.cpp model"@,
        Error::ContextInitFailed => "failed to initialize llama.cpp context"@,
        Error::SamplerInitFailed => "failed to initialize llama.cpp sampler"@,
        Error::InvalidCString => "input contains an interior nul byte"@,
        Error::InvalidInput => "invalid wwama input"@,
        Error::TokenizationFailed => "llama.cpp tokenization failed"@,
        Error::DetokenizationFailed => "llama.cpp detokenization failed"@,
        Error::ChatTemplateFailed => "llama.cpp chat template application failed"@,
        Error::DecodeFailed(code) => "llama.cpp decode failed with status "@ + signed_decimal(
            code as int,
        ),
        Error::EncodeFailed(code) => "llama.cpp encode failed with status "@ + signed_decimal(
            code as int,
        ),
        Error::EmbeddingUnavailable => "llama.cpp did not return an embedding vector"@,
        Error::RerankUnavailable => "llama.cpp reranking requires embeddings enabled with rank pooling"@,
        Error::ProjectorInvalid => "invalid rerank projector"@,
    }
}

impl Error {
    /// The text that describes this error.
    pub fn message(&self) -> (s: String)
        ensures
            s@ == error_message(*self),
    {
        let mut s = String::new();
        match self {
            Error::ModelLoadFailed => s.append("failed to load llama.cpp model"),
            Error::ContextInitFailed => s.append("failed to initialize llama.cpp context"),
            Error::SamplerInitFailed => s.append("failed to initialize llama.cpp sampler"),
            Error::InvalidCString => s.append("input contains an interior nul byte"),
            Error::InvalidInput => s.append("invalid wwama input"),
            Error::TokenizationFailed => s.append("llama.cpp tokenization failed"),
            Error::DetokenizationFailed => s.append("llama.cpp detokenization failed"),
            Error::ChatTemplateFailed => s.append("llama.cpp chat template application failed"),
            Error::DecodeFailed(code) => {
                s.append("llama.cpp decode failed with status ");
                push_signed_decimal(&mut s, *code);
            },
            Error::EncodeFailed(code) => {
                s.append("llama.cpp encode failed with status ");
                push_signed_decimal(&mut s, *code);
            },
            Error::EmbeddingUnavailable => s.append("llama.cpp did not return an embedding vector"),
            Error::RerankUnavailable => s.append(
                "llama.cpp reranking requires embeddings enabled with rank pooling",
            ),
            Error::ProjectorInvalid => s.append("invalid rerank projector"),
        }
        assert(s@ =~= error_message(*self));
        s
    }
}

} // verus!
