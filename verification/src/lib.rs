//! Verified core of a wrapper around the `llama.cpp` C API.
//!
//! The library holds the decisions that surround the C calls: option
//! defaults, the buffer-growth protocols of the tokenizer and template calls,
//! batch planning, rerank prompt construction and ranking, the safetensors
//! header reader used for rerank projectors, and the path helpers of the
//! build.

pub mod buffer;
pub mod build_support;
pub mod bytes;
pub mod error;
pub mod options;
pub mod raw;
pub mod rerank;
pub mod safetensors;
pub mod session;
pub mod text;

pub use error::{Error, Result};
pub use options::{ChatMessage, EmbeddingOptions, GenerateOutput, RerankOptions, SessionOptions};
pub use raw::{
    ggml_type, llama_attention_type, llama_context_type, llama_flash_attn_type,
    llama_pooling_type, llama_pos, llama_rope_scaling_type, llama_sampler_chain_params,
    llama_seq_id, llama_split_mode, llama_token, LLAMA_DEFAULT_SEED, LLAMA_TOKEN_NULL,
};
pub use safetensors::JinaRerankProjector;
pub use session::{Context, Model, Session};
