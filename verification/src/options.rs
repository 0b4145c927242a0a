//! Option records for sessions, embeddings and reranking, their defaults, and
//! the plain output records.

use vstd::prelude::*;
use crate::raw::llama_pooling_type;

verus! {

/// How a session's model and context are set up.
#[derive(Clone, Debug)]
pub struct SessionOptions {
    pub n_ctx: u32,
    pub n_batch: u32,
    pub n_ubatch: u32,
    pub n_seq_max: u32,
    pub n_threads: i32,
    pub n_threads_batch: i32,
    pub n_gpu_layers: i32,
    pub embeddings: bool,
    pub pooling_type: llama_pooling_type,
}

impl Default for SessionOptions {
    fn default() -> (r: Self)
        ensures
            r == (SessionOptions {
                n_ctx: 4096,
                n_batch: 512,
                n_ubatch: 512,
                n_seq_max: 1,
                n_threads: 0,
                n_threads_batch: 0,
                n_gpu_layers: 999,
                embeddings: false,
                pooling_type: llama_pooling_type::Unspecified,
            }),
    {
        SessionOptions {
            n_ctx: 4096,
            n_batch: 512,
            n_ubatch: 512,
            n_seq_max: 1,
            n_threads: 0,
            n_threads_batch: 0,
            n_gpu_layers: 999,
            embeddings: false,
            pooling_type: llama_pooling_type::Unspecified,
        }
    }
}

/// How text is turned into an embedding.
#[derive(Clone, Debug)]
pub struct EmbeddingOptions {
    pub add_special: bool,
    pub parse_special: bool,
    pub normalize: bool,
}

impl Default for EmbeddingOptions {
    fn default() -> (r: Self)
        ensures
            r == (EmbeddingOptions { add_special: true, parse_special: true, normalize: true }),
    {
        EmbeddingOptions { add_special: true, parse_special: true, normalize: true }
    }
}

/// How a query and documents are turned into rerank prompts.
#[derive(Clone, Debug)]
pub struct RerankOptions {
    pub instruction: Option<String>,
    pub prompt_template: Option<String>,
    pub add_special: bool,
    pub parse_special: bool,
}

impl Default for RerankOptions {
    fn default() -> (r: Self)
        ensures
            r.instruction is None,
            r.prompt_template is None,
            r.add_special,
            r.parse_special,
    {
        RerankOptions {
            instruction: None,
            prompt_template: None,
            add_special: true,
            parse_special: true,
        }
    }
}

/// Generated text and the number of tokens it was made of.
#[derive(Clone, Debug)]
pub struct GenerateOutput {
    pub text: String,
    pub token_count: usize,
}

impl Default for GenerateOutput {
    fn default() -> (r: Self)
        ensures
            r.text@ == Seq::<char>::empty(),
            r.token_count == 0,
    {
        GenerateOutput { text: String::new(), token_count: 0 }
    }
}

impl GenerateOutput {
    /// Records one generated piece.
    pub fn push_piece(&mut self, piece: &str)
        requires
            old(self).token_count < usize::MAX,
        ensures
            final(self).text@ == old(self).text@ + piece@,
            final(self).token_count == old(self).token_count + 1,
    {
        self.text.append(piece);
        self.token_count = self.token_count + 1;
    }
}

/// One message of a chat.
#[derive(Clone, Debug)]
pub struct ChatMessage {
    pub role: String,
    pub content: String,
}

impl ChatMessage {
    /// A message with the given role and content.
    pub fn new(role: &str, content: &str) -> (m: ChatMessage)
        ensures
            m.role@ == role@,
            m.content@ == content@,
    {
        ChatMessage { role: String::from_str(role), content: String::from_str(content) }
    }
}

} // verus!
