//! Sessions: the model and context handles a session owns, and the
//! decisions a session makes around the `llama.cpp` calls (batch planning,
//! the encoder/decoder choice, status checks, embedding and rerank checks,
//! and the generation loop's bookkeeping).
//!
//! Handles are kept as the addresses of the C objects; the code that calls
//! into `llama.cpp` turns them back into pointers.

use vstd::prelude::*;
use crate::error::{Error, Result};
use crate::options::SessionOptions;
use crate::raw::llama_pooling_type;
use crate::rerank::{
    token_positions, token_positions_spec, JINA_V3_DOC_EMBED_TOKEN_ID,
    JINA_V3_QUERY_EMBED_TOKEN_ID,
};
use crate::text::{trim_chars, trims_to_empty};

verus! {

/// A loaded model, held by the address of its `llama_model`.
#[derive(Debug)]
pub struct Model {
    ptr: usize,
}

impl Model {
    /// A model is never held at the zero address.
    #[verifier::type_invariant]
    spec fn nonzero(&self) -> bool {
        self.ptr != 0
    }

    /// The address of the model.
    pub closed spec fn addr(&self) -> usize {
        self.ptr
    }

    /// The model at the address that loading returned; a zero address means
    /// that loading failed.
    pub fn from_raw(ptr: usize) -> (r: Result<Model>)
        ensures
            ptr == 0 ==> r == Err::<Model, Error>(Error::ModelLoadFailed),
            ptr != 0 ==> (r matches Ok(m) && m.addr() == ptr),
    {
        if ptr == 0 {
            Err(Error::ModelLoadFailed)
        } else {
            Ok(Model { ptr })
        }
    }

    /// The address of the model, never zero.
    pub fn as_ptr(&self) -> (p: usize)
        ensures
            p == self.addr(),
            p != 0,
    {
        proof {
            use_type_invariant(self);
        }
        self.ptr
    }
}

/// A context over a model, held by the address of its `llama_context`.
#[derive(Debug)]
pub struct Context {
    ptr: usize,
}

impl Context {
    /// A context is never held at the zero address.
    #[verifier::type_invariant]
    spec fn nonzero(&self) -> bool {
        self.ptr != 0
    }

    /// The address of the context.
    pub closed spec fn addr(&self) -> usize {
        self.ptr
    }

    /// The context at the address that initialization returned; a zero
    /// address means that initialization failed.
    pub fn from_raw(ptr: usize) -> (r: Result<Context>)
        ensures
            ptr == 0 ==> r == Err::<Context, Error>(Error::ContextInitFailed),
            ptr != 0 ==> (r matches Ok(c) && c.addr() == ptr),
    {
        if ptr == 0 {
            Err(Error::ContextInitFailed)
        } else {
            Ok(Context { ptr })
        }
    }

    /// The address of the context, never zero.
    pub fn as_ptr(&self) -> (p: usize)
        ensures
            p == self.addr(),
            p != 0,
    {
        proof {
            use_type_invariant(self);
        }
        self.ptr
    }
}

/// A number of tokens evaluated per batch, never zero.
#[derive(Debug)]
pub struct BatchSize {
    n: usize,
}

impl BatchSize {
    #[verifier::type_invariant]
    spec fn positive(&self) -> bool {
        self.n >= 1
    }

    pub closed spec fn value(&self) -> usize {
        self.n
    }

    /// The configured size, or one where the configuration asks for none.
    pub fn from_option(n_batch: u32) -> (b: BatchSize)
        ensures
            b.value() == (if n_batch == 0 {
                1
            } else {
                n_batch as usize
            }),
    {
        let n = if n_batch < 1 {
            1
        } else {
            n_batch
        };
        BatchSize { n: n as usize }
    }

    /// The size, at least one.
    pub fn get(&self) -> (n: usize)
        ensures
            n == self.value(),
            n >= 1,
    {
        proof {
            use_type_invariant(self);
        }
        self.n
    }
}

/// A model with a context and the batch size that its evaluations use.
#[derive(Debug)]
pub struct Session {
    context: Context,
    model: Model,
    n_batch: BatchSize,
}

impl Session {
    /// The number of tokens evaluated per batch.
    pub closed spec fn batch_size(&self) -> usize {
        self.n_batch.value()
    }

    pub closed spec fn model_spec(&self) -> Model {
        self.model
    }

    pub closed spec fn context_spec(&self) -> Context {
        self.context
    }

    /// A session over a loaded model and its context, evaluating batches of
    /// the configured size, or of one token when the size is zero.
    pub fn from_parts(model: Model, context: Context, options: &SessionOptions) -> (s: Session)
        ensures
            s.batch_size() == (if options.n_batch == 0 {
                1
            } else {
                options.n_batch as usize
            }),
            s.model_spec() == model,
            s.context_spec() == context,
    {
        Session { context, model, n_batch: BatchSize::from_option(options.n_batch) }
    }

    /// The session's model.
    pub fn model(&self) -> (m: &Model)
        ensures
            *m == self.model_spec(),
    {
        &self.model
    }

    /// The session's context.
    pub fn context(&self) -> (c: &Context)
        ensures
            *c == self.context_spec(),
    {
        &self.context
    }

    /// The session's context, for calls that change it.
    pub fn context_mut(&mut self) -> (c: &mut Context)
        ensures
            *c == old(self).context_spec(),
            final(self).context_spec() == *final(c),
            final(self).model_spec() == old(self).model_spec(),
            final(self).batch_size() == old(self).batch_size(),
    {
        &mut self.context
    }

    /// The number of tokens evaluated per batch, at least one.
    pub fn n_batch(&self) -> (n: usize)
        ensures
            n == self.batch_size(),
            n >= 1,
    {
        self.n_batch.get()
    }

    /// Splits `n_tokens` tokens, the first at position `start_pos`, into the
    /// batches that evaluation submits.
    pub fn batch_plan(&self, n_tokens: usize, start_pos: i32) -> (r: Result<Vec<BatchChunk>>)
        requires
            0 <= start_pos,
            start_pos + n_tokens <= i32::MAX + 1,
        ensures
            match r {
                Ok(chunks) => is_batch_plan(chunks@, n_tokens as int, self.batch_size() as int, start_pos as int),
                Err(e) => e == Error::InvalidInput && min_int(
                    self.batch_size() as int,
                    n_tokens as int,
                ) > i32::MAX,
            },
    {
        batch_plan(n_tokens, self.n_batch.get(), start_pos)
    }
}

/// One batch of an evaluation: the tokens `offset..offset + len` at
/// positions starting from `start_pos`.
#[derive(Clone, Copy, Debug, PartialEq, Eq, Structural)]
pub struct BatchChunk {
    pub offset: usize,
    pub n_tokens: i32,
    pub start_pos: i32,
}

pub open spec fn min_int(a: int, b: int) -> int {
    if a < b {
        a
    } else {
        b
    }
}

/// `chunks` cuts `0..n` into consecutive batches: all full-size but the
/// last, which holds the rest; positions follow the token indices from
/// `start`.
pub open spec fn is_batch_plan(chunks: Seq<BatchChunk>, n: int, size: int, start: int) -> bool {
    &&& n == 0 ==> chunks.len() == 0
    &&& n > 0 ==> chunks.len() > 0 && chunks[0].offset == 0 && chunks.last().offset
        + chunks.last().n_tokens == n
    &&& forall|i: int|
        0 <= i < chunks.len() ==> 1 <= (#[trigger] chunks[i]).n_tokens <= size
            && chunks[i].start_pos == start + chunks[i].offset
    &&& forall|i: int|
        0 <= i < chunks.len() - 1 ==> (#[trigger] chunks[i]).n_tokens == size && chunks[i
            + 1].offset == chunks[i].offset + size
}

/// The batches of a plan follow one another without overlap.
pub proof fn lemma_batch_plan_ordered(
    chunks: Seq<BatchChunk>,
    n: int,
    size: int,
    start: int,
    i: int,
    j: int,
)
    requires
        is_batch_plan(chunks, n, size, start),
        0 <= i < j < chunks.len(),
    ensures
        chunks[i].offset + chunks[i].n_tokens <= chunks[j].offset,
    decreases j - i,
{
    assert(chunks[i].n_tokens == size);
    if j > i + 1 {
        lemma_batch_plan_ordered(chunks, n, size, start, i + 1, j);
    }
}

/// Every token of the evaluated range lies in a batch of the plan.
pub proof fn lemma_batch_plan_covers(chunks: Seq<BatchChunk>, n: int, size: int, start: int, t: int)
    requires
        is_batch_plan(chunks, n, size, start),
        0 <= t < n,
    ensures
        exists|i: int|
            0 <= i < chunks.len() && (#[trigger] chunks[i]).offset <= t < chunks[i].offset
                + chunks[i].n_tokens,
{
    lemma_covers_up_to(chunks, n, size, start, chunks.len() - 1, t);
}

proof fn lemma_covers_up_to(chunks: Seq<BatchChunk>, n: int, size: int, start: int, k: int, t: int)
    requires
        is_batch_plan(chunks, n, size, start),
        n > 0,
        0 <= k < chunks.len(),
        0 <= t < chunks[k].offset + chunks[k].n_tokens,
    ensures
        exists|i: int|
            0 <= i <= k && (#[trigger] chunks[i]).offset <= t < chunks[i].offset
                + chunks[i].n_tokens,
    decreases k,
{
    if t >= chunks[k].offset {
        assert(chunks[k].offset <= t < chunks[k].offset + chunks[k].n_tokens);
    } else {
        assert(k > 0);
        assert(chunks[k - 1].n_tokens == size);
        lemma_covers_up_to(chunks, n, size, start, k - 1, t);
    }
}

/// Splits `n_tokens` tokens into batches of `size`, positions counted from
/// `start_pos`. A batch longer than `i32::MAX` tokens cannot be submitted.
pub fn batch_plan(n_tokens: usize, size: usize, start_pos: i32) -> (r: Result<Vec<BatchChunk>>)
    requires
        size >= 1,
        0 <= start_pos,
        start_pos + n_tokens <= i32::MAX + 1,
    ensures
        match r {
            Ok(chunks) => is_batch_plan(chunks@, n_tokens as int, size as int, start_pos as int),
            Err(e) => e == Error::InvalidInput && min_int(size as int, n_tokens as int) > i32::MAX,
        },
{
    let first = if size < n_tokens {
        size
    } else {
        n_tokens
    };
    if first > i32::MAX as usize {
        return Err(Error::InvalidInput);
    }
    let mut chunks: Vec<BatchChunk> = Vec::new();
    let mut offset: usize = 0;
    while offset < n_tokens
        invariant
            offset <= n_tokens,
            size >= 1,
            min_int(size as int, n_tokens as int) <= i32::MAX,
            0 <= start_pos,
            start_pos + n_tokens <= i32::MAX + 1,
            chunks.len() == 0 <==> offset == 0,
            chunks.len() > 0 ==> chunks@[0].offset == 0 && chunks@.last().offset
                + chunks@.last().n_tokens == offset,
            forall|i: int|
                0 <= i < chunks.len() ==> 1 <= (#[trigger] chunks@[i]).n_tokens <= size
                    && chunks@[i].start_pos == start_pos + chunks@[i].offset,
            forall|i: int|
                0 <= i < chunks.len() - 1 ==> (#[trigger] chunks@[i]).n_tokens == size
                    && chunks@[i + 1].offset == chunks@[i].offset + size,
            chunks.len() > 0 && offset < n_tokens ==> chunks@.last().n_tokens == size,
        decreases n_tokens - offset,
    {
        let remaining = n_tokens - offset;
        let len = if size < remaining {
            size
        } else {
            remaining
        };
        let ghost old_chunks = chunks@;
        chunks.push(
            BatchChunk { offset, n_tokens: len as i32, start_pos: start_pos + offset as i32 },
        );
        assert forall|i: int| 0 <= i < chunks.len() - 1 implies (#[trigger] chunks@[i]).n_tokens
            == size && chunks@[i + 1].offset == chunks@[i].offset + size by {
            if i < old_chunks.len() - 1 {
                assert(chunks@[i] == old_chunks[i]);
                assert(chunks@[i + 1] == old_chunks[i + 1]);
            } else {
                assert(chunks@[i] == old_chunks.last());
            }
        }
        offset = offset + len;
    }
    Ok(chunks)
}

/// The position of each token of a batch and whether its output is kept:
/// every token's, or only the last one's.
pub fn batch_entries(chunk: &BatchChunk, output_last_only: bool) -> (r: (Vec<i32>, Vec<i8>))
    requires
        chunk.n_tokens >= 0,
        chunk.start_pos + chunk.n_tokens <= i32::MAX + 1,
    ensures
        r.0.len() == chunk.n_tokens,
        r.1.len() == chunk.n_tokens,
        forall|i: int| 0 <= i < chunk.n_tokens ==> #[trigger] r.0@[i] == chunk.start_pos + i,
        forall|i: int|
            0 <= i < chunk.n_tokens ==> #[trigger] r.1@[i] == (if !output_last_only || i + 1
                == chunk.n_tokens {
                1i8
            } else {
                0i8
            }),
{
    let n = chunk.n_tokens;
    let mut positions: Vec<i32> = Vec::new();
    let mut logits: Vec<i8> = Vec::new();
    let mut i: i32 = 0;
    while i < n
        invariant
            0 <= i <= n,
            n == chunk.n_tokens,
            chunk.start_pos + chunk.n_tokens <= i32::MAX + 1,
            positions.len() == i,
            logits.len() == i,
            forall|k: int| 0 <= k < i ==> #[trigger] positions@[k] == chunk.start_pos + k,
            forall|k: int|
                0 <= k < i ==> #[trigger] logits@[k] == (if !output_last_only || k + 1 == n {
                    1i8
                } else {
                    0i8
                }),
        decreases n - i,
    {
        positions.push(chunk.start_pos + i);
        logits.push(
            if !output_last_only || i + 1 == n {
                1i8
            } else {
                0i8
            },
        );
        i = i + 1;
    }
    (positions, logits)
}

/// Whether evaluation goes through the encoder: only for encoder-only models.
pub fn uses_encoder(has_encoder: bool, has_decoder: bool) -> (r: bool)
    ensures
        r == (has_encoder && !has_decoder),
{
    has_encoder && !has_decoder
}

/// The outcome of an encode or decode call that returned `status`.
pub fn evaluation_result(status: i32, encoder: bool) -> (r: Result<()>)
    ensures
        status == 0 ==> r is Ok,
        status != 0 && encoder ==> r == Err::<(), Error>(Error::EncodeFailed(status)),
        status != 0 && !encoder ==> r == Err::<(), Error>(Error::DecodeFailed(status)),
{
    if status == 0 {
        Ok(())
    } else if encoder {
        Err(Error::EncodeFailed(status))
    } else {
        Err(Error::DecodeFailed(status))
    }
}

/// Where a text embedding is read from.
#[derive(Clone, Copy, Debug, PartialEq, Eq, Structural)]
pub enum EmbeddingSource {
    /// The last token's embedding (no pooling).
    LastToken,
    /// The pooled embedding of sequence 0.
    Sequence,
}

/// Where a text embedding is read from under the context's pooling.
pub fn embedding_source(pooling: llama_pooling_type) -> (r: EmbeddingSource)
    ensures
        r == (if pooling == llama_pooling_type::NoPooling {
            EmbeddingSource::LastToken
        } else {
            EmbeddingSource::Sequence
        }),
{
    match pooling {
        llama_pooling_type::NoPooling => EmbeddingSource::LastToken,
        _ => EmbeddingSource::Sequence,
    }
}

/// The embedding length that the model reports, when it is positive.
pub fn embedding_dimension(n_embd: i32, unavailable: Error) -> (r: Result<usize>)
    ensures
        n_embd > 0 ==> r == Ok::<usize, Error>(n_embd as usize),
        n_embd <= 0 ==> r == Err::<usize, Error>(unavailable),
{
    if n_embd <= 0 {
        Err(unavailable)
    } else {
        Ok(n_embd as usize)
    }
}

/// The checks that a rerank request passes before any tokenization: the
/// context pools as the method needs, the query is not blank and there is a
/// document.
pub fn check_rerank_request(
    pooling: llama_pooling_type,
    required: llama_pooling_type,
    query: &str,
    n_documents: usize,
) -> (r: Result<()>)
    ensures
        pooling != required ==> r == Err::<(), Error>(Error::RerankUnavailable),
        pooling == required && (trim_chars(query@).len() == 0 || n_documents == 0) ==> r == Err::<
            (),
            Error,
        >(Error::InvalidInput),
        pooling == required && trim_chars(query@).len() > 0 && n_documents > 0 ==> r is Ok,
{
    if pooling != required {
        return Err(Error::RerankUnavailable);
    }
    if trims_to_empty(query) || n_documents == 0 {
        return Err(Error::InvalidInput);
    }
    Ok(())
}

/// The positions of the query marker and of the document markers in the
/// tokens of a Jina v3 prompt.
pub fn jina_v3_marker_positions(tokens: &[i32], n_ctx: u32, n_documents: usize) -> (r: Result<
    (usize, Vec<usize>),
>)
    ensures
        (tokens.len() == 0 || tokens.len() > n_ctx) ==> r == Err::<(usize, Vec<usize>), Error>(
            Error::InvalidInput,
        ),
        !(tokens.len() == 0 || tokens.len() > n_ctx) ==> {
            let q = token_positions_spec(tokens@, JINA_V3_QUERY_EMBED_TOKEN_ID);
            let d = token_positions_spec(tokens@, JINA_V3_DOC_EMBED_TOKEN_ID);
            if q.len() == 0 || d.len() != n_documents {
                r == Err::<(usize, Vec<usize>), Error>(Error::RerankUnavailable)
            } else {
                r matches Ok((qp, dp)) && qp == q[0] && dp@ == d
            }
        },
{
    if tokens.len() == 0 || tokens.len() > n_ctx as usize {
        return Err(Error::InvalidInput);
    }
    let query_positions = token_positions(tokens, JINA_V3_QUERY_EMBED_TOKEN_ID);
    let document_positions = token_positions(tokens, JINA_V3_DOC_EMBED_TOKEN_ID);
    if query_positions.len() == 0 || document_positions.len() != n_documents {
        return Err(Error::RerankUnavailable);
    }
    Ok((query_positions[0], document_positions))
}

/// The bookkeeping of a generation loop: how many tokens were emitted, the
/// position of the next one, and the optional cap on their number.
#[derive(Debug)]
pub struct GenerationProgress {
    max_new_tokens: usize,
    emitted: usize,
    position: i32,
}

impl GenerationProgress {
    pub closed spec fn emitted_spec(&self) -> usize {
        self.emitted
    }

    pub closed spec fn position_spec(&self) -> i32 {
        self.position
    }

    pub closed spec fn cap(&self) -> usize {
        self.max_new_tokens
    }

    /// The progress after a prompt of `prompt_len` tokens: nothing emitted,
    /// the next token right after the prompt.
    pub fn start(prompt_len: usize, max_new_tokens: usize) -> (g: GenerationProgress)
        requires
            prompt_len <= i32::MAX,
        ensures
            g.emitted_spec() == 0,
            g.position_spec() == prompt_len,
            g.cap() == max_new_tokens,
    {
        GenerationProgress { max_new_tokens, emitted: 0, position: prompt_len as i32 }
    }

    /// Whether the cap is reached (a cap of zero means no cap).
    pub fn limit_reached(&self) -> (r: bool)
        ensures
            r == (self.cap() > 0 && self.emitted_spec() >= self.cap()),
    {
        self.max_new_tokens > 0 && self.emitted >= self.max_new_tokens
    }

    /// The number of tokens emitted so far.
    pub fn emitted(&self) -> (n: usize)
        ensures
            n == self.emitted_spec(),
    {
        self.emitted
    }

    /// The position at which the next emitted token is evaluated.
    pub fn position(&self) -> (p: i32)
        ensures
            p == self.position_spec(),
    {
        self.position
    }

    /// Records an emitted token, evaluated at the current position.
    pub fn advance(&mut self)
        requires
            old(self).emitted_spec() < usize::MAX,
            old(self).position_spec() < i32::MAX,
        ensures
            final(self).emitted_spec() == old(self).emitted_spec() + 1,
            final(self).position_spec() == old(self).position_spec() + 1,
            final(self).cap() == old(self).cap(),
    {
        self.emitted = self.emitted + 1;
        self.position = self.position + 1;
    }
}

/// One stage of a sampler chain.
#[derive(Clone, Copy, Debug, PartialEq, Eq, Structural)]
pub enum SamplerStage {
    TopK,
    TopP,
    Temperature,
    Distribution,
    Greedy,
}

/// The stages of the sampler chain: top-k, top-p, temperature and a seeded
/// draw when sampling with a positive temperature, else greedy choice.
pub fn sampler_stages(positive_temperature: bool) -> (r: Vec<SamplerStage>)
    ensures
        positive_temperature ==> r@ == seq![
            SamplerStage::TopK,
            SamplerStage::TopP,
            SamplerStage::Temperature,
            SamplerStage::Distribution,
        ],
        !positive_temperature ==> r@ == seq![SamplerStage::Greedy],
{
    let mut v: Vec<SamplerStage> = Vec::new();
    if positive_temperature {
        v.push(SamplerStage::TopK);
        v.push(SamplerStage::TopP);
        v.push(SamplerStage::Temperature);
        v.push(SamplerStage::Distribution);
    } else {
        v.push(SamplerStage::Greedy);
    }
    assert(v@ =~= (if positive_temperature {
        seq![
            SamplerStage::TopK,
            SamplerStage::TopP,
            SamplerStage::Temperature,
            SamplerStage::Distribution,
        ]
    } else {
        seq![SamplerStage::Greedy]
    }));
    v
}

} // verus!
