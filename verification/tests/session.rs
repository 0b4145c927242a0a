use wwama::options::SessionOptions;
use wwama::raw::llama_pooling_type;
use wwama::session::{
    batch_entries, batch_plan, BatchSize, check_rerank_request, embedding_dimension, embedding_source,
    evaluation_result, jina_v3_marker_positions, sampler_stages, uses_encoder, BatchChunk,
    Context, EmbeddingSource, GenerationProgress, Model, SamplerStage, Session,
};
use wwama::Error;

#[test]
fn handles_reject_null() {
    assert_eq!(Model::from_raw(0).unwrap_err(), Error::ModelLoadFailed);
    assert_eq!(Context::from_raw(0).unwrap_err(), Error::ContextInitFailed);
    let model = Model::from_raw(0x1000).unwrap();
    assert_eq!(model.as_ptr(), 0x1000);
    let context = Context::from_raw(0x2000).unwrap();
    let mut options = SessionOptions::default();
    options.n_batch = 0;
    let mut session = Session::from_parts(model, context, &options);
    assert_eq!(session.n_batch(), 1);
    assert_eq!(session.model().as_ptr(), 0x1000);
    assert_eq!(session.context().as_ptr(), 0x2000);
    assert_eq!(session.context_mut().as_ptr(), 0x2000);
    let model = Model::from_raw(1).unwrap();
    let context = Context::from_raw(2).unwrap();
    let session = Session::from_parts(model, context, &SessionOptions::default());
    assert_eq!(session.n_batch(), 512);
}

#[test]
fn batch_size_is_never_zero() {
    assert_eq!(BatchSize::from_option(0).get(), 1);
    assert_eq!(BatchSize::from_option(1).get(), 1);
    assert_eq!(BatchSize::from_option(512).get(), 512);
    let model = Model::from_raw(0x1000).unwrap();
    let context = Context::from_raw(0x2000).unwrap();
    let mut options = SessionOptions::default();
    options.n_batch = 3;
    let session = Session::from_parts(model, context, &options);
    assert_eq!(session.batch_plan(7, 5).unwrap().len(), 3);
}

#[test]
fn batch_plan_cuts_tokens_into_batches() {
    let chunks = batch_plan(10, 4, 0).unwrap();
    assert_eq!(
        chunks,
        vec![
            BatchChunk { offset: 0, n_tokens: 4, start_pos: 0 },
            BatchChunk { offset: 4, n_tokens: 4, start_pos: 4 },
            BatchChunk { offset: 8, n_tokens: 2, start_pos: 8 },
        ]
    );
    assert_eq!(batch_plan(0, 4, 0).unwrap(), vec![]);
    assert_eq!(
        batch_plan(3, 8, 5).unwrap(),
        vec![BatchChunk { offset: 0, n_tokens: 3, start_pos: 5 }]
    );
    let model = Model::from_raw(1).unwrap();
    let context = Context::from_raw(2).unwrap();
    let mut options = SessionOptions::default();
    options.n_batch = 2;
    let session = Session::from_parts(model, context, &options);
    assert_eq!(session.batch_plan(3, 7).unwrap().len(), 2);
}

#[test]
fn batch_entries_mark_outputs() {
    let chunk = BatchChunk { offset: 8, n_tokens: 3, start_pos: 8 };
    assert_eq!(batch_entries(&chunk, true), (vec![8, 9, 10], vec![0, 0, 1]));
    assert_eq!(batch_entries(&chunk, false), (vec![8, 9, 10], vec![1, 1, 1]));
}

#[test]
fn evaluation_choices() {
    assert!(uses_encoder(true, false));
    assert!(!uses_encoder(true, true));
    assert!(!uses_encoder(false, false));
    assert_eq!(evaluation_result(0, true), Ok(()));
    assert_eq!(evaluation_result(2, true), Err(Error::EncodeFailed(2)));
    assert_eq!(evaluation_result(-1, false), Err(Error::DecodeFailed(-1)));
    assert_eq!(embedding_source(llama_pooling_type::NoPooling), EmbeddingSource::LastToken);
    assert_eq!(embedding_source(llama_pooling_type::Mean), EmbeddingSource::Sequence);
    assert_eq!(embedding_dimension(768, Error::EmbeddingUnavailable), Ok(768));
    assert_eq!(
        embedding_dimension(0, Error::RerankUnavailable),
        Err(Error::RerankUnavailable)
    );
}

#[test]
fn rerank_request_checks() {
    let rank = llama_pooling_type::Rank;
    assert_eq!(check_rerank_request(rank, rank, "q", 1), Ok(()));
    assert_eq!(check_rerank_request(rank, rank, "  ", 1), Err(Error::InvalidInput));
    assert_eq!(check_rerank_request(rank, rank, "q", 0), Err(Error::InvalidInput));
    assert_eq!(
        check_rerank_request(llama_pooling_type::NoPooling, rank, "", 0),
        Err(Error::RerankUnavailable)
    );
}

#[test]
fn jina_marker_positions() {
    let tokens = [151_671, 5, 151_670, 151_670];
    assert_eq!(jina_v3_marker_positions(&tokens, 10, 2), Ok((0, vec![2, 3])));
    assert_eq!(jina_v3_marker_positions(&tokens, 3, 2), Err(Error::InvalidInput));
    assert_eq!(jina_v3_marker_positions(&[], 3, 2), Err(Error::InvalidInput));
    assert_eq!(jina_v3_marker_positions(&tokens, 10, 3), Err(Error::RerankUnavailable));
    assert_eq!(jina_v3_marker_positions(&[151_670], 10, 1), Err(Error::RerankUnavailable));
}

#[test]
fn generation_progress_counts_tokens() {
    let mut g = GenerationProgress::start(5, 2);
    assert!(!g.limit_reached());
    assert_eq!(g.position(), 5);
    g.advance();
    assert_eq!(g.position(), 6);
    assert_eq!(g.emitted(), 1);
    assert!(!g.limit_reached());
    g.advance();
    assert!(g.limit_reached());
    let mut unlimited = GenerationProgress::start(0, 0);
    for _ in 0..100 {
        unlimited.advance();
    }
    assert!(!unlimited.limit_reached());
}

#[test]
fn sampler_chain_stages() {
    assert_eq!(
        sampler_stages(true),
        vec![
            SamplerStage::TopK,
            SamplerStage::TopP,
            SamplerStage::Temperature,
            SamplerStage::Distribution
        ]
    );
    assert_eq!(sampler_stages(false), vec![SamplerStage::Greedy]);
}
