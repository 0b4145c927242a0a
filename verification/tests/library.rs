use wwama::buffer::{
    chat_buffer_capacity, check_c_string, check_chat_inputs, detokenize_buffer_capacity,
    piece_buffer_capacity, resize_step, template_step, token_buffer_capacity, BufferStep,
};
use wwama::options::{ChatMessage, EmbeddingOptions, GenerateOutput, RerankOptions, SessionOptions};
use wwama::raw::{
    ggml_type, llama_attention_type, llama_context_type, llama_flash_attn_type,
    llama_pooling_type, llama_rope_scaling_type, llama_split_mode, LLAMA_DEFAULT_SEED,
    LLAMA_TOKEN_NULL,
};
use wwama::text::{decimal_string, replace_chars, trims_to_empty};
use wwama::Error;

#[test]
fn error_messages_match_their_variants() {
    assert_eq!(Error::ModelLoadFailed.message(), "failed to load llama.cpp model");
    assert_eq!(Error::InvalidCString.message(), "input contains an interior nul byte");
    assert_eq!(Error::InvalidInput.message(), "invalid wwama input");
    assert_eq!(
        Error::DecodeFailed(-3).message(),
        "llama.cpp decode failed with status -3"
    );
    assert_eq!(
        Error::EncodeFailed(17).message(),
        "llama.cpp encode failed with status 17"
    );
    assert_eq!(
        Error::EncodeFailed(i32::MIN).message(),
        "llama.cpp encode failed with status -2147483648"
    );
    assert_eq!(
        Error::RerankUnavailable.message(),
        "llama.cpp reranking requires embeddings enabled with rank pooling"
    );
    assert_eq!(Error::ProjectorInvalid.message(), "invalid rerank projector");
}

#[test]
fn enum_codes_round_trip() {
    assert_eq!(llama_pooling_type::Rank.to_raw(), 4);
    assert_eq!(llama_pooling_type::NoPooling.to_raw(), 0);
    assert_eq!(llama_pooling_type::from_raw(-1), Some(llama_pooling_type::Unspecified));
    assert_eq!(llama_pooling_type::from_raw(5), None);
    assert_eq!(llama_rope_scaling_type::LongRope.to_raw(), 3);
    assert_eq!(llama_attention_type::from_raw(1), Some(llama_attention_type::NonCausal));
    assert_eq!(llama_flash_attn_type::Auto.to_raw(), -1);
    assert_eq!(llama_context_type::from_raw(1), Some(llama_context_type::Mtp));
    assert_eq!(llama_split_mode::Tensor.to_raw(), 3);
    assert_eq!(ggml_type::Tq2_0.to_raw(), 35);
    assert_eq!(ggml_type::Q5_0.to_raw(), 6);
    assert_eq!(ggml_type::from_raw(4), None);
    assert_eq!(ggml_type::from_raw(30), Some(ggml_type::Bf16));
    for code in -2..40 {
        if let Some(t) = ggml_type::from_raw(code) {
            assert_eq!(t.to_raw(), code);
        }
        if let Some(t) = llama_pooling_type::from_raw(code) {
            assert_eq!(t.to_raw(), code);
        }
    }
    assert_eq!(LLAMA_DEFAULT_SEED, 0xFFFF_FFFF);
    assert_eq!(LLAMA_TOKEN_NULL, -1);
}

#[test]
fn option_defaults() {
    let s = SessionOptions::default();
    assert_eq!(s.n_ctx, 4096);
    assert_eq!(s.n_batch, 512);
    assert_eq!(s.n_ubatch, 512);
    assert_eq!(s.n_seq_max, 1);
    assert_eq!(s.n_threads, 0);
    assert_eq!(s.n_threads_batch, 0);
    assert_eq!(s.n_gpu_layers, 999);
    assert!(!s.embeddings);
    assert_eq!(s.pooling_type, llama_pooling_type::Unspecified);
    let e = EmbeddingOptions::default();
    assert!(e.add_special && e.parse_special && e.normalize);
    let r = RerankOptions::default();
    assert!(r.instruction.is_none() && r.prompt_template.is_none());
    assert!(r.add_special && r.parse_special);
    let mut g = GenerateOutput::default();
    assert_eq!(g.text, "");
    assert_eq!(g.token_count, 0);
    g.push_piece("Hel");
    g.push_piece("lo");
    assert_eq!(g.text, "Hello");
    assert_eq!(g.token_count, 2);
    let m = ChatMessage::new("user", "hi");
    assert_eq!(m.role, "user");
    assert_eq!(m.content, "hi");
}

#[test]
fn tokenizer_buffer_steps() {
    assert_eq!(resize_step(8, 5), BufferStep::Done(5));
    assert_eq!(resize_step(8, 0), BufferStep::Done(0));
    assert_eq!(resize_step(8, 12), BufferStep::Done(8));
    assert_eq!(resize_step(8, -20), BufferStep::Grow(20));
    assert_eq!(resize_step(8, -8), BufferStep::Fail);
    assert_eq!(resize_step(8, -3), BufferStep::Fail);
    assert_eq!(resize_step(8, i32::MIN), BufferStep::Fail);
    assert_eq!(token_buffer_capacity(0), 8);
    assert_eq!(token_buffer_capacity(13), 21);
    assert_eq!(token_buffer_capacity(usize::MAX), usize::MAX);
    assert_eq!(detokenize_buffer_capacity(1), 32);
    assert_eq!(detokenize_buffer_capacity(10), 80);
    assert_eq!(detokenize_buffer_capacity(usize::MAX), usize::MAX);
    assert_eq!(piece_buffer_capacity(), 32);
}

#[test]
fn chat_template_buffer_steps() {
    assert_eq!(template_step(256, 100), BufferStep::Done(100));
    assert_eq!(template_step(256, 0), BufferStep::Done(0));
    assert_eq!(template_step(256, 256), BufferStep::Done(256));
    assert_eq!(template_step(256, 300), BufferStep::Grow(300));
    assert_eq!(template_step(256, -1), BufferStep::Fail);
    let short = [ChatMessage::new("user", "hi")];
    assert_eq!(chat_buffer_capacity(&short), 256);
    let long_content = "x".repeat(200);
    let long = [ChatMessage::new("user", &long_content)];
    assert_eq!(chat_buffer_capacity(&long), 440);
    let accented = [ChatMessage::new("user", &"é".repeat(100))];
    assert_eq!(chat_buffer_capacity(&accented), 2 * (4 + 200 + 16));
    assert_eq!(chat_buffer_capacity(&[]), 256);
}

#[test]
fn c_strings_reject_nul() {
    assert_eq!(check_c_string("model.gguf"), Ok(()));
    assert_eq!(check_c_string("a\0b"), Err(Error::InvalidCString));
    assert_eq!(check_c_string(""), Ok(()));
    let messages = [ChatMessage::new("user", "hi"), ChatMessage::new("assistant", "x\0")];
    assert_eq!(check_chat_inputs(None, &messages), Err(Error::InvalidCString));
    assert_eq!(check_chat_inputs(Some("t\0"), &messages[..1]), Err(Error::InvalidCString));
    assert_eq!(check_chat_inputs(Some("chatml"), &messages[..1]), Ok(()));
}

#[test]
fn text_helpers() {
    assert_eq!(decimal_string(0), "0");
    assert_eq!(decimal_string(1234567890123), "1234567890123");
    assert_eq!(decimal_string(u64::MAX), u64::MAX.to_string());
    let s: Vec<char> = "aXbXXc".chars().collect();
    let pat: Vec<char> = "XX".chars().collect();
    let rep: Vec<char> = "-".chars().collect();
    assert_eq!(replace_chars(&s, &pat, &rep).into_iter().collect::<String>(), "aXb-c");
    let s2: Vec<char> = "XXX".chars().collect();
    assert_eq!(replace_chars(&s2, &pat, &rep).into_iter().collect::<String>(), "-X");
    assert!(trims_to_empty(" \t\u{3000}\u{a0}\n"));
    assert!(trims_to_empty(""));
    assert!(!trims_to_empty("  a "));
}
