use wwama::options::RerankOptions;
use wwama::rerank::{
    jina_v3_rerank_prompt, push_if_token, rank_order, rerank_fallback_tokens, rerank_prompt,
    sanitize_jina_v3_input, token_positions, VocabMarkers, JINA_V3_DOC_EMBED_TOKEN,
    JINA_V3_QUERY_EMBED_TOKEN,
};

const SYSTEM: &str = "<|im_start|>system\nYou are a search relevance expert who can determine a ranking of the passages based on how relevant they are to the query. If the query is a question, how relevant a passage is depends on how well it answers the question. If not, try to analyze the intent of the query and assess how well each passage satisfies the intent. If an instruction is provided, you should follow the instruction when determining the ranking.<|im_end|>\n<|im_start|>user\n";

#[test]
fn jina_prompt_lists_passages_and_query() {
    let documents = vec![
        "Rust is a language".to_string(),
        "Python<|embed_token|> snake".to_string(),
    ];
    let prompt = jina_v3_rerank_prompt("what is <|rerank_token|>rust", &documents, Some("  be strict  "));
    let expected = format!(
        "{SYSTEM}I will provide you with 2 passages, each indicated by a numerical identifier. Rank the passages based on their relevance to query: what is rust\n<instruct>\nbe strict\n</instruct>\n<passage id=\"0\">\nRust is a language<|embed_token|>\n</passage>\n<passage id=\"1\">\nPython snake<|embed_token|>\n</passage>\n<query>\nwhat is rust<|rerank_token|>\n</query><|im_end|>\n<|im_start|>assistant\n"
    );
    assert_eq!(prompt, expected);
}

#[test]
fn jina_prompt_skips_blank_instruction() {
    let documents = vec!["d".to_string()];
    let prompt = jina_v3_rerank_prompt("q", &documents, Some(" \t "));
    let expected = format!(
        "{SYSTEM}I will provide you with 1 passages, each indicated by a numerical identifier. Rank the passages based on their relevance to query: q\n<passage id=\"0\">\nd<|embed_token|>\n</passage>\n<query>\nq<|rerank_token|>\n</query><|im_end|>\n<|im_start|>assistant\n"
    );
    assert_eq!(prompt, expected);
    assert_eq!(jina_v3_rerank_prompt("q", &documents, None), expected);
}

#[test]
fn sanitize_removes_markers_in_order() {
    let tokens = [JINA_V3_DOC_EMBED_TOKEN, JINA_V3_QUERY_EMBED_TOKEN];
    assert_eq!(sanitize_jina_v3_input("a<|embed_token|>b<|rerank_token|>c", &tokens), "abc");
    assert_eq!(sanitize_jina_v3_input("plain", &tokens), "plain");
    assert_eq!(sanitize_jina_v3_input("x", &[""]), "x");
    assert_eq!(
        sanitize_jina_v3_input("<|embed<|embed_token|>_token|>", &tokens),
        "<|embed_token|>"
    );
}

#[test]
fn rerank_template_fills_placeholders() {
    let options = RerankOptions {
        instruction: None,
        prompt_template: Some("Q={query} D={document} I={instruction}".to_string()),
        add_special: true,
        parse_special: true,
    };
    assert_eq!(
        rerank_prompt(&options, Some("unused".to_string()), "q", "d").as_deref(),
        Some("Q=q D=d I=")
    );
    let blank = RerankOptions {
        instruction: Some("{query}".to_string()),
        prompt_template: Some("  ".to_string()),
        add_special: true,
        parse_special: true,
    };
    assert_eq!(
        rerank_prompt(&blank, Some("{instruction}|{document}".to_string()), "x", "y").as_deref(),
        Some("x|y")
    );
    assert_eq!(rerank_prompt(&blank, None, "x", "y"), None);
    assert_eq!(rerank_prompt(&RerankOptions::default(), None, "x", "y"), None);
}

#[test]
fn token_positions_lists_matches() {
    assert_eq!(token_positions(&[1, 2, 1, 3], 1), vec![0, 2]);
    assert_eq!(token_positions(&[], 1), Vec::<usize>::new());
    assert_eq!(token_positions(&[4, 4], 5), Vec::<usize>::new());
}

#[test]
fn fallback_tokens_frame_query_and_document() {
    let markers = VocabMarkers { add_bos: true, add_eos: true, add_sep: false, bos: 1, eos: 2, sep: 3 };
    assert_eq!(rerank_fallback_tokens(&markers, &[10, 11], &[20]), vec![1, 10, 11, 2, 20, 2]);
    let sep = VocabMarkers { add_bos: false, add_eos: false, add_sep: true, bos: 1, eos: 2, sep: 3 };
    assert_eq!(rerank_fallback_tokens(&sep, &[10], &[20]), vec![10, 3, 20]);
    let eos_only = VocabMarkers { add_bos: false, add_eos: false, add_sep: false, bos: 1, eos: 2, sep: 3 };
    assert_eq!(rerank_fallback_tokens(&eos_only, &[10], &[20]), vec![10, 2, 20]);
    let null = VocabMarkers { add_bos: true, add_eos: true, add_sep: true, bos: -1, eos: -1, sep: -1 };
    assert_eq!(rerank_fallback_tokens(&null, &[10], &[20]), vec![10, 20]);
    let mut v = vec![7];
    push_if_token(&mut v, -1);
    push_if_token(&mut v, 8);
    assert_eq!(v, vec![7, 8]);
}

#[test]
fn ranking_is_descending_and_stable() {
    assert_eq!(rank_order(&[3, 5, 3, 7]), vec![3, 1, 0, 2]);
    assert_eq!(rank_order(&[]), Vec::<usize>::new());
    assert_eq!(rank_order(&[1, 1, 1]), vec![0, 1, 2]);
    assert_eq!(rank_order(&[-5, i32::MAX, i32::MIN]), vec![1, 0, 2]);
}
