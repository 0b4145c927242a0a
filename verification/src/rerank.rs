//! Rerank prompts, token bookkeeping and ranking.

use vstd::prelude::*;
use crate::options::RerankOptions;
use crate::text::{
    chars_of, decimal, push_chars, push_decimal, replace_all, replace_chars, string_from_chars,
    trim_chars, trimmed, trims_to_empty,
};

verus! {

/// The token id of the Jina v3 document embedding marker.
pub const JINA_V3_DOC_EMBED_TOKEN_ID: i32 = 151_670i32;

/// The token id of the Jina v3 query embedding marker.
pub const JINA_V3_QUERY_EMBED_TOKEN_ID: i32 = 151_671i32;

/// The text of the Jina v3 document embedding marker.
pub const JINA_V3_DOC_EMBED_TOKEN: &'static str = "<|embed_token|>";

/// The text of the Jina v3 query embedding marker.
pub const JINA_V3_QUERY_EMBED_TOKEN: &'static str = "<|rerank_token|>";

/// The system turn that opens a Jina v3 rerank prompt.
pub const JINA_V3_SYSTEM_PROMPT: &'static str = "<|im_start|>system\n\
You are a search relevance expert who can determine a ranking of the passages based on how relevant they are to the query. \
If the query is a question, how relevant a passage is depends on how well it answers the question. \
If not, try to analyze the intent of the query and assess how well each passage satisfies the intent. \
If an instruction is provided, you should follow the instruction when determining the ranking.\
<|im_end|>\n<|im_start|>user\n";

/// `s` with every occurrence of each token removed, token by token in order.
pub open spec fn remove_all(s: Seq<char>, toks: Seq<Seq<char>>) -> Seq<char>
    decreases toks.len(),
{
    if toks.len() == 0 {
        s
    } else {
        replace_all(remove_all(s, toks.drop_last()), toks.last(), Seq::<char>::empty())
    }
}

/// Removing a token that is empty leaves the text unchanged.
pub proof fn lemma_replace_empty_pattern(s: Seq<char>, rep: Seq<char>)
    ensures
        replace_all(s, Seq::<char>::empty(), rep) == s,
    decreases s.len(),
{
    if s.len() > 0 {
        lemma_replace_empty_pattern(s.skip(1), rep);
        assert(seq![s[0]] + s.skip(1) =~= s);
    }
}

/// Text in which a pattern does not occur is left unchanged by replacing it.
pub proof fn lemma_replace_absent(s: Seq<char>, pat: Seq<char>, rep: Seq<char>)
    requires
        forall|i: int|
            0 <= i && i + pat.len() <= s.len() ==> #[trigger] s.subrange(i, i + pat.len()) != pat,
    ensures
        replace_all(s, pat, rep) == s,
    decreases s.len(),
{
    if s.len() > 0 {
        if pat.len() <= s.len() {
            assert(s.subrange(0, pat.len() as int) =~= s.take(pat.len() as int));
            assert(s.subrange(0int, 0int + pat.len()) != pat);
            assert(s.take(pat.len() as int) != pat);
        }
        let t = s.skip(1);
        assert(replace_all(s, pat, rep) == seq![s[0]] + replace_all(t, pat, rep));
        assert forall|i: int| 0 <= i && i + pat.len() <= t.len() implies #[trigger] t.subrange(
            i,
            i + pat.len(),
        ) != pat by {
            assert(t.subrange(i, i + pat.len()) =~= s.subrange(i + 1, i + 1 + pat.len()));
        }
        lemma_replace_absent(t, pat, rep);
        assert(seq![s[0]] + t =~= s);
    }
}

/// Text in which none of the tokens occurs is left unchanged by removing
/// them.
pub proof fn lemma_remove_all_clean_text(s: Seq<char>, toks: Seq<Seq<char>>)
    requires
        forall|k: int, i: int|
            0 <= k < toks.len() && toks[k].len() > 0 && 0 <= i && i + toks[k].len() <= s.len()
                ==> #[trigger] s.subrange(i, i + toks[k].len()) != #[trigger] toks[k],
    ensures
        remove_all(s, toks) == s,
    decreases toks.len(),
{
    if toks.len() > 0 {
        let front = toks.drop_last();
        assert forall|k: int, i: int|
            0 <= k < front.len() && front[k].len() > 0 && 0 <= i && i + front[k].len() <= s.len()
                implies #[trigger] s.subrange(i, i + front[k].len()) != #[trigger] front[k] by {
            assert(front[k] == toks[k]);
        }
        lemma_remove_all_clean_text(s, front);
        let t = toks.last();
        if t.len() == 0 {
            assert(t =~= Seq::<char>::empty());
            lemma_replace_empty_pattern(s, Seq::<char>::empty());
        } else {
            assert forall|i: int| 0 <= i && i + t.len() <= s.len() implies #[trigger] s.subrange(
                i,
                i + t.len(),
            ) != t by {
                assert(toks[toks.len() - 1] == t);
            }
            lemma_replace_absent(s, t, Seq::<char>::empty());
        }
    }
}

fn remove_tokens(cs: Vec<char>, special_tokens: &[&str]) -> (r: Vec<char>)
    ensures
        r@ == remove_all(cs@, special_tokens@.map_values(|t: &str| t@)),
{
    let ghost toks = special_tokens@.map_values(|t: &str| t@);
    let mut out = cs;
    let mut k: usize = 0;
    assert(toks.take(0) =~= Seq::<Seq<char>>::empty());
    while k < special_tokens.len()
        invariant
            k <= special_tokens.len(),
            toks == special_tokens@.map_values(|t: &str| t@),
            out@ == remove_all(cs@, toks.take(k as int)),
        decreases special_tokens.len() - k,
    {
        let token = chars_of(special_tokens[k]);
        assert(toks.take(k + 1).drop_last() =~= toks.take(k as int));
        assert(toks.take(k + 1).last() == token@);
        if token.len() > 0 {
            let empty: Vec<char> = Vec::new();
            out = replace_chars(out.as_slice(), token.as_slice(), empty.as_slice());
            assert(empty@ =~= Seq::<char>::empty());
        } else {
            proof {
                assert(token@ =~= Seq::<char>::empty());
                lemma_replace_empty_pattern(out@, Seq::<char>::empty());
            }
        }
        k = k + 1;
    }
    assert(toks.take(special_tokens.len() as int) =~= toks);
    out
}

/// `input` with every occurrence of each special token removed.
pub fn sanitize_jina_v3_input(input: &str, special_tokens: &[&str]) -> (r: String)
    ensures
        r@ == remove_all(input@, special_tokens@.map_values(|t: &str| t@)),
{
    let cs = chars_of(input);
    let out = remove_tokens(cs, special_tokens);
    string_from_chars(out.as_slice())
}

/// The Jina v3 marker tokens, in the order they are removed from user text.
pub open spec fn jina_special_tokens() -> Seq<Seq<char>> {
    seq![JINA_V3_DOC_EMBED_TOKEN@, JINA_V3_QUERY_EMBED_TOKEN@]
}

/// User text with the Jina v3 marker tokens removed.
pub open spec fn jina_clean(s: Seq<char>) -> Seq<char> {
    remove_all(s, jina_special_tokens())
}

/// The passage block for document `i`.
pub open spec fn jina_passage(i: nat, doc: Seq<char>) -> Seq<char> {
    (if i > 0 {
        "\n"@
    } else {
        Seq::<char>::empty()
    }) + "<passage id=\""@ + decimal(i) + "\">\n"@ + jina_clean(doc) + JINA_V3_DOC_EMBED_TOKEN@
        + "\n</passage>"@
}

/// The passage blocks of the first `k` documents.
pub open spec fn jina_passages(docs: Seq<Seq<char>>, k: nat) -> Seq<char>
    decreases k,
{
    if k == 0 || k > docs.len() {
        Seq::<char>::empty()
    } else {
        jina_passages(docs, (k - 1) as nat) + jina_passage((k - 1) as nat, docs[k - 1])
    }
}

/// The instruction block: present when the instruction is not blank.
pub open spec fn jina_instruction_block(instruction: Option<Seq<char>>) -> Seq<char> {
    match instruction {
        Some(i) => if trim_chars(i).len() > 0 {
            "<instruct>\n"@ + jina_clean(trim_chars(i)) + "\n</instruct>\n"@
        } else {
            Seq::<char>::empty()
        },
        None => Seq::<char>::empty(),
    }
}

/// The full Jina v3 listwise rerank prompt.
pub open spec fn jina_v3_prompt(
    query: Seq<char>,
    docs: Seq<Seq<char>>,
    instruction: Option<Seq<char>>,
) -> Seq<char> {
    JINA_V3_SYSTEM_PROMPT@ + "I will provide you with "@ + decimal(docs.len())
        + " passages, each indicated by a numerical identifier. Rank the passages based on their relevance to query: "@
        + jina_clean(query) + "\n"@ + jina_instruction_block(instruction) + jina_passages(
        docs,
        docs.len(),
    ) + "\n<query>\n"@ + jina_clean(query) + JINA_V3_QUERY_EMBED_TOKEN@
        + "\n</query><|im_end|>\n<|im_start|>assistant\n"@
}

/// The views of a string option.
pub open spec fn opt_str_view(o: Option<&str>) -> Option<Seq<char>> {
    match o {
        Some(s) => Some(s@),
        None => None,
    }
}

/// The views of a list of strings.
pub open spec fn strings_view(docs: Seq<String>) -> Seq<Seq<char>> {
    docs.map_values(|d: String| d@)
}

fn jina_clean_chars(cs: Vec<char>) -> (r: Vec<char>)
    ensures
        r@ == jina_clean(cs@),
{
    let tokens: [&str; 2] = [JINA_V3_DOC_EMBED_TOKEN, JINA_V3_QUERY_EMBED_TOKEN];
    let r = remove_tokens(cs, &tokens);
    assert(tokens@.map_values(|t: &str| t@) =~= jina_special_tokens());
    r
}

/// Builds the Jina v3 listwise rerank prompt for a query and its documents.
pub fn jina_v3_rerank_prompt(query: &str, documents: &[String], instruction: Option<&str>) -> (r:
    String)
    ensures
        r@ == jina_v3_prompt(query@, strings_view(documents@), opt_str_view(instruction)),
{
    let ghost docs = strings_view(documents@);
    let query_clean = jina_clean_chars(chars_of(query));
    let mut prompt = String::new();
    prompt.append(JINA_V3_SYSTEM_PROMPT);
    prompt.append("I will provide you with ");
    push_decimal(&mut prompt, documents.len() as u64);
    prompt.append(
        " passages, each indicated by a numerical identifier. Rank the passages based on their relevance to query: ",
    );
    push_chars(&mut prompt, query_clean.as_slice());
    prompt.append("\n");
    let ghost head = prompt@;
    match instruction {
        Some(text) => {
            let t = trimmed(chars_of(text).as_slice());
            if t.len() > 0 {
                prompt.append("<instruct>\n");
                let c = jina_clean_chars(t);
                push_chars(&mut prompt, c.as_slice());
                prompt.append("\n</instruct>\n");
            }
        },
        None => {},
    }
    assert(prompt@ =~= head + jina_instruction_block(opt_str_view(instruction)));
    let ghost before = prompt@;
    let mut index: usize = 0;
    while index < documents.len()
        invariant
            index <= documents.len(),
            docs == strings_view(documents@),
            prompt@ == before + jina_passages(docs, index as nat),
        decreases documents.len() - index,
    {
        let ghost at = prompt@;
        if index > 0 {
            prompt.append("\n");
        }
        prompt.append("<passage id=\"");
        push_decimal(&mut prompt, index as u64);
        prompt.append("\">\n");
        let c = jina_clean_chars(chars_of(documents[index].as_str()));
        push_chars(&mut prompt, c.as_slice());
        prompt.append(JINA_V3_DOC_EMBED_TOKEN);
        prompt.append("\n</passage>");
        assert(docs[index as int] == documents@[index as int]@);
        assert(prompt@ =~= at + jina_passage(index as nat, docs[index as int]));
        index = index + 1;
    }
    prompt.append("\n<query>\n");
    push_chars(&mut prompt, query_clean.as_slice());
    prompt.append(JINA_V3_QUERY_EMBED_TOKEN);
    prompt.append("\n</query><|im_end|>\n<|im_start|>assistant\n");
    assert(docs.len() == documents.len());
    assert(prompt@ =~= jina_v3_prompt(query@, docs, opt_str_view(instruction)));
    prompt
}


proof fn lemma_jina_passages_prefix(docs: Seq<Seq<char>>, j: nat, k: nat)
    requires
        j <= k <= docs.len(),
    ensures
        jina_passages(docs, j).len() <= jina_passages(docs, k).len(),
        jina_passages(docs, k).take(jina_passages(docs, j).len() as int) == jina_passages(docs, j),
    decreases k,
{
    if j < k {
        lemma_jina_passages_prefix(docs, j, (k - 1) as nat);
        let a = jina_passages(docs, (k - 1) as nat);
        let b = jina_passage((k - 1) as nat, docs[k - 1]);
        assert(jina_passages(docs, k) == a + b);
        assert((a + b).take(jina_passages(docs, j).len() as int) =~= a.take(
            jina_passages(docs, j).len() as int,
        ));
    } else {
        assert(jina_passages(docs, k).take(jina_passages(docs, k).len() as int) =~= jina_passages(
            docs,
            k,
        ));
    }
}

/// Every document of a Jina v3 prompt stands in a passage block that carries
/// the document's own index in decimal, its cleaned text and the document
/// marker. Since distinct indices have distinct decimal forms
/// (`lemma_decimal_injective`), the passage ids are `0` to `n - 1`, each once.
pub proof fn lemma_jina_prompt_passage_ids(
    query: Seq<char>,
    docs: Seq<Seq<char>>,
    instruction: Option<Seq<char>>,
    i: nat,
)
    requires
        i < docs.len(),
    ensures
        ({
            let prompt = jina_v3_prompt(query, docs, instruction);
            let block = "<passage id=\""@ + decimal(i) + "\">\n"@ + jina_clean(docs[i as int])
                + JINA_V3_DOC_EMBED_TOKEN@ + "\n</passage>"@;
            exists|p: int|
                0 <= p && p + block.len() <= prompt.len() && #[trigger] prompt.subrange(
                    p,
                    p + block.len(),
                ) == block
        }),
{
    let prompt = jina_v3_prompt(query, docs, instruction);
    let block = "<passage id=\""@ + decimal(i) + "\">\n"@ + jina_clean(docs[i as int])
        + JINA_V3_DOC_EMBED_TOKEN@ + "\n</passage>"@;
    let head = JINA_V3_SYSTEM_PROMPT@ + "I will provide you with "@ + decimal(docs.len())
        + " passages, each indicated by a numerical identifier. Rank the passages based on their relevance to query: "@
        + jina_clean(query) + "\n"@ + jina_instruction_block(instruction);
    let all = jina_passages(docs, docs.len());
    let tail = "\n<query>\n"@ + jina_clean(query) + JINA_V3_QUERY_EMBED_TOKEN@
        + "\n</query><|im_end|>\n<|im_start|>assistant\n"@;
    assert(prompt =~= head + all + tail);
    lemma_jina_passages_prefix(docs, i + 1, docs.len());
    let before = jina_passages(docs, i);
    let nl = if i > 0 {
        "\n"@
    } else {
        Seq::<char>::empty()
    };
    assert(jina_passage(i, docs[i as int]) =~= nl + block);
    assert(jina_passages(docs, i + 1) == before + (nl + block));
    let o: int = before.len() + nl.len() as int;
    let bl: int = block.len() as int;
    let p: int = head.len() as int + o;
    let upto = jina_passages(docs, i + 1);
    assert(all.take(upto.len() as int) == upto);
    assert(upto.subrange(o, upto.len() as int) =~= block);
    assert(prompt.subrange(p, p + bl) =~= all.subrange(o, o + bl));
    assert(all.subrange(o, o + bl) =~= upto.subrange(o, upto.len() as int));
    assert(prompt.subrange(p, p + bl) == block);
}

/// A Jina v3 prompt opens with the system turn, the number of documents in
/// decimal and the cleaned query, and closes with the cleaned query followed
/// by the query marker and the assistant turn. Between them stand the
/// passages, preceded by the trimmed and cleaned instruction in an
/// `<instruct>` block only when an instruction is given and is not blank.
pub proof fn lemma_jina_prompt_frame(
    query: Seq<char>,
    docs: Seq<Seq<char>>,
    instruction: Option<Seq<char>>,
)
    ensures
        ({
            let prompt = jina_v3_prompt(query, docs, instruction);
            let head = JINA_V3_SYSTEM_PROMPT@ + "I will provide you with "@ + decimal(docs.len())
                + " passages, each indicated by a numerical identifier. Rank the passages based on their relevance to query: "@
                + jina_clean(query) + "\n"@;
            let tail = "\n<query>\n"@ + jina_clean(query) + JINA_V3_QUERY_EMBED_TOKEN@
                + "\n</query><|im_end|>\n<|im_start|>assistant\n"@;
            let passages = jina_passages(docs, docs.len());
            let blank = match instruction {
                Some(i) => trim_chars(i).len() == 0,
                None => true,
            };
            &&& head.len() + tail.len() <= prompt.len()
            &&& prompt.take(head.len() as int) == head
            &&& prompt.skip(prompt.len() - tail.len()) == tail
            &&& blank ==> prompt == head + passages + tail
            &&& !blank ==> prompt == head + "<instruct>\n"@ + jina_clean(trim_chars(instruction->0))
                + "\n</instruct>\n"@ + passages + tail
        }),
{
    let prompt = jina_v3_prompt(query, docs, instruction);
    let head = JINA_V3_SYSTEM_PROMPT@ + "I will provide you with "@ + decimal(docs.len())
        + " passages, each indicated by a numerical identifier. Rank the passages based on their relevance to query: "@
        + jina_clean(query) + "\n"@;
    let tail = "\n<query>\n"@ + jina_clean(query) + JINA_V3_QUERY_EMBED_TOKEN@
        + "\n</query><|im_end|>\n<|im_start|>assistant\n"@;
    let middle = jina_instruction_block(instruction) + jina_passages(docs, docs.len());
    assert(prompt =~= head + middle + tail);
    assert(prompt.take(head.len() as int) =~= head);
    assert(prompt.skip(prompt.len() - tail.len()) =~= tail);
    let passages = jina_passages(docs, docs.len());
    match instruction {
        Some(i) => {
            if trim_chars(i).len() == 0 {
                assert(prompt =~= head + passages + tail);
            } else {
                assert(prompt =~= head + "<instruct>\n"@ + jina_clean(trim_chars(i))
                    + "\n</instruct>\n"@ + passages + tail);
            }
        },
        None => {
            assert(prompt =~= head + passages + tail);
        },
    }
}

/// The views of an optional owned string.
pub open spec fn opt_string_view(o: Option<String>) -> Option<Seq<char>> {
    match o {
        Some(s) => Some(s@),
        None => None,
    }
}

/// The template a rerank prompt is built from: the caller's template unless
/// it is absent or blank, else the model's `rerank` chat template.
pub open spec fn rerank_template_choice(
    given: Option<Seq<char>>,
    model_template: Option<Seq<char>>,
) -> Option<Seq<char>> {
    match given {
        Some(t) => if trim_chars(t).len() > 0 {
            Some(t)
        } else {
            model_template
        },
        None => model_template,
    }
}

/// A rerank template with its `{instruction}`, `{query}` and `{document}`
/// placeholders filled in, in that order.
pub open spec fn fill_rerank_template(
    template: Seq<char>,
    instruction: Seq<char>,
    query: Seq<char>,
    document: Seq<char>,
) -> Seq<char> {
    replace_all(
        replace_all(replace_all(template, "{instruction}"@, instruction), "{query}"@, query),
        "{document}"@,
        document,
    )
}

/// The rerank prompt for one document, when a template is available.
pub open spec fn rerank_prompt_spec(
    given_template: Option<Seq<char>>,
    model_template: Option<Seq<char>>,
    instruction: Option<Seq<char>>,
    query: Seq<char>,
    document: Seq<char>,
) -> Option<Seq<char>> {
    match rerank_template_choice(given_template, model_template) {
        None => None,
        Some(t) => Some(
            fill_rerank_template(
                t,
                match instruction {
                    Some(i) => i,
                    None => Seq::<char>::empty(),
                },
                query,
                document,
            ),
        ),
    }
}

/// Which template a rerank prompt is built from: the caller's template when
/// it is not blank; otherwise the model's rerank template, when it has one;
/// and there is no prompt only when neither is available. The chosen
/// template has `{instruction}` (empty when there is none), then `{query}`,
/// then `{document}` replaced everywhere.
pub proof fn lemma_rerank_prompt_template_choice(
    given_template: Option<Seq<char>>,
    model_template: Option<Seq<char>>,
    instruction: Option<Seq<char>>,
    query: Seq<char>,
    document: Seq<char>,
)
    ensures
        ({
            let r = rerank_prompt_spec(
                given_template,
                model_template,
                instruction,
                query,
                document,
            );
            let ins = match instruction {
                Some(i) => i,
                None => Seq::<char>::empty(),
            };
            let usable = given_template matches Some(t) && trim_chars(t).len() > 0;
            &&& usable ==> r == Some(
                replace_all(
                    replace_all(
                        replace_all(given_template->0, "{instruction}"@, ins),
                        "{query}"@,
                        query,
                    ),
                    "{document}"@,
                    document,
                ),
            )
            &&& !usable && model_template is Some ==> r == Some(
                replace_all(
                    replace_all(
                        replace_all(model_template->0, "{instruction}"@, ins),
                        "{query}"@,
                        query,
                    ),
                    "{document}"@,
                    document,
                ),
            )
            &&& r is None <==> (!usable && model_template is None)
        }),
{
}

fn replace_str(cs: Vec<char>, pat: &str, rep: &str) -> (r: Vec<char>)
    requires
        pat@.len() > 0,
    ensures
        r@ == replace_all(cs@, pat@, rep@),
{
    let p = chars_of(pat);
    let q = chars_of(rep);
    replace_chars(cs.as_slice(), p.as_slice(), q.as_slice())
}

/// Builds the rerank prompt for `query` and `document` from the caller's
/// template or, failing that, the model's `rerank` chat template.
pub fn rerank_prompt(
    options: &RerankOptions,
    model_template: Option<String>,
    query: &str,
    document: &str,
) -> (r: Option<String>)
    ensures
        opt_string_view(r) == rerank_prompt_spec(
            opt_string_view(options.prompt_template),
            opt_string_view(model_template),
            opt_string_view(options.instruction),
            query@,
            document@,
        ),
{
    let template = match &options.prompt_template {
        Some(t) => if !trims_to_empty(t.as_str()) {
            Some(chars_of(t.as_str()))
        } else {
            match &model_template {
                Some(m) => Some(chars_of(m.as_str())),
                None => None,
            }
        },
        None => match &model_template {
            Some(m) => Some(chars_of(m.as_str())),
            None => None,
        },
    };
    match template {
        None => None,
        Some(t) => {
            let instruction = match &options.instruction {
                Some(i) => chars_of(i.as_str()),
                None => Vec::new(),
            };
            let instruction_text = string_from_chars(instruction.as_slice());
            proof {
                reveal_strlit("{instruction}");
                reveal_strlit("{query}");
                reveal_strlit("{document}");
            }
            let a = replace_str(t, "{instruction}", instruction_text.as_str());
            let b = replace_str(a, "{query}", query);
            let c = replace_str(b, "{document}", document);
            Some(string_from_chars(c.as_slice()))
        },
    }
}

/// The indices at which `needle` occurs in `tokens`, in increasing order.
pub open spec fn token_positions_spec(tokens: Seq<i32>, needle: i32) -> Seq<usize>
    decreases tokens.len(),
{
    if tokens.len() == 0 {
        Seq::<usize>::empty()
    } else {
        token_positions_spec(tokens.drop_last(), needle) + if tokens.last() == needle {
            seq![(tokens.len() - 1) as usize]
        } else {
            Seq::<usize>::empty()
        }
    }
}

/// The positions found are exactly the indices at which the needle occurs,
/// each once, in increasing order.
pub proof fn lemma_token_positions_exact(tokens: Seq<i32>, needle: i32)
    requires
        tokens.len() <= usize::MAX,
    ensures
        forall|k: int|
            0 <= k < token_positions_spec(tokens, needle).len() ==> {
                let i = #[trigger] token_positions_spec(tokens, needle)[k];
                i < tokens.len() && tokens[i as int] == needle
            },
        forall|k1: int, k2: int|
            0 <= k1 < k2 < token_positions_spec(tokens, needle).len() ==> (
            #[trigger] token_positions_spec(tokens, needle)[k1]) < (
            #[trigger] token_positions_spec(tokens, needle)[k2]),
        forall|i: int|
            0 <= i < tokens.len() && #[trigger] tokens[i] == needle ==> exists|k: int|
                0 <= k < token_positions_spec(tokens, needle).len() && token_positions_spec(
                    tokens,
                    needle,
                )[k] == i,
    decreases tokens.len(),
{
    if tokens.len() > 0 {
        let t = tokens.drop_last();
        lemma_token_positions_exact(t, needle);
        let p = token_positions_spec(t, needle);
        let r = token_positions_spec(tokens, needle);
        let last = (tokens.len() - 1) as usize;
        assert(r == p + if tokens.last() == needle {
            seq![last]
        } else {
            Seq::<usize>::empty()
        });
        assert forall|k: int| 0 <= k < r.len() implies {
            let i = #[trigger] r[k];
            i < tokens.len() && tokens[i as int] == needle
        } by {
            if k < p.len() {
                assert(r[k] == p[k]);
                assert(t[p[k] as int] == tokens[p[k] as int]);
            } else {
                assert(r[k] == last);
            }
        }
        assert forall|k1: int, k2: int| 0 <= k1 < k2 < r.len() implies (#[trigger] r[k1]) < (
        #[trigger] r[k2]) by {
            assert(r[k1] == p[k1]);
            if k2 < p.len() {
                assert(r[k2] == p[k2]);
            } else {
                assert(r[k2] == last);
                let j = p[k1];
                assert(j < t.len());
            }
        }
        assert forall|i: int| 0 <= i < tokens.len() && #[trigger] tokens[i] == needle implies exists|
            k: int,
        | 0 <= k < r.len() && r[k] == i by {
            if i < tokens.len() - 1 {
                assert(t[i] == tokens[i]);
                let k = choose|k: int| 0 <= k < p.len() && p[k] == i;
                assert(r[k] == p[k]);
            } else {
                assert(r[p.len() as int] == i);
            }
        }
    }
}

/// The indices at which `needle` occurs in `tokens`, in increasing order.
pub fn token_positions(tokens: &[i32], needle: i32) -> (r: Vec<usize>)
    ensures
        r@ == token_positions_spec(tokens@, needle),
{
    let mut out: Vec<usize> = Vec::new();
    let mut i: usize = 0;
    assert(tokens@.take(0) =~= Seq::<i32>::empty());
    while i < tokens.len()
        invariant
            i <= tokens.len(),
            out@ == token_positions_spec(tokens@.take(i as int), needle),
        decreases tokens.len() - i,
    {
        let ghost t = tokens@.take(i + 1);
        assert(t.drop_last() =~= tokens@.take(i as int));
        assert(t.last() == tokens@[i as int]);
        if tokens[i] == needle {
            out.push(i);
        }
        assert(out@ =~= token_positions_spec(t, needle));
        i = i + 1;
    }
    assert(tokens@.take(tokens.len() as int) =~= tokens@);
    out
}


/// Index `a` comes before index `b` in a ranking by descending key, ties kept
/// in index order (a stable sort by descending score).
pub open spec fn ranked_before(keys: Seq<i32>, a: usize, b: usize) -> bool {
    keys[a as int] > keys[b as int] || (keys[a as int] == keys[b as int] && a < b)
}

/// `order` holds the index `v` somewhere.
pub open spec fn lists(order: Seq<usize>, v: usize) -> bool {
    exists|i: int| 0 <= i < order.len() && order[i] == v
}

/// `order` lists the indices `0..n` once each.
pub open spec fn is_index_permutation(order: Seq<usize>, n: nat) -> bool {
    &&& order.len() == n
    &&& forall|i: int| 0 <= i < order.len() ==> #[trigger] order[i] < n
    &&& forall|i: int, j: int| 0 <= i < j < order.len() ==> order[i] != order[j]
    &&& forall|v: usize| v < n ==> #[trigger] lists(order, v)
}

/// `order` is the ranking of `keys`: every index once, each one ranked
/// before all that follow it.
pub open spec fn is_rank_order(keys: Seq<i32>, order: Seq<usize>) -> bool {
    &&& is_index_permutation(order, keys.len())
    &&& forall|i: int, j: int|
        0 <= i < j < order.len() ==> ranked_before(keys, #[trigger] order[i], #[trigger] order[j])
}

/// The order in which scored entries are ranked: by descending key, equal
/// keys in their input order. Position `r` of the result holds the index
/// of the entry of rank `r`.
pub fn rank_order(keys: &[i32]) -> (order: Vec<usize>)
    ensures
        is_rank_order(keys@, order@),
{
    let mut order: Vec<usize> = Vec::new();
    let mut i: usize = 0;
    while i < keys.len()
        invariant
            i <= keys.len(),
            is_index_permutation(order@, i as nat),
            forall|a: int, b: int|
                0 <= a < b < order@.len() ==> ranked_before(
                    keys@,
                    #[trigger] order@[a],
                    #[trigger] order@[b],
                ),
        decreases keys.len() - i,
    {
        let mut p: usize = 0;
        while p < order.len() && keys[order[p]] >= keys[i]
            invariant
                p <= order.len(),
                i < keys.len(),
                forall|k: int| 0 <= k < order@.len() ==> #[trigger] order@[k] < i,
                forall|a: int| 0 <= a < p ==> keys@[#[trigger] order@[a] as int] >= keys@[i as int],
            decreases order.len() - p,
        {
            p = p + 1;
        }
        let ghost old_order = order@;
        order.insert(p, i);
        assert(order@ =~= old_order.take(p as int).push(i).add(old_order.skip(p as int)));
        assert forall|k: int| 0 <= k < order@.len() implies #[trigger] order@[k] < i + 1 by {
            if k < p {
                assert(order@[k] == old_order[k]);
            } else if k > p {
                assert(order@[k] == old_order[k - 1]);
            }
        }
        assert forall|v: usize| v < i + 1 implies #[trigger] lists(order@, v) by {
            if v == i {
                assert(order@[p as int] == i);
            } else {
                assert(lists(old_order, v));
                let k = choose|k: int| 0 <= k < old_order.len() && old_order[k] == v;
                if k < p {
                    assert(order@[k] == v);
                } else {
                    assert(order@[k + 1] == v);
                }
            }
        }
        assert forall|a: int, b: int| 0 <= a < b < order@.len() implies order@[a] != order@[b] by {
            if a < p && b < p {
                assert(order@[a] == old_order[a] && order@[b] == old_order[b]);
            } else if a < p && b > p {
                assert(order@[a] == old_order[a] && order@[b] == old_order[b - 1]);
            } else if a > p && b > p {
                assert(order@[a] == old_order[a - 1] && order@[b] == old_order[b - 1]);
            } else if a == p {
                assert(order@[b] == old_order[b - 1]);
            } else {
                assert(order@[a] == old_order[a]);
            }
        }
        assert forall|a: int, b: int| 0 <= a < b < order@.len() implies ranked_before(
            keys@,
            #[trigger] order@[a],
            #[trigger] order@[b],
        ) by {
            if a < p && b < p {
                assert(order@[a] == old_order[a] && order@[b] == old_order[b]);
            } else if a < p && b > p {
                assert(order@[a] == old_order[a] && order@[b] == old_order[b - 1]);
            } else if a > p && b > p {
                assert(order@[a] == old_order[a - 1] && order@[b] == old_order[b - 1]);
            } else if a == p {
                assert(order@[b] == old_order[b - 1]);
                assert(p < old_order.len());
                assert(keys@[old_order[p as int] as int] < keys@[i as int]);
                if b - 1 > p {
                    assert(ranked_before(keys@, old_order[p as int], old_order[b - 1]));
                }
            } else {
                assert(order@[a] == old_order[a]);
                assert(b == p);
                assert(keys@[old_order[a] as int] >= keys@[i as int]);
            }
        }
        i = i + 1;
    }
    order
}

/// The ranking of a list of keys is unique: two orders that both rank the
/// keys agree at every position.
pub proof fn lemma_rank_order_unique(keys: Seq<i32>, o1: Seq<usize>, o2: Seq<usize>)
    requires
        is_rank_order(keys, o1),
        is_rank_order(keys, o2),
    ensures
        o1 == o2,
{
    if o1.len() > 0 {
        lemma_rank_prefix_equal(keys, o1, o2, o1.len() - 1);
    }
    assert(o1 =~= o2);
}

proof fn lemma_rank_prefix_equal(keys: Seq<i32>, o1: Seq<usize>, o2: Seq<usize>, r: int)
    requires
        is_rank_order(keys, o1),
        is_rank_order(keys, o2),
        0 <= r < o1.len(),
    ensures
        forall|q: int| 0 <= q <= r ==> o1[q] == o2[q],
    decreases r,
{
    if r > 0 {
        lemma_rank_prefix_equal(keys, o1, o2, r - 1);
    }
    let a = o1[r];
    let b = o2[r];
    if a != b {
        assert(lists(o1, b));
        let s = choose|s: int| 0 <= s < o1.len() && o1[s] == b;
        assert(lists(o2, a));
        let t = choose|t: int| 0 <= t < o2.len() && o2[t] == a;
        if s < r {
            assert(o1[s] == o2[s]);
        }
        if t < r {
            assert(o1[t] == o2[t]);
        }
        assert(ranked_before(keys, o1[r], o1[s]));
        assert(ranked_before(keys, o2[r], o2[t]));
    }
}

/// The entry ranked first has the highest key.
pub proof fn lemma_first_ranked_is_best(keys: Seq<i32>, order: Seq<usize>, j: usize)
    requires
        is_rank_order(keys, order),
        j < keys.len(),
    ensures
        keys[order[0] as int] >= keys[j as int],
{
    assert(lists(order, j));
    let k = choose|k: int| 0 <= k < order.len() && order[k] == j;
    if k > 0 {
        assert(ranked_before(keys, order[0], order[k]));
    }
}

/// What the model's vocabulary says about the markers that frame a
/// query/document pair.
#[derive(Clone, Copy, Debug, PartialEq, Eq, Structural)]
pub struct VocabMarkers {
    pub add_bos: bool,
    pub add_eos: bool,
    pub add_sep: bool,
    pub bos: i32,
    pub eos: i32,
    pub sep: i32,
}

/// A marker token, unless it is the null token.
pub open spec fn marker(token: i32) -> Seq<i32> {
    if token != -1 {
        seq![token]
    } else {
        Seq::<i32>::empty()
    }
}

/// The tokens of a query/document pair framed by the vocabulary's markers.
pub open spec fn fallback_tokens_spec(m: VocabMarkers, query: Seq<i32>, document: Seq<i32>) -> Seq<
    i32,
> {
    (if m.add_bos {
        marker(m.bos)
    } else {
        Seq::<i32>::empty()
    }) + query + (if m.add_eos {
        marker(m.eos)
    } else {
        Seq::<i32>::empty()
    }) + (if m.add_sep {
        marker(m.sep)
    } else if !m.add_eos {
        marker(m.eos)
    } else {
        Seq::<i32>::empty()
    }) + document + (if m.add_eos {
        marker(m.eos)
    } else {
        Seq::<i32>::empty()
    })
}

/// How a query/document pair is framed without a rerank template. With
/// `B` the begin marker when the vocabulary adds one, `E` the end marker
/// when it adds one, and null tokens left out: the result is
/// `B query E sep document E` when the vocabulary adds a separator, whether
/// or not it also adds end markers; `B query E document E` when its
/// separator is the null token; and `B query eos document E`, with one end
/// marker between the two, when it adds no separator.
pub proof fn lemma_fallback_tokens_layout(m: VocabMarkers, query: Seq<i32>, document: Seq<i32>)
    ensures
        ({
            let b = if m.add_bos && m.bos != -1 {
                seq![m.bos]
            } else {
                Seq::<i32>::empty()
            };
            let e = if m.add_eos && m.eos != -1 {
                seq![m.eos]
            } else {
                Seq::<i32>::empty()
            };
            let r = fallback_tokens_spec(m, query, document);
            &&& m.add_sep && m.sep != -1 ==> r == b + query + e + seq![m.sep] + document + e
            &&& m.add_sep && m.sep == -1 ==> r == b + query + e + document + e
            &&& !m.add_sep && m.eos != -1 ==> r == b + query + seq![m.eos] + document + e
            &&& !m.add_sep && m.eos == -1 ==> r == b + query + document
        }),
{
    let b = if m.add_bos && m.bos != -1 {
        seq![m.bos]
    } else {
        Seq::<i32>::empty()
    };
    let e = if m.add_eos && m.eos != -1 {
        seq![m.eos]
    } else {
        Seq::<i32>::empty()
    };
    let r = fallback_tokens_spec(m, query, document);
    if m.add_sep && m.sep != -1 {
        assert(r =~= b + query + e + seq![m.sep] + document + e);
    }
    if m.add_sep && m.sep == -1 {
        assert(r =~= b + query + e + document + e);
    }
    if !m.add_sep && m.eos != -1 {
        assert(r =~= b + query + seq![m.eos] + document + e);
    }
    if !m.add_sep && m.eos == -1 {
        assert(r =~= b + query + document);
    }
}

/// Appends `token` unless it is the null token.
pub fn push_if_token(tokens: &mut Vec<i32>, token: i32)
    ensures
        final(tokens)@ == old(tokens)@ + marker(token),
{
    if token != -1 {
        tokens.push(token);
    }
    assert(final(tokens)@ =~= old(tokens)@ + marker(token));
}

fn extend_tokens(tokens: &mut Vec<i32>, more: &[i32])
    ensures
        final(tokens)@ == old(tokens)@ + more@,
{
    let mut i: usize = 0;
    while i < more.len()
        invariant
            i <= more.len(),
            tokens@ == old(tokens)@ + more@.take(i as int),
        decreases more.len() - i,
    {
        tokens.push(more[i]);
        assert(more@.take(i + 1) =~= more@.take(i as int).push(more@[i as int]));
        i = i + 1;
    }
    assert(more@.take(more.len() as int) =~= more@);
}

/// The tokens of a query/document pair for a model without a rerank
/// template: the query and document tokens framed by the vocabulary's
/// begin, end and separator markers.
pub fn rerank_fallback_tokens(markers: &VocabMarkers, query: &[i32], document: &[i32]) -> (r: Vec<
    i32,
>)
    ensures
        r@ == fallback_tokens_spec(*markers, query@, document@),
{
    let mut tokens: Vec<i32> = Vec::new();
    if markers.add_bos {
        push_if_token(&mut tokens, markers.bos);
    }
    extend_tokens(&mut tokens, query);
    if markers.add_eos {
        push_if_token(&mut tokens, markers.eos);
    }
    if markers.add_sep {
        push_if_token(&mut tokens, markers.sep);
    } else if !markers.add_eos {
        push_if_token(&mut tokens, markers.eos);
    }
    extend_tokens(&mut tokens, document);
    if markers.add_eos {
        push_if_token(&mut tokens, markers.eos);
    }
    assert(tokens@ =~= fallback_tokens_spec(*markers, query@, document@));
    tokens
}

} // verus!
