# wwama

`wwama` wraps the `llama.cpp` C API. This crate is its verified core, written
in Verus: everything the wrapper decides around the C calls, with contracts
that Verus proves.

- `src/` is the verified library: option defaults, the buffer-growth
  protocols of the tokenizer, detokenizer and chat-template calls, batch
  planning for evaluation, the encoder/decoder and status decisions, rerank
  prompt construction (template filling, the Jina v3 listwise prompt and its
  marker sanitization), marker positions, the ranking of scored documents,
  the safetensors reader for rerank projector weights, the C codes of the
  `llama.h` enums, and the path helpers of the native build.
- `app/` is ordinary Rust around it: the `llama.h` declarations, the owners
  that free the C objects, the session operations that call `llama.cpp`,
  and the floating-point parts (projection, normalization, cosine scores).
- `tests/` exercises the library on concrete values.
