//! Plain-value mirrors of the `llama.h` declarations that the library's
//! logic reads: the C enums, with their C codes, and the opaque handle types.
#![allow(non_camel_case_types)]

use vstd::prelude::*;

verus! {

/// The seed that asks `llama.cpp` to pick a random seed.
pub const LLAMA_DEFAULT_SEED: u32 = 0xFFFF_FFFFu32;

/// The token id that stands for "no token".
pub const LLAMA_TOKEN_NULL: i32 = -1i32;

/// A position in a sequence.
pub type llama_pos = i32;

/// A token id.
pub type llama_token = i32;

/// A sequence id.
pub type llama_seq_id = i32;

/// Opaque `llama.cpp` vocabulary.
pub struct llama_vocab {
    _opaque: (),
}

/// Opaque `llama.cpp` model.
pub struct llama_model {
    _opaque: (),
}

/// Opaque `llama.cpp` context.
pub struct llama_context {
    _opaque: (),
}

/// Opaque `llama.cpp` sampler.
pub struct llama_sampler {
    _opaque: (),
}

/// Opaque `llama.cpp` memory.
pub struct llama_memory_i {
    _opaque: (),
}

/// Opaque model key/value override.
pub struct llama_model_kv_override {
    _opaque: (),
}

/// Opaque tensor buffer-type override.
pub struct llama_model_tensor_buft_override {
    _opaque: (),
}

/// Opaque per-sequence sampler configuration.
pub struct llama_sampler_seq_config {
    _opaque: (),
}

/// Parameters of a sampler chain.
#[derive(Clone, Copy, Debug, PartialEq, Eq, Structural)]
pub struct llama_sampler_chain_params {
    pub no_perf: bool,
}

/// The scaling type for rotary position embeddings (`llama_rope_scaling_type` in `llama.h`).
#[derive(Clone, Copy, Debug, PartialEq, Eq, Structural)]
pub enum llama_rope_scaling_type {
    Unspecified,
    NoScaling,
    Linear,
    Yarn,
    LongRope,
}

/// The C code of each `llama_rope_scaling_type` variant.
pub open spec fn llama_rope_scaling_type_code(t: llama_rope_scaling_type) -> i32 {
    match t {
        llama_rope_scaling_type::Unspecified => -1i32,
        llama_rope_scaling_type::NoScaling => 0i32,
        llama_rope_scaling_type::Linear => 1i32,
        llama_rope_scaling_type::Yarn => 2i32,
        llama_rope_scaling_type::LongRope => 3i32,
    }
}

/// The `llama_rope_scaling_type` value with a C code, if any.
pub open spec fn llama_rope_scaling_type_from_code(code: i32) -> Option<llama_rope_scaling_type> {
    if code == -1i32 {
        Some(llama_rope_scaling_type::Unspecified)
    } else if code == 0i32 {
        Some(llama_rope_scaling_type::NoScaling)
    } else if code == 1i32 {
        Some(llama_rope_scaling_type::Linear)
    } else if code == 2i32 {
        Some(llama_rope_scaling_type::Yarn)
    } else if code == 3i32 {
        Some(llama_rope_scaling_type::LongRope)
    } else {
        None
    }
}

impl llama_rope_scaling_type {
    /// The C code of this value.
    pub fn to_raw(&self) -> (r: i32)
        ensures
            r == llama_rope_scaling_type_code(*self),
    {
        match self {
            llama_rope_scaling_type::Unspecified => -1i32,
            llama_rope_scaling_type::NoScaling => 0i32,
            llama_rope_scaling_type::Linear => 1i32,
            llama_rope_scaling_type::Yarn => 2i32,
            llama_rope_scaling_type::LongRope => 3i32,
        }
    }

    /// The value with the given C code, if any.
    pub fn from_raw(code: i32) -> (r: Option<llama_rope_scaling_type>)
        ensures
            r == llama_rope_scaling_type_from_code(code),
    {
        if code == -1i32 {
            Some(llama_rope_scaling_type::Unspecified)
        } else if code == 0i32 {
            Some(llama_rope_scaling_type::NoScaling)
        } else if code == 1i32 {
            Some(llama_rope_scaling_type::Linear)
        } else if code == 2i32 {
            Some(llama_rope_scaling_type::Yarn)
        } else if code == 3i32 {
            Some(llama_rope_scaling_type::LongRope)
        } else {
            None
        }
    }
}

/// The how token embeddings are pooled into a sequence embedding (`llama_pooling_type` in `llama.h`).
#[derive(Clone, Copy, Debug, PartialEq, Eq, Structural)]
pub enum llama_pooling_type {
    Unspecified,
    NoPooling,
    Mean,
    Cls,
    Last,
    Rank,
}

/// The C code of each `llama_pooling_type` variant.
pub open spec fn llama_pooling_type_code(t: llama_pooling_type) -> i32 {
    match t {
        llama_pooling_type::Unspecified => -1i32,
        llama_pooling_type::NoPooling => 0i32,
        llama_pooling_type::Mean => 1i32,
        llama_pooling_type::Cls => 2i32,
        llama_pooling_type::Last => 3i32,
        llama_pooling_type::Rank => 4i32,
    }
}

/// The `llama_pooling_type` value with a C code, if any.
pub open spec fn llama_pooling_type_from_code(code: i32) -> Option<llama_pooling_type> {
    if code == -1i32 {
        Some(llama_pooling_type::Unspecified)
    } else if code == 0i32 {
        Some(llama_pooling_type::NoPooling)
    } else if code == 1i32 {
        Some(llama_pooling_type::Mean)
    } else if code == 2i32 {
        Some(llama_pooling_type::Cls)
    } else if code == 3i32 {
        Some(llama_pooling_type::Last)
    } else if code == 4i32 {
        Some(llama_pooling_type::Rank)
    } else {
        None
    }
}

impl llama_pooling_type {
    /// The C code of this value.
    pub fn to_raw(&self) -> (r: i32)
        ensures
            r == llama_pooling_type_code(*self),
    {
        match self {
            llama_pooling_type::Unspecified => -1i32,
            llama_pooling_type::NoPooling => 0i32,
            llama_pooling_type::Mean => 1i32,
            llama_pooling_type::Cls => 2i32,
            llama_pooling_type::Last => 3i32,
            llama_pooling_type::Rank => 4i32,
        }
    }

    /// The value with the given C code, if any.
    pub fn from_raw(code: i32) -> (r: Option<llama_pooling_type>)
        ensures
            r == llama_pooling_type_from_code(code),
    {
        if code == -1i32 {
            Some(llama_pooling_type::Unspecified)
        } else if code == 0i32 {
            Some(llama_pooling_type::NoPooling)
        } else if code == 1i32 {
            Some(llama_pooling_type::Mean)
        } else if code == 2i32 {
            Some(llama_pooling_type::Cls)
        } else if code == 3i32 {
            Some(llama_pooling_type::Last)
        } else if code == 4i32 {
            Some(llama_pooling_type::Rank)
        } else {
            None
        }
    }
}

/// The attention mask used for embeddings (`llama_attention_type` in `llama.h`).
#[derive(Clone, Copy, Debug, PartialEq, Eq, Structural)]
pub enum llama_attention_type {
    Unspecified,
    Causal,
    NonCausal,
}

/// The C code of each `llama_attention_type` variant.
pub open spec fn llama_attention_type_code(t: llama_attention_type) -> i32 {
    match t {
        llama_attention_type::Unspecified => -1i32,
        llama_attention_type::Causal => 0i32,
        llama_attention_type::NonCausal => 1i32,
    }
}

/// The `llama_attention_type` value with a C code, if any.
pub open spec fn llama_attention_type_from_code(code: i32) -> Option<llama_attention_type> {
    if code == -1i32 {
        Some(llama_attention_type::Unspecified)
    } else if code == 0i32 {
        Some(llama_attention_type::Causal)
    } else if code == 1i32 {
        Some(llama_attention_type::NonCausal)
    } else {
        None
    }
}

impl llama_attention_type {
    /// The C code of this value.
    pub fn to_raw(&self) -> (r: i32)
        ensures
            r == llama_attention_type_code(*self),
    {
        match self {
            llama_attention_type::Unspecified => -1i32,
            llama_attention_type::Causal => 0i32,
            llama_attention_type::NonCausal => 1i32,
        }
    }

    /// The value with the given C code, if any.
    pub fn from_raw(code: i32) -> (r: Option<llama_attention_type>)
        ensures
            r == llama_attention_type_from_code(code),
    {
        if code == -1i32 {
            Some(llama_attention_type::Unspecified)
        } else if code == 0i32 {
            Some(llama_attention_type::Causal)
        } else if code == 1i32 {
            Some(llama_attention_type::NonCausal)
        } else {
            None
        }
    }
}

/// The flash attention setting (`llama_flash_attn_type` in `llama.h`).
#[derive(Clone, Copy, Debug, PartialEq, Eq, Structural)]
pub enum llama_flash_attn_type {
    Auto,
    Disabled,
    Enabled,
}

/// The C code of each `llama_flash_attn_type` variant.
pub open spec fn llama_flash_attn_type_code(t: llama_flash_attn_type) -> i32 {
    match t {
        llama_flash_attn_type::Auto => -1i32,
        llama_flash_attn_type::Disabled => 0i32,
        llama_flash_attn_type::Enabled => 1i32,
    }
}

/// The `llama_flash_attn_type` value with a C code, if any.
pub open spec fn llama_flash_attn_type_from_code(code: i32) -> Option<llama_flash_attn_type> {
    if code == -1i32 {
        Some(llama_flash_attn_type::Auto)
    } else if code == 0i32 {
        Some(llama_flash_attn_type::Disabled)
    } else if code == 1i32 {
        Some(llama_flash_attn_type::Enabled)
    } else {
        None
    }
}

impl llama_flash_attn_type {
    /// The C code of this value.
    pub fn to_raw(&self) -> (r: i32)
        ensures
            r == llama_flash_attn_type_code(*self),
    {
        match self {
            llama_flash_attn_type::Auto => -1i32,
            llama_flash_attn_type::Disabled => 0i32,
            llama_flash_attn_type::Enabled => 1i32,
        }
    }

    /// The value with the given C code, if any.
    pub fn from_raw(code: i32) -> (r: Option<llama_flash_attn_type>)
        ensures
            r == llama_flash_attn_type_from_code(code),
    {
        if code == -1i32 {
            Some(llama_flash_attn_type::Auto)
        } else if code == 0i32 {
            Some(llama_flash_attn_type::Disabled)
        } else if code == 1i32 {
            Some(llama_flash_attn_type::Enabled)
        } else {
            None
        }
    }
}

/// The kind of context (`llama_context_type` in `llama.h`).
#[derive(Clone, Copy, Debug, PartialEq, Eq, Structural)]
pub enum llama_context_type {
    Default,
    Mtp,
}

/// The C code of each `llama_context_type` variant.
pub open spec fn llama_context_type_code(t: llama_context_type) -> i32 {
    match t {
        llama_context_type::Default => 0i32,
        llama_context_type::Mtp => 1i32,
    }
}

/// The `llama_context_type` value with a C code, if any.
pub open spec fn llama_context_type_from_code(code: i32) -> Option<llama_context_type> {
    if code == 0i32 {
        Some(llama_context_type::Default)
    } else if code == 1i32 {
        Some(llama_context_type::Mtp)
    } else {
        None
    }
}

impl llama_context_type {
    /// The C code of this value.
    pub fn to_raw(&self) -> (r: i32)
        ensures
            r == llama_context_type_code(*self),
    {
        match self {
            llama_context_type::Default => 0i32,
            llama_context_type::Mtp => 1i32,
        }
    }

    /// The value with the given C code, if any.
    pub fn from_raw(code: i32) -> (r: Option<llama_context_type>)
        ensures
            r == llama_context_type_from_code(code),
    {
        if code == 0i32 {
            Some(llama_context_type::Default)
        } else if code == 1i32 {
            Some(llama_context_type::Mtp)
        } else {
            None
        }
    }
}

/// The how a model is split across devices (`llama_split_mode` in `llama.h`).
#[derive(Clone, Copy, Debug, PartialEq, Eq, Structural)]
pub enum llama_split_mode {
    NoSplit,
    Layer,
    Row,
    Tensor,
}

/// The C code of each `llama_split_mode` variant.
pub open spec fn llama_split_mode_code(t: llama_split_mode) -> i32 {
    match t {
        llama_split_mode::NoSplit => 0i32,
        llama_split_mode::Layer => 1i32,
        llama_split_mode::Row => 2i32,
        llama_split_mode::Tensor => 3i32,
    }
}

/// The `llama_split_mode` value with a C code, if any.
pub open spec fn llama_split_mode_from_code(code: i32) -> Option<llama_split_mode> {
    if code == 0i32 {
        Some(llama_split_mode::NoSplit)
    } else if code == 1i32 {
        Some(llama_split_mode::Layer)
    } else if code == 2i32 {
        Some(llama_split_mode::Row)
    } else if code == 3i32 {
        Some(llama_split_mode::Tensor)
    } else {
        None
    }
}

impl llama_split_mode {
    /// The C code of this value.
    pub fn to_raw(&self) -> (r: i32)
        ensures
            r == llama_split_mode_code(*self),
    {
        match self {
            llama_split_mode::NoSplit => 0i32,
            llama_split_mode::Layer => 1i32,
            llama_split_mode::Row => 2i32,
            llama_split_mode::Tensor => 3i32,
        }
    }

    /// The value with the given C code, if any.
    pub fn from_raw(code: i32) -> (r: Option<llama_split_mode>)
        ensures
            r == llama_split_mode_from_code(code),
    {
        if code == 0i32 {
            Some(llama_split_mode::NoSplit)
        } else if code == 1i32 {
            Some(llama_split_mode::Layer)
        } else if code == 2i32 {
            Some(llama_split_mode::Row)
        } else if code == 3i32 {
            Some(llama_split_mode::Tensor)
        } else {
            None
        }
    }
}

/// The tensor element type (`ggml_type` in `llama.h`).
#[derive(Clone, Copy, Debug, PartialEq, Eq, Structural)]
pub enum ggml_type {
    F32,
    F16,
    Q4_0,
    Q4_1,
    Q5_0,
    Q5_1,
    Q8_0,
    Q8_1,
    Q2K,
    Q3K,
    Q4K,
    Q5K,
    Q6K,
    Q8K,
    Iq2Xxs,
    Iq2Xs,
    Iq3Xxs,
    Iq1S,
    Iq4Nl,
    Iq3S,
    Iq2S,
    Iq4Xs,
    I8,
    I16,
    I32,
    I64,
    F64,
    Iq1M,
    Bf16,
    Tq1_0,
    Tq2_0,
}

/// The C code of each `ggml_type` variant.
pub open spec fn ggml_type_code(t: ggml_type) -> i32 {
    match t {
        ggml_type::F32 => 0i32,
        ggml_type::F16 => 1i32,
        ggml_type::Q4_0 => 2i32,
        ggml_type::Q4_1 => 3i32,
        ggml_type::Q5_0 => 6i32,
        ggml_type::Q5_1 => 7i32,
        ggml_type::Q8_0 => 8i32,
        ggml_type::Q8_1 => 9i32,
        ggml_type::Q2K => 10i32,
        ggml_type::Q3K => 11i32,
        ggml_type::Q4K => 12i32,
        ggml_type::Q5K => 13i32,
        ggml_type::Q6K => 14i32,
        ggml_type::Q8K => 15i32,
        ggml_type::Iq2Xxs => 16i32,
        ggml_type::Iq2Xs => 17i32,
        ggml_type::Iq3Xxs => 18i32,
        ggml_type::Iq1S => 19i32,
        ggml_type::Iq4Nl => 20i32,
        ggml_type::Iq3S => 21i32,
        ggml_type::Iq2S => 22i32,
        ggml_type::Iq4Xs => 23i32,
        ggml_type::I8 => 24i32,
        ggml_type::I16 => 25i32,
        ggml_type::I32 => 26i32,
        ggml_type::I64 => 27i32,
        ggml_type::F64 => 28i32,
        ggml_type::Iq1M => 29i32,
        ggml_type::Bf16 => 30i32,
        ggml_type::Tq1_0 => 34i32,
        ggml_type::Tq2_0 => 35i32,
    }
}

/// The `ggml_type` value with a C code, if any.
pub open spec fn ggml_type_from_code(code: i32) -> Option<ggml_type> {
    if code == 0i32 {
        Some(ggml_type::F32)
    } else if code == 1i32 {
        Some(ggml_type::F16)
    } else if code == 2i32 {
        Some(ggml_type::Q4_0)
    } else if code == 3i32 {
        Some(ggml_type::Q4_1)
    } else if code == 6i32 {
        Some(ggml_type::Q5_0)
    } else if code == 7i32 {
        Some(ggml_type::Q5_1)
    } else if code == 8i32 {
        Some(ggml_type::Q8_0)
    } else if code == 9i32 {
        Some(ggml_type::Q8_1)
    } else if code == 10i32 {
        Some(ggml_type::Q2K)
    } else if code == 11i32 {
        Some(ggml_type::Q3K)
    } else if code == 12i32 {
        Some(ggml_type::Q4K)
    } else if code == 13i32 {
        Some(ggml_type::Q5K)
    } else if code == 14i32 {
        Some(ggml_type::Q6K)
    } else if code == 15i32 {
        Some(ggml_type::Q8K)
    } else if code == 16i32 {
        Some(ggml_type::Iq2Xxs)
    } else if code == 17i32 {
        Some(ggml_type::Iq2Xs)
    } else if code == 18i32 {
        Some(ggml_type::Iq3Xxs)
    } else if code == 19i32 {
        Some(ggml_type::Iq1S)
    } else if code == 20i32 {
        Some(ggml_type::Iq4Nl)
    } else if code == 21i32 {
        Some(ggml_type::Iq3S)
    } else if code == 22i32 {
        Some(ggml_type::Iq2S)
    } else if code == 23i32 {
        Some(ggml_type::Iq4Xs)
    } else if code == 24i32 {
        Some(ggml_type::I8)
    } else if code == 25i32 {
        Some(ggml_type::I16)
    } else if code == 26i32 {
        Some(ggml_type::I32)
    } else if code == 27i32 {
        Some(ggml_type::I64)
    } else if code == 28i32 {
        Some(ggml_type::F64)
    } else if code == 29i32 {
        Some(ggml_type::Iq1M)
    } else if code == 30i32 {
        Some(ggml_type::Bf16)
    } else if code == 34i32 {
        Some(ggml_type::Tq1_0)
    } else if code == 35i32 {
        Some(ggml_type::Tq2_0)
    } else {
        None
    }
}

impl ggml_type {
    /// The C code of this value.
    pub fn to_raw(&self) -> (r: i32)
        ensures
            r == ggml_type_code(*self),
    {
        match self {
            ggml_type::F32 => 0i32,
            ggml_type::F16 => 1i32,
            ggml_type::Q4_0 => 2i32,
            ggml_type::Q4_1 => 3i32,
            ggml_type::Q5_0 => 6i32,
            ggml_type::Q5_1 => 7i32,
            ggml_type::Q8_0 => 8i32,
            ggml_type::Q8_1 => 9i32,
            ggml_type::Q2K => 10i32,
            ggml_type::Q3K => 11i32,
            ggml_type::Q4K => 12i32,
            ggml_type::Q5K => 13i32,
            ggml_type::Q6K => 14i32,
            ggml_type::Q8K => 15i32,
            ggml_type::Iq2Xxs => 16i32,
            ggml_type::Iq2Xs => 17i32,
            ggml_type::Iq3Xxs => 18i32,
            ggml_type::Iq1S => 19i32,
            ggml_type::Iq4Nl => 20i32,
            ggml_type::Iq3S => 21i32,
            ggml_type::Iq2S => 22i32,
            ggml_type::Iq4Xs => 23i32,
            ggml_type::I8 => 24i32,
            ggml_type::I16 => 25i32,
            ggml_type::I32 => 26i32,
            ggml_type::I64 => 27i32,
            ggml_type::F64 => 28i32,
            ggml_type::Iq1M => 29i32,
            ggml_type::Bf16 => 30i32,
            ggml_type::Tq1_0 => 34i32,
            ggml_type::Tq2_0 => 35i32,
        }
    }

    /// The value with the given C code, if any.
    pub fn from_raw(code: i32) -> (r: Option<ggml_type>)
        ensures
            r == ggml_type_from_code(code),
    {
        if code == 0i32 {
            Some(ggml_type::F32)
        } else if code == 1i32 {
            Some(ggml_type::F16)
        } else if code == 2i32 {
            Some(ggml_type::Q4_0)
        } else if code == 3i32 {
            Some(ggml_type::Q4_1)
        } else if code == 6i32 {
            Some(ggml_type::Q5_0)
        } else if code == 7i32 {
            Some(ggml_type::Q5_1)
        } else if code == 8i32 {
            Some(ggml_type::Q8_0)
        } else if code == 9i32 {
            Some(ggml_type::Q8_1)
        } else if code == 10i32 {
            Some(ggml_type::Q2K)
        } else if code == 11i32 {
            Some(ggml_type::Q3K)
        } else if code == 12i32 {
            Some(ggml_type::Q4K)
        } else if code == 13i32 {
            Some(ggml_type::Q5K)
        } else if code == 14i32 {
            Some(ggml_type::Q6K)
        } else if code == 15i32 {
            Some(ggml_type::Q8K)
        } else if code == 16i32 {
            Some(ggml_type::Iq2Xxs)
        } else if code == 17i32 {
            Some(ggml_type::Iq2Xs)
        } else if code == 18i32 {
            Some(ggml_type::Iq3Xxs)
        } else if code == 19i32 {
            Some(ggml_type::Iq1S)
        } else if code == 20i32 {
            Some(ggml_type::Iq4Nl)
        } else if code == 21i32 {
            Some(ggml_type::Iq3S)
        } else if code == 22i32 {
            Some(ggml_type::Iq2S)
        } else if code == 23i32 {
            Some(ggml_type::Iq4Xs)
        } else if code == 24i32 {
            Some(ggml_type::I8)
        } else if code == 25i32 {
            Some(ggml_type::I16)
        } else if code == 26i32 {
            Some(ggml_type::I32)
        } else if code == 27i32 {
            Some(ggml_type::I64)
        } else if code == 28i32 {
            Some(ggml_type::F64)
        } else if code == 29i32 {
            Some(ggml_type::Iq1M)
        } else if code == 30i32 {
            Some(ggml_type::Bf16)
        } else if code == 34i32 {
            Some(ggml_type::Tq1_0)
        } else if code == 35i32 {
            Some(ggml_type::Tq2_0)
        } else {
            None
        }
    }
}


/// Converting a `llama_rope_scaling_type` value to its C code and back gives the value again,
/// and a code that names a value is that value's code.
pub proof fn lemma_llama_rope_scaling_type_code_round_trip(t: llama_rope_scaling_type, code: i32)
    ensures
        llama_rope_scaling_type_from_code(llama_rope_scaling_type_code(t)) == Some(t),
        llama_rope_scaling_type_from_code(code) matches Some(u) ==> llama_rope_scaling_type_code(u) == code,
{
}

/// Converting a `llama_pooling_type` value to its C code and back gives the value again,
/// and a code that names a value is that value's code.
pub proof fn lemma_llama_pooling_type_code_round_trip(t: llama_pooling_type, code: i32)
    ensures
        llama_pooling_type_from_code(llama_pooling_type_code(t)) == Some(t),
        llama_pooling_type_from_code(code) matches Some(u) ==> llama_pooling_type_code(u) == code,
{
}

/// Converting a `llama_attention_type` value to its C code and back gives the value again,
/// and a code that names a value is that value's code.
pub proof fn lemma_llama_attention_type_code_round_trip(t: llama_attention_type, code: i32)
    ensures
        llama_attention_type_from_code(llama_attention_type_code(t)) == Some(t),
        llama_attention_type_from_code(code) matches Some(u) ==> llama_attention_type_code(u) == code,
{
}

/// Converting a `llama_flash_attn_type` value to its C code and back gives the value again,
/// and a code that names a value is that value's code.
pub proof fn lemma_llama_flash_attn_type_code_round_trip(t: llama_flash_attn_type, code: i32)
    ensures
        llama_flash_attn_type_from_code(llama_flash_attn_type_code(t)) == Some(t),
        llama_flash_attn_type_from_code(code) matches Some(u) ==> llama_flash_attn_type_code(u) == code,
{
}

/// Converting a `llama_context_type` value to its C code and back gives the value again,
/// and a code that names a value is that value's code.
pub proof fn lemma_llama_context_type_code_round_trip(t: llama_context_type, code: i32)
    ensures
        llama_context_type_from_code(llama_context_type_code(t)) == Some(t),
        llama_context_type_from_code(code) matches Some(u) ==> llama_context_type_code(u) == code,
{
}

/// Converting a `llama_split_mode` value to its C code and back gives the value again,
/// and a code that names a value is that value's code.
pub proof fn lemma_llama_split_mode_code_round_trip(t: llama_split_mode, code: i32)
    ensures
        llama_split_mode_from_code(llama_split_mode_code(t)) == Some(t),
        llama_split_mode_from_code(code) matches Some(u) ==> llama_split_mode_code(u) == code,
{
}

/// Converting a `ggml_type` value to its C code and back gives the value again,
/// and a code that names a value is that value's code.
pub proof fn lemma_ggml_type_code_round_trip(t: ggml_type, code: i32)
    ensures
        ggml_type_from_code(ggml_type_code(t)) == Some(t),
        ggml_type_from_code(code) matches Some(u) ==> ggml_type_code(u) == code,
{
}


/// The C codes of `llama_rope_scaling_type` are those that `llama.h` gives its constants
/// (Unspecified is -1, NoScaling is 0, Linear is 1, Yarn is 2, LongRope is 3), and no other code names a value.
pub proof fn lemma_llama_rope_scaling_type_header_codes(code: i32)
    ensures
        llama_rope_scaling_type_code(llama_rope_scaling_type::Unspecified) == -1i32,
        llama_rope_scaling_type_code(llama_rope_scaling_type::NoScaling) == 0i32,
        llama_rope_scaling_type_code(llama_rope_scaling_type::Linear) == 1i32,
        llama_rope_scaling_type_code(llama_rope_scaling_type::Yarn) == 2i32,
        llama_rope_scaling_type_code(llama_rope_scaling_type::LongRope) == 3i32,
        llama_rope_scaling_type_from_code(-1i32) == Some(llama_rope_scaling_type::Unspecified),
        llama_rope_scaling_type_from_code(0i32) == Some(llama_rope_scaling_type::NoScaling),
        llama_rope_scaling_type_from_code(1i32) == Some(llama_rope_scaling_type::Linear),
        llama_rope_scaling_type_from_code(2i32) == Some(llama_rope_scaling_type::Yarn),
        llama_rope_scaling_type_from_code(3i32) == Some(llama_rope_scaling_type::LongRope),
        !(code == -1i32 || code == 0i32 || code == 1i32 || code == 2i32 || code == 3i32) ==> llama_rope_scaling_type_from_code(code) is None,
{
}

/// The C codes of `llama_pooling_type` are those that `llama.h` gives its constants
/// (Unspecified is -1, NoPooling is 0, Mean is 1, Cls is 2, Last is 3, Rank is 4), and no other code names a value.
pub proof fn lemma_llama_pooling_type_header_codes(code: i32)
    ensures
        llama_pooling_type_code(llama_pooling_type::Unspecified) == -1i32,
        llama_pooling_type_code(llama_pooling_type::NoPooling) == 0i32,
        llama_pooling_type_code(llama_pooling_type::Mean) == 1i32,
        llama_pooling_type_code(llama_pooling_type::Cls) == 2i32,
        llama_pooling_type_code(llama_pooling_type::Last) == 3i32,
        llama_pooling_type_code(llama_pooling_type::Rank) == 4i32,
        llama_pooling_type_from_code(-1i32) == Some(llama_pooling_type::Unspecified),
        llama_pooling_type_from_code(0i32) == Some(llama_pooling_type::NoPooling),
        llama_pooling_type_from_code(1i32) == Some(llama_pooling_type::Mean),
        llama_pooling_type_from_code(2i32) == Some(llama_pooling_type::Cls),
        llama_pooling_type_from_code(3i32) == Some(llama_pooling_type::Last),
        llama_pooling_type_from_code(4i32) == Some(llama_pooling_type::Rank),
        !(code == -1i32 || code == 0i32 || code == 1i32 || code == 2i32 || code == 3i32 || code == 4i32) ==> llama_pooling_type_from_code(code) is None,
{
}

/// The C codes of `llama_attention_type` are those that `llama.h` gives its constants
/// (Unspecified is -1, Causal is 0, NonCausal is 1), and no other code names a value.
pub proof fn lemma_llama_attention_type_header_codes(code: i32)
    ensures
        llama_attention_type_code(llama_attention_type::Unspecified) == -1i32,
        llama_attention_type_code(llama_attention_type::Causal) == 0i32,
        llama_attention_type_code(llama_attention_type::NonCausal) == 1i32,
        llama_attention_type_from_code(-1i32) == Some(llama_attention_type::Unspecified),
        llama_attention_type_from_code(0i32) == Some(llama_attention_type::Causal),
        llama_attention_type_from_code(1i32) == Some(llama_attention_type::NonCausal),
        !(code == -1i32 || code == 0i32 || code == 1i32) ==> llama_attention_type_from_code(code) is None,
{
}

/// The C codes of `llama_flash_attn_type` are those that `llama.h` gives its constants
/// (Auto is -1, Disabled is 0, Enabled is 1), and no other code names a value.
pub proof fn lemma_llama_flash_attn_type_header_codes(code: i32)
    ensures
        llama_flash_attn_type_code(llama_flash_attn_type::Auto) == -1i32,
        llama_flash_attn_type_code(llama_flash_attn_type::Disabled) == 0i32,
        llama_flash_attn_type_code(llama_flash_attn_type::Enabled) == 1i32,
        llama_flash_attn_type_from_code(-1i32) == Some(llama_flash_attn_type::Auto),
        llama_flash_attn_type_from_code(0i32) == Some(llama_flash_attn_type::Disabled),
        llama_flash_attn_type_from_code(1i32) == Some(llama_flash_attn_type::Enabled),
        !(code == -1i32 || code == 0i32 || code == 1i32) ==> llama_flash_attn_type_from_code(code) is None,
{
}

/// The C codes of `llama_context_type` are those that `llama.h` gives its constants
/// (Default is 0, Mtp is 1), and no other code names a value.
pub proof fn lemma_llama_context_type_header_codes(code: i32)
    ensures
        llama_context_type_code(llama_context_type::Default) == 0i32,
        llama_context_type_code(llama_context_type::Mtp) == 1i32,
        llama_context_type_from_code(0i32) == Some(llama_context_type::Default),
        llama_context_type_from_code(1i32) == Some(llama_context_type::Mtp),
        !(code == 0i32 || code == 1i32) ==> llama_context_type_from_code(code) is None,
{
}

/// The C codes of `llama_split_mode` are those that `llama.h` gives its constants
/// (NoSplit is 0, Layer is 1, Row is 2, Tensor is 3), and no other code names a value.
pub proof fn lemma_llama_split_mode_header_codes(code: i32)
    ensures
        llama_split_mode_code(llama_split_mode::NoSplit) == 0i32,
        llama_split_mode_code(llama_split_mode::Layer) == 1i32,
        llama_split_mode_code(llama_split_mode::Row) == 2i32,
        llama_split_mode_code(llama_split_mode::Tensor) == 3i32,
        llama_split_mode_from_code(0i32) == Some(llama_split_mode::NoSplit),
        llama_split_mode_from_code(1i32) == Some(llama_split_mode::Layer),
        llama_split_mode_from_code(2i32) == Some(llama_split_mode::Row),
        llama_split_mode_from_code(3i32) == Some(llama_split_mode::Tensor),
        !(code == 0i32 || code == 1i32 || code == 2i32 || code == 3i32) ==> llama_split_mode_from_code(code) is None,
{
}

/// The C codes of `ggml_type` are those that `llama.h` gives its constants
/// (F32 is 0, F16 is 1, Q4_0 is 2, Q4_1 is 3, Q5_0 is 6, Q5_1 is 7, Q8_0 is 8, Q8_1 is 9, Q2K is 10, Q3K is 11, Q4K is 12, Q5K is 13, Q6K is 14, Q8K is 15, Iq2Xxs is 16, Iq2Xs is 17, Iq3Xxs is 18, Iq1S is 19, Iq4Nl is 20, Iq3S is 21, Iq2S is 22, Iq4Xs is 23, I8 is 24, I16 is 25, I32 is 26, I64 is 27, F64 is 28, Iq1M is 29, Bf16 is 30, Tq1_0 is 34, Tq2_0 is 35), and no other code names a value.
pub proof fn lemma_ggml_type_header_codes(code: i32)
    ensures
        ggml_type_code(ggml_type::F32) == 0i32,
        ggml_type_code(ggml_type::F16) == 1i32,
        ggml_type_code(ggml_type::Q4_0) == 2i32,
        ggml_type_code(ggml_type::Q4_1) == 3i32,
        ggml_type_code(ggml_type::Q5_0) == 6i32,
        ggml_type_code(ggml_type::Q5_1) == 7i32,
        ggml_type_code(ggml_type::Q8_0) == 8i32,
        ggml_type_code(ggml_type::Q8_1) == 9i32,
        ggml_type_code(ggml_type::Q2K) == 10i32,
        ggml_type_code(ggml_type::Q3K) == 11i32,
        ggml_type_code(ggml_type::Q4K) == 12i32,
        ggml_type_code(ggml_type::Q5K) == 13i32,
        ggml_type_code(ggml_type::Q6K) == 14i32,
        ggml_type_code(ggml_type::Q8K) == 15i32,
        ggml_type_code(ggml_type::Iq2Xxs) == 16i32,
        ggml_type_code(ggml_type::Iq2Xs) == 17i32,
        ggml_type_code(ggml_type::Iq3Xxs) == 18i32,
        ggml_type_code(ggml_type::Iq1S) == 19i32,
        ggml_type_code(ggml_type::Iq4Nl) == 20i32,
        ggml_type_code(ggml_type::Iq3S) == 21i32,
        ggml_type_code(ggml_type::Iq2S) == 22i32,
        ggml_type_code(ggml_type::Iq4Xs) == 23i32,
        ggml_type_code(ggml_type::I8) == 24i32,
        ggml_type_code(ggml_type::I16) == 25i32,
        ggml_type_code(ggml_type::I32) == 26i32,
        ggml_type_code(ggml_type::I64) == 27i32,
        ggml_type_code(ggml_type::F64) == 28i32,
        ggml_type_code(ggml_type::Iq1M) == 29i32,
        ggml_type_code(ggml_type::Bf16) == 30i32,
        ggml_type_code(ggml_type::Tq1_0) == 34i32,
        ggml_type_code(ggml_type::Tq2_0) == 35i32,
        ggml_type_from_code(0i32) == Some(ggml_type::F32),
        ggml_type_from_code(1i32) == Some(ggml_type::F16),
        ggml_type_from_code(2i32) == Some(ggml_type::Q4_0),
        ggml_type_from_code(3i32) == Some(ggml_type::Q4_1),
        ggml_type_from_code(6i32) == Some(ggml_type::Q5_0),
        ggml_type_from_code(7i32) == Some(ggml_type::Q5_1),
        ggml_type_from_code(8i32) == Some(ggml_type::Q8_0),
        ggml_type_from_code(9i32) == Some(ggml_type::Q8_1),
        ggml_type_from_code(10i32) == Some(ggml_type::Q2K),
        ggml_type_from_code(11i32) == Some(ggml_type::Q3K),
        ggml_type_from_code(12i32) == Some(ggml_type::Q4K),
        ggml_type_from_code(13i32) == Some(ggml_type::Q5K),
        ggml_type_from_code(14i32) == Some(ggml_type::Q6K),
        ggml_type_from_code(15i32) == Some(ggml_type::Q8K),
        ggml_type_from_code(16i32) == Some(ggml_type::Iq2Xxs),
        ggml_type_from_code(17i32) == Some(ggml_type::Iq2Xs),
        ggml_type_from_code(18i32) == Some(ggml_type::Iq3Xxs),
        ggml_type_from_code(19i32) == Some(ggml_type::Iq1S),
        ggml_type_from_code(20i32) == Some(ggml_type::Iq4Nl),
        ggml_type_from_code(21i32) == Some(ggml_type::Iq3S),
        ggml_type_from_code(22i32) == Some(ggml_type::Iq2S),
        ggml_type_from_code(23i32) == Some(ggml_type::Iq4Xs),
        ggml_type_from_code(24i32) == Some(ggml_type::I8),
        ggml_type_from_code(25i32) == Some(ggml_type::I16),
        ggml_type_from_code(26i32) == Some(ggml_type::I32),
        ggml_type_from_code(27i32) == Some(ggml_type::I64),
        ggml_type_from_code(28i32) == Some(ggml_type::F64),
        ggml_type_from_code(29i32) == Some(ggml_type::Iq1M),
        ggml_type_from_code(30i32) == Some(ggml_type::Bf16),
        ggml_type_from_code(34i32) == Some(ggml_type::Tq1_0),
        ggml_type_from_code(35i32) == Some(ggml_type::Tq2_0),
        !(code == 0i32 || code == 1i32 || code == 2i32 || code == 3i32 || code == 6i32 || code == 7i32 || code == 8i32 || code == 9i32 || code == 10i32 || code == 11i32 || code == 12i32 || code == 13i32 || code == 14i32 || code == 15i32 || code == 16i32 || code == 17i32 || code == 18i32 || code == 19i32 || code == 20i32 || code == 21i32 || code == 22i32 || code == 23i32 || code == 24i32 || code == 25i32 || code == 26i32 || code == 27i32 || code == 28i32 || code == 29i32 || code == 30i32 || code == 34i32 || code == 35i32) ==> ggml_type_from_code(code) is None,
{
}

} // verus!
