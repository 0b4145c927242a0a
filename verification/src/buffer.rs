//! The buffer-growth protocols around `llama.cpp` calls that write into a
//! caller-supplied buffer and report how much room they needed.
//!
//! The tokenizer and the detokenizer return the number of items written, or
//! the negated number of items needed when the buffer was too small. The chat
//! template call returns the number of bytes the full result needs. The
//! functions here decide, from one call's return value, whether the result is
//! complete, the buffer must grow, or the call failed.

use vstd::prelude::*;
use crate::error::{Error, Result};
use crate::options::ChatMessage;

verus! {

/// What to do after a call that wrote into a buffer.
#[derive(Clone, Copy, Debug, PartialEq, Eq, Structural)]
pub enum BufferStep {
    /// The result is complete: keep this many items of the buffer.
    Done(usize),
    /// Call again with a buffer of this many items.
    Grow(usize),
    /// The call failed.
    Fail,
}

/// The step after a tokenizer-style call that returned `written` into a
/// buffer of `capacity` items: a non-negative count is the result (the buffer
/// is cut to it, never extended); a negative one is the room needed, and a
/// retry only makes sense when that is more than the buffer had.
pub open spec fn resize_step_spec(capacity: usize, written: i32) -> BufferStep {
    if written >= 0 {
        BufferStep::Done(
            if written as int <= capacity as int {
                written as usize
            } else {
                capacity
            },
        )
    } else if written == i32::MIN {
        BufferStep::Fail
    } else if -written <= capacity as int {
        BufferStep::Fail
    } else {
        BufferStep::Grow((-written) as usize)
    }
}

/// The step after a tokenizer-style call.
pub fn resize_step(capacity: usize, written: i32) -> (step: BufferStep)
    ensures
        step == resize_step_spec(capacity, written),
        step matches BufferStep::Grow(n) ==> n > capacity,
        step matches BufferStep::Done(n) ==> n <= capacity,
        0 <= written <= capacity ==> step == BufferStep::Done(written as usize),
        written >= 0 && written > capacity ==> step == BufferStep::Done(capacity),
        written < 0 && written != i32::MIN && -written > capacity ==> step == BufferStep::Grow(
            (-written) as usize,
        ),
        written < 0 && -written <= capacity ==> step == BufferStep::Fail,
        written == i32::MIN ==> step == BufferStep::Fail,
{
    if written >= 0 {
        let w = written as usize;
        if w <= capacity {
            BufferStep::Done(w)
        } else {
            BufferStep::Done(capacity)
        }
    } else {
        if written == i32::MIN {
            return BufferStep::Fail;
        }
        let needed = (0 - written) as usize;
        if needed <= capacity {
            BufferStep::Fail
        } else {
            BufferStep::Grow(needed)
        }
    }
}

/// The step after a chat-template call that returned `written` for a buffer
/// of `capacity` bytes: a length that fits is the result, a larger one is the
/// size to retry with, and a negative one is a failure.
pub open spec fn template_step_spec(capacity: usize, written: i32) -> BufferStep {
    if written >= 0 && written as int <= capacity as int {
        BufferStep::Done(written as usize)
    } else if written <= 0 {
        BufferStep::Fail
    } else {
        BufferStep::Grow(written as usize)
    }
}

/// The step after a chat-template call.
pub fn template_step(capacity: usize, written: i32) -> (step: BufferStep)
    ensures
        step == template_step_spec(capacity, written),
        step matches BufferStep::Grow(n) ==> n > capacity,
        step matches BufferStep::Done(n) ==> n <= capacity,
        0 <= written <= capacity ==> step == BufferStep::Done(written as usize),
        written > capacity ==> step == BufferStep::Grow(written as usize),
        written < 0 ==> step == BufferStep::Fail,
{
    if written >= 0 && (written as usize) <= capacity {
        BufferStep::Done(written as usize)
    } else if written <= 0 {
        BufferStep::Fail
    } else {
        BufferStep::Grow(written as usize)
    }
}

/// `a + b`, or `usize::MAX` when it does not fit.
pub open spec fn saturating_sum(a: int, b: int) -> int {
    if a + b > usize::MAX {
        usize::MAX as int
    } else {
        a + b
    }
}

/// The first token buffer for a text of `text_len` bytes: eight more than the
/// text is long.
pub fn token_buffer_capacity(text_len: usize) -> (c: usize)
    ensures
        c as int == saturating_sum(text_len as int, 8),
        c >= 8,
{
    text_len.saturating_add(8)
}

/// The first text buffer for detokenizing `n_tokens` tokens: eight bytes per
/// token, at least 32.
pub fn detokenize_buffer_capacity(n_tokens: usize) -> (c: usize)
    ensures
        c as int == (if n_tokens * 8 > usize::MAX {
            usize::MAX as int
        } else if n_tokens * 8 < 32 {
            32
        } else {
            n_tokens * 8
        }),
{
    match n_tokens.checked_mul(8) {
        None => usize::MAX,
        Some(n) => if n < 32 {
            32
        } else {
            n
        },
    }
}

/// The first buffer for one token's text.
pub fn piece_buffer_capacity() -> (c: usize)
    ensures
        c == 32,
{
    32
}

/// The UTF-8 length of a string.
pub open spec fn utf8_len(s: Seq<char>) -> int {
    vstd::utf8::encode_utf8(s).len() as int
}

/// The room a chat's messages are budgeted: for each message its role and
/// content lengths in bytes plus sixteen.
pub open spec fn message_budget(messages: Seq<ChatMessage>) -> int
    decreases messages.len(),
{
    if messages.len() == 0 {
        0
    } else {
        message_budget(messages.drop_last()) + utf8_len(messages.last().role@) + utf8_len(
            messages.last().content@,
        ) + 16
    }
}

/// Each message adds its role's and its content's UTF-8 lengths plus
/// sixteen to the budget, whatever messages come before or after it.
pub proof fn lemma_message_budget_additive(a: Seq<ChatMessage>, b: Seq<ChatMessage>)
    ensures
        message_budget(a + b) == message_budget(a) + message_budget(b),
    decreases b.len(),
{
    if b.len() == 0 {
        assert(a + b =~= a);
    } else {
        lemma_message_budget_additive(a, b.drop_last());
        assert((a + b).drop_last() =~= a + b.drop_last());
        assert((a + b).last() == b.last());
    }
}

/// The budget of a single message is its role's and its content's UTF-8
/// lengths plus sixteen.
pub proof fn lemma_message_budget_single(m: ChatMessage)
    ensures
        message_budget(seq![m]) == utf8_len(m.role@) + utf8_len(m.content@) + 16,
{
    assert(seq![m].drop_last() =~= Seq::<ChatMessage>::empty());
    assert(message_budget(Seq::<ChatMessage>::empty()) == 0);
    assert(seq![m].last() == m);
}

/// The first buffer for applying a chat template: twice the messages'
/// budget, at least 256 bytes.
pub fn chat_buffer_capacity(messages: &[ChatMessage]) -> (c: usize)
    requires
        message_budget(messages@) <= usize::MAX,
    ensures
        c as int == (if 2 * message_budget(messages@) > usize::MAX {
            usize::MAX as int
        } else if 2 * message_budget(messages@) < 256 {
            256
        } else {
            2 * message_budget(messages@)
        }),
{
    let mut sum: usize = 0;
    let mut i: usize = 0;
    assert(messages@.take(0) =~= Seq::<ChatMessage>::empty());
    while i < messages.len()
        invariant
            i <= messages.len(),
            message_budget(messages@) <= usize::MAX,
            sum as int == message_budget(messages@.take(i as int)),
        decreases messages.len() - i,
    {
        let ghost t = messages@.take(i + 1);
        assert(t.drop_last() =~= messages@.take(i as int));
        assert(t.last() == messages@[i as int]);
        proof {
            lemma_budget_prefix(messages@, i + 1);
        }
        let r = messages[i].role.as_str().len();
        let c = messages[i].content.as_str().len();
        sum = sum + r + c + 16;
        i = i + 1;
    }
    assert(messages@.take(messages.len() as int) =~= messages@);
    match sum.checked_mul(2) {
        None => usize::MAX,
        Some(n) => if n < 256 {
            256
        } else {
            n
        },
    }
}

proof fn lemma_budget_prefix(messages: Seq<ChatMessage>, k: int)
    requires
        0 <= k <= messages.len(),
    ensures
        message_budget(messages.take(k)) <= message_budget(messages),
    decreases messages.len() - k,
{
    if k < messages.len() {
        lemma_budget_prefix(messages, k + 1);
        assert(messages.take(k + 1).drop_last() =~= messages.take(k));
    } else {
        assert(messages.take(k) =~= messages);
    }
}

/// Whether `s` can be handed to C as a nul-terminated string, that is, has
/// no nul character.
pub fn check_c_string(s: &str) -> (r: Result<()>)
    ensures
        r is Ok <==> !s@.contains('\0'),
        r matches Err(e) ==> e == Error::InvalidCString,
{
    let cs = crate::text::chars_of(s);
    let mut i: usize = 0;
    while i < cs.len()
        invariant
            i <= cs.len(),
            cs@ == s@,
            forall|j: int| 0 <= j < i ==> s@[j] != '\0',
        decreases cs.len() - i,
    {
        if cs[i] == '\0' {
            assert(s@[i as int] == '\0');
            return Err(Error::InvalidCString);
        }
        i = i + 1;
    }
    Ok(())
}

/// Whether a chat template and messages can be handed to C: none of them
/// holds a nul character.
pub fn check_chat_inputs(template: Option<&str>, messages: &[ChatMessage]) -> (r: Result<()>)
    ensures
        r is Ok <==> (match template {
            Some(t) => !t@.contains('\0'),
            None => true,
        } && forall|i: int|
            0 <= i < messages.len() ==> !(#[trigger] messages@[i]).role@.contains('\0')
                && !messages@[i].content@.contains('\0')),
        r matches Err(e) ==> e == Error::InvalidCString,
{
    if let Some(t) = template {
        check_c_string(t)?;
    }
    let mut i: usize = 0;
    while i < messages.len()
        invariant
            i <= messages.len(),
            match template {
                Some(t) => !t@.contains('\0'),
                None => true,
            },
            forall|j: int|
                0 <= j < i ==> !(#[trigger] messages@[j]).role@.contains('\0')
                    && !messages@[j].content@.contains('\0'),
        decreases messages.len() - i,
    {
        check_c_string(messages[i].role.as_str())?;
        check_c_string(messages[i].content.as_str())?;
        i = i + 1;
    }
    Ok(())
}

} // verus!
