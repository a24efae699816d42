//! Shared token-count heuristics for context-management components.
use crate::text;
use crate::llm::types::{ChatMessage, MessageView, ToolCallView};
use crate::text::{bytes_in, count_words};
use vstd::prelude::*;

verus! {

/// The larger of two numbers.
pub open spec fn larger(a: nat, b: nat) -> nat {
    if a > b {
        a
    } else {
        b
    }
}

/// The estimated tokens of a text: the higher of 1.3 tokens a word, rounded up,
/// and one token for four bytes; four more for good measure.
pub open spec fn text_tokens(s: Seq<char>) -> nat {
    larger((text::words(s) * 13 + 9) / 10 + 4, text::byte_len(s) / 4 + 4)
}

proof fn lemma_words_at_most_bytes(s: Seq<char>)
    ensures
        2 * text::words(s) <= text::byte_len(s) + 1,
{
    text::lemma_words_bound(s);
    lemma_len_at_most_bytes(s);
}

proof fn lemma_len_at_most_bytes(s: Seq<char>)
    ensures
        s.len() <= text::byte_len(s),
    decreases s.len(),
{
    if s.len() > 0 {
        lemma_len_at_most_bytes(s.drop_last());
    }
}

/// Approximate token count for a string.
///
/// Uses the higher of two heuristics so both prose (word-heavy) and JSON or code
/// (character-heavy with short tokens) are reasonably bounded:
/// - words × 1.3  (good for natural language)
/// - bytes ÷ 4    (good for dense JSON or code)
pub fn estimate_tokens(s: &str) -> (r: usize)
    ensures
        r == text_tokens(s@),
{
    let w: usize = count_words(s);
    let b: usize = bytes_in(s);
    proof {
        lemma_words_at_most_bytes(s@);
    }
    let by_words: u128 = (w as u128 * 13 + 9) / 10 + 4;
    let by_chars: u128 = b as u128 / 4 + 4;
    if by_words > by_chars {
        by_words as usize
    } else {
        by_chars as usize
    }
}

/// The tokens of a tool call.
pub open spec fn call_tokens(c: ToolCallView) -> nat {
    text_tokens(c.arguments) + text_tokens(c.name) + 4
}

/// The tokens of tool calls, together.
pub open spec fn calls_tokens(calls: Seq<ToolCallView>) -> nat
    decreases calls.len(),
{
    if calls.len() == 0 {
        0
    } else {
        calls_tokens(calls.drop_last()) + call_tokens(calls.last())
    }
}

/// The tokens of a message.
pub open spec fn message_tokens(m: MessageView) -> nat {
    (match m.content {
        Some(t) => text_tokens(t),
        None => 0,
    }) + (match m.tool_calls {
        Some(calls) => calls_tokens(calls),
        None => 0,
    }) + 4
}

/// The tokens of messages, together.
pub open spec fn messages_tokens(ms: Seq<MessageView>) -> nat
    decreases ms.len(),
{
    if ms.len() == 0 {
        0
    } else {
        messages_tokens(ms.drop_last()) + message_tokens(ms.last())
    }
}

/// A count that stops at the largest number a `usize` holds.
pub open spec fn capped(n: nat) -> nat {
    if n > usize::MAX {
        usize::MAX as nat
    } else {
        n
    }
}

fn message_cost(m: &ChatMessage) -> (r: usize)
    ensures
        r == capped(message_tokens(m@)),
{
    let content: usize = match &m.content {
        Some(t) => estimate_tokens(t.as_str()),
        None => 0,
    };
    let mut calls: usize = 0;
    if let Some(list) = &m.tool_calls {
        let mut i: usize = 0;
        while i < list.len()
            invariant
                i <= list@.len(),
                calls == capped(calls_tokens(text::views(list@).take(i as int))),
            decreases list@.len() - i,
        {
            assert(text::views(list@).take(i + 1).drop_last() =~= text::views(list@).take(i as int));
            let one: usize = estimate_tokens(
                list[i].function.arguments.as_str(),
            ).saturating_add(estimate_tokens(list[i].function.name.as_str())).saturating_add(4);
            calls = calls.saturating_add(one);
            i += 1;
        }
        assert(text::views(list@).take(i as int) =~= text::views(list@));
    }
    content.saturating_add(calls).saturating_add(4)
}

fn range_cost(messages: &Vec<ChatMessage>, from: usize, to: usize) -> (r: usize)
    requires
        from <= to <= messages@.len(),
    ensures
        r == capped(messages_tokens(text::views(messages@).subrange(from as int, to as int))),
{
    let ghost ms = text::views(messages@);
    let mut total: usize = 0;
    let mut i: usize = from;
    while i < to
        invariant
            from <= i <= to <= messages@.len(),
            ms == text::views(messages@),
            total == capped(messages_tokens(ms.subrange(from as int, i as int))),
        decreases to - i,
    {
        assert(ms.subrange(from as int, i + 1).drop_last() =~= ms.subrange(from as int, i as int));
        total = total.saturating_add(message_cost(&messages[i]));
        i += 1;
    }
    total
}

/// Approximate token count for a full message list.
pub fn messages_token_count(messages: &Vec<ChatMessage>) -> (r: usize)
    ensures
        r == capped(messages_tokens(text::views(messages@))),
{
    assert(text::views(messages@).subrange(0, messages@.len() as int) =~= text::views(messages@));
    range_cost(messages, 0, messages.len())
}

/// Something that counts the tokens of messages.
pub trait TokenCounter {
    /// The count of messages.
    spec fn counted(&self, messages: Seq<MessageView>) -> nat;

    /// Counts `messages[from..to]`.
    fn count_range(&self, messages: &Vec<ChatMessage>, from: usize, to: usize) -> (r: usize)
        requires
            from <= to <= messages@.len(),
        ensures
            r == self.counted(text::views(messages@).subrange(from as int, to as int)),
    ;
}

/// A counter that counts as the estimator does. Counts are uncalibrated: reported
/// usage does not correct them.
#[derive(Debug, Clone, Copy)]
pub struct TokenCalibration {}

impl TokenCalibration {
    pub fn new() -> (r: TokenCalibration) {
        TokenCalibration {  }
    }
}

impl TokenCounter for TokenCalibration {
    open spec fn counted(&self, messages: Seq<MessageView>) -> nat {
        capped(messages_tokens(messages))
    }

    fn count_range(&self, messages: &Vec<ChatMessage>, from: usize, to: usize) -> (r: usize) {
        range_cost(messages, from, to)
    }
}

/// Counts all of `messages`.
pub fn count_all<C: TokenCounter>(counter: &C, messages: &Vec<ChatMessage>) -> (r: usize)
    ensures
        r == counter.counted(text::views(messages@)),
{
    assert(text::views(messages@).subrange(0, messages@.len() as int) =~= text::views(messages@));
    counter.count_range(messages, 0, messages.len())
}

} // verus!
