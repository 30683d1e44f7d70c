//! Lightweight token estimates: one token per whitespace-delimited word.
use vstd::prelude::*;

use crate::models::chat::ChatMessage;
use crate::text::{chars_of, word_count, words};

verus! {

/// Estimated tokens of a text: its word count, truncated to `u32`.
pub open spec fn text_tokens(s: Seq<char>) -> u32 {
    words(s).len() as u32
}

/// Sum of the per-message estimates.
pub open spec fn messages_tokens(m: Seq<ChatMessage>) -> nat
    decreases m.len(),
{
    if m.len() == 0 {
        0
    } else {
        messages_tokens(m.drop_last()) + text_tokens(m.last().content@) as nat
    }
}

/// Estimated tokens of `text`: the number of whitespace-delimited words.
pub fn estimate_tokens_for_text(text: &str) -> (n: u32)
    ensures
        n == text_tokens(text@),
{
    let v = chars_of(text);
    word_count(v.as_slice()) as u32
}

/// Whether the message estimates add up to a `u32`.
pub fn message_tokens_fit(messages: &[ChatMessage]) -> (b: bool)
    ensures
        b == (messages_tokens(messages@) <= u32::MAX),
{
    let n = messages.len();
    let mut total: u64 = 0;
    for i in 0..n
        invariant
            n == messages@.len(),
            total == messages_tokens(messages@.take(i as int)),
            total <= u32::MAX,
    {
        proof {
            assert(messages@.take(i + 1).drop_last() =~= messages@.take(i as int));
        }
        total = total + estimate_tokens_for_text(messages[i].content.as_str()) as u64;
        if total > 0xffff_ffffu64 {
            proof {
                lemma_messages_tokens_prefix_le(messages@, i + 1);
            }
            return false;
        }
    }
    assert(messages@.take(n as int) =~= messages@);
    true
}

pub proof fn lemma_messages_tokens_prefix_le(m: Seq<ChatMessage>, k: int)
    requires
        0 <= k <= m.len(),
    ensures
        messages_tokens(m.take(k)) <= messages_tokens(m),
    decreases m.len() - k,
{
    if k < m.len() {
        lemma_messages_tokens_prefix_le(m, k + 1);
        assert(m.take(k + 1).drop_last() =~= m.take(k));
    } else {
        assert(m.take(k) =~= m);
    }
}

/// Sum of the token estimates of all message contents.
pub fn estimate_tokens_for_messages(messages: &[ChatMessage]) -> (n: u32)
    requires
        messages_tokens(messages@) <= u32::MAX,
    ensures
        n == messages_tokens(messages@),
{
    let len = messages.len();
    let mut total: u32 = 0;
    for i in 0..len
        invariant
            len == messages@.len(),
            messages_tokens(messages@) <= u32::MAX,
            total == messages_tokens(messages@.take(i as int)),
    {
        proof {
            assert(messages@.take(i + 1).drop_last() =~= messages@.take(i as int));
            lemma_messages_tokens_prefix_le(messages@, i + 1);
        }
        total = total + estimate_tokens_for_text(messages[i].content.as_str());
    }
    assert(messages@.take(len as int) =~= messages@);
    total
}

/// The estimate of a conversation is the sum of the estimates of its parts:
/// nothing for no messages, and a message's text estimate whatever its role.
pub proof fn law_message_estimate_is_additive(a: Seq<ChatMessage>, b: Seq<ChatMessage>)
    ensures
        messages_tokens(a + b) == messages_tokens(a) + messages_tokens(b),
        messages_tokens(Seq::<ChatMessage>::empty()) == 0,
        forall|m: ChatMessage| #[trigger] messages_tokens(seq![m]) == text_tokens(m.content@),
    decreases b.len(),
{
    assert forall|m: ChatMessage| #[trigger] messages_tokens(seq![m]) == text_tokens(m.content@) by {
        assert(seq![m].drop_last() =~= Seq::<ChatMessage>::empty());
        assert(messages_tokens(Seq::<ChatMessage>::empty()) == 0);
        assert(seq![m].last() == m);
        assert(messages_tokens(seq![m]) == messages_tokens(seq![m].drop_last()) + text_tokens(seq![m].last().content@) as nat);
    }
    if b.len() > 0 {
        law_message_estimate_is_additive(a, b.drop_last());
        assert((a + b).drop_last() =~= a + b.drop_last());
    } else {
        assert(a + b =~= a);
    }
}

} // verus!
