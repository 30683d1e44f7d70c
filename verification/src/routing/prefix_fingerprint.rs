//! Prefix fingerprints: a digest of the reusable part of a prompt, so that requests
//! sharing that part can be routed to the provider that has already seen it.
//!
//! Only aggregate-safe metadata leaves this module: the digest, a confidence, and
//! the length of the normalised prefix.
use vstd::prelude::*;

use crate::hashing::{sha256_digest, sha256_hex};
use crate::models::chat::{ChatCompletionRequest, ChatMessage, ChatRole};
use crate::telemetry::token_estimator::{estimate_tokens_for_text, text_tokens};
use crate::text::{chars_of, hex_lower, lemma_join_push, normalize_chars, normalized, push_char, push_str, seq_join, string_from_chars};

verus! {

/// Version of the canonical prefix encoding that the digest covers.
pub const FINGERPRINT_VERSION: u8 = 1;

/// How much a fingerprint says about reusable prompt material.
#[derive(Debug, Clone, Copy, PartialEq, Eq, Structural)]
pub enum PrefixFingerprintConfidence {
    High,
    Low,
}

pub open spec fn confidence_name(c: PrefixFingerprintConfidence) -> Seq<char> {
    match c {
        PrefixFingerprintConfidence::High => "high"@,
        PrefixFingerprintConfidence::Low => "low"@,
    }
}

impl PrefixFingerprintConfidence {
    /// Stable lowercase name of the confidence.
    pub fn as_str(self) -> (s: &'static str)
        ensures
            s@ == confidence_name(self),
    {
        match self {
            PrefixFingerprintConfidence::High => "high",
            PrefixFingerprintConfidence::Low => "low",
        }
    }
}

/// The fingerprint of a request's stable prefix.
#[derive(Debug, Clone)]
pub struct PrefixFingerprintResult {
    pub fingerprint: Option<String>,
    pub confidence: PrefixFingerprintConfidence,
    pub prefix_char_length: usize,
    pub prefix_token_estimate: u32,
}

impl PrefixFingerprintResult {
    /// A fingerprint is present and worth routing on.
    pub fn is_high_confidence(&self) -> (b: bool)
        ensures
            b == (self.confidence == PrefixFingerprintConfidence::High && self.fingerprint is Some),
    {
        self.confidence == PrefixFingerprintConfidence::High && self.fingerprint.is_some()
    }
}

/// Position of the last message written by the user.
pub open spec fn last_user_index(m: Seq<ChatMessage>) -> Option<int>
    decreases m.len(),
{
    if m.len() == 0 {
        None
    } else if m.last().role == ChatRole::User {
        Some(m.len() - 1)
    } else {
        last_user_index(m.drop_last())
    }
}

proof fn lemma_last_user_in_range(m: Seq<ChatMessage>)
    ensures
        last_user_index(m) matches Some(i) ==> 0 <= i < m.len() && m[i].role == ChatRole::User,
    decreases m.len(),
{
    if m.len() > 0 {
        lemma_last_user_in_range(m.drop_last());
    }
}

/// Number of messages before the last user message; all of them when there is none.
pub open spec fn stable_prefix_end(m: Seq<ChatMessage>) -> int {
    match last_user_index(m) {
        Some(i) => i,
        None => m.len() as int,
    }
}

/// The length of the stable prefix: everything before the last user message.
pub fn stable_prefix_len(messages: &[ChatMessage]) -> (n: usize)
    ensures
        n == stable_prefix_end(messages@),
{
    let mut i = messages.len();
    proof {
        assert(messages@.take(i as int) =~= messages@);
    }
    while i > 0
        invariant
            i <= messages@.len(),
            last_user_index(messages@) == last_user_index(messages@.take(i as int)),
        decreases i,
    {
        if messages[i - 1].role == ChatRole::User {
            proof {
                assert(messages@.take(i as int).last() == messages@[i - 1]);
            }
            return i - 1;
        }
        proof {
            assert(messages@.take(i as int).drop_last() =~= messages@.take(i - 1));
        }
        i = i - 1;
    }
    messages.len()
}

/// `text` with its words joined by single spaces.
pub fn normalize_text(text: &str) -> (s: String)
    ensures
        s@ == normalized(text@),
{
    let chars = chars_of(text);
    let norm = normalize_chars(chars.as_slice());
    string_from_chars(norm.as_slice())
}

/// A prefix message kept for the fingerprint: its position, role and normalised text.
#[derive(Debug, Clone)]
pub struct PrefixMessage {
    pub source: usize,
    pub role: ChatRole,
    pub content: String,
}

pub open spec fn message_view(p: PrefixMessage) -> (int, ChatRole, Seq<char>) {
    (p.source as int, p.role, p.content@)
}

/// Among the first `k` messages, those whose normalised text is not empty.
pub open spec fn kept_messages(m: Seq<ChatMessage>, k: nat) -> Seq<(int, ChatRole, Seq<char>)>
    decreases k,
{
    if k == 0 || k > m.len() {
        Seq::empty()
    } else {
        let prev = kept_messages(m, (k - 1) as nat);
        let c = normalized(m[k - 1].content@);
        if c.len() > 0 {
            prev.push((k - 1, m[k - 1].role, c))
        } else {
            prev
        }
    }
}

/// The kept messages of the stable prefix.
pub open spec fn prefix_messages(m: Seq<ChatMessage>) -> Seq<(int, ChatRole, Seq<char>)> {
    kept_messages(m, stable_prefix_end(m) as nat)
}

pub open spec fn kept_texts(k: Seq<(int, ChatRole, Seq<char>)>) -> Seq<Seq<char>> {
    k.map_values(|e: (int, ChatRole, Seq<char>)| e.2)
}

/// The normalised prefix text: the kept messages joined by newlines.
pub open spec fn prefix_text(m: Seq<ChatMessage>) -> Seq<char> {
    seq_join(kept_texts(prefix_messages(m)), seq!['\n'])
}

pub open spec fn high_value_role(r: ChatRole) -> bool {
    r == ChatRole::System || r == ChatRole::Developer || r == ChatRole::Tool
}

pub open spec fn kept_has_high_value_role(k: Seq<(int, ChatRole, Seq<char>)>) -> bool {
    exists|i: int| 0 <= i < k.len() && #[trigger] high_value_role(k[i].1)
}

/// The prefix carries material worth routing on: a system, developer or tool
/// message, tools, a tool choice, or a response format.
pub open spec fn has_high_value_prefix(req: ChatCompletionRequest) -> bool {
    ||| kept_has_high_value_role(prefix_messages(req.messages@))
    ||| (req.tools matches Some(t) && t.len() > 0)
    ||| req.tool_choice is Some
    ||| req.response_format is Some
}

proof fn lemma_last_user_after_update(m: Seq<ChatMessage>, i: int, replacement: ChatMessage)
    requires
        last_user_index(m) == Some(i),
        replacement.role == ChatRole::User,
    ensures
        last_user_index(m.update(i, replacement)) == Some(i),
    decreases m.len(),
{
    lemma_last_user_in_range(m);
    let m2 = m.update(i, replacement);
    if m.last().role != ChatRole::User {
        assert(m2.last() == m.last());
        assert(m2.drop_last() =~= m.drop_last().update(i, replacement));
        lemma_last_user_after_update(m.drop_last(), i, replacement);
    }
}

proof fn lemma_kept_depends_on_prefix(m1: Seq<ChatMessage>, m2: Seq<ChatMessage>, k: nat)
    requires
        k <= m1.len(),
        k <= m2.len(),
        m1.take(k as int) == m2.take(k as int),
    ensures
        kept_messages(m1, k) == kept_messages(m2, k),
    decreases k,
{
    if k > 0 {
        assert(m1[k - 1] == m1.take(k as int)[k - 1]);
        assert(m2[k - 1] == m2.take(k as int)[k - 1]);
        assert(m1.take(k - 1) =~= m1.take(k as int).take(k - 1));
        assert(m2.take(k - 1) =~= m2.take(k as int).take(k - 1));
        lemma_kept_depends_on_prefix(m1, m2, (k - 1) as nat);
    }
}

/// The prefix of a conversation ignores its final user turn: replacing the
/// last user message by another user message leaves the prefix messages and
/// the prefix text, and so what the fingerprint is built from, unchanged.
pub proof fn law_prefix_ignores_final_user_turn(m: Seq<ChatMessage>, i: int, replacement: ChatMessage)
    requires
        last_user_index(m) == Some(i),
        replacement.role == ChatRole::User,
    ensures
        prefix_messages(m.update(i, replacement)) == prefix_messages(m),
        prefix_text(m.update(i, replacement)) == prefix_text(m),
{
    lemma_last_user_in_range(m);
    lemma_last_user_after_update(m, i, replacement);
    let m2 = m.update(i, replacement);
    assert(m.take(i) =~= m2.take(i));
    lemma_kept_depends_on_prefix(m, m2, i as nat);
}

/// What the fingerprint is built from.
#[derive(Debug, Clone)]
pub struct PrefixAnalysis {
    pub messages: Vec<PrefixMessage>,
    pub prefix_char_length: usize,
    pub prefix_token_estimate: u32,
    pub has_high_value_prefix: bool,
}

/// Extracts and normalises the stable prefix of a request.
pub fn analyze_prefix(request: &ChatCompletionRequest) -> (a: PrefixAnalysis)
    ensures
        a.messages@.map_values(|p: PrefixMessage| message_view(p)) == prefix_messages(request.messages@),
        a.prefix_char_length == prefix_text(request.messages@).len(),
        a.prefix_token_estimate == text_tokens(prefix_text(request.messages@)),
        a.has_high_value_prefix == has_high_value_prefix(*request),
{
    let ghost m = request.messages@;
    let end = stable_prefix_len(request.messages.as_slice());
    proof {
        lemma_last_user_in_range(m);
    }
    let mut messages: Vec<PrefixMessage> = Vec::new();
    let mut text = String::new();
    let mut high = false;
    for i in 0..end
        invariant
            end == stable_prefix_end(m),
            end <= m.len(),
            m == request.messages@,
            messages@.map_values(|p: PrefixMessage| message_view(p)) == kept_messages(m, i as nat),
            text@ == seq_join(kept_texts(kept_messages(m, i as nat)), seq!['\n']),
            high == kept_has_high_value_role(kept_messages(m, i as nat)),
    {
        let msg = &request.messages[i];
        let chars = chars_of(msg.content.as_str());
        let norm = normalize_chars(chars.as_slice());
        let content = string_from_chars(norm.as_slice());
        let ghost prev = kept_messages(m, i as nat);
        proof {
            assert(kept_messages(m, (i + 1) as nat) == if content@.len() > 0 {
                prev.push((i as int, m[i as int].role, content@))
            } else {
                prev
            });
        }
        if norm.len() > 0 {
            proof {
                lemma_join_push(kept_texts(prev), content@, seq!['\n']);
                assert(kept_texts(prev.push((i as int, m[i as int].role, content@))) =~= kept_texts(prev).push(content@));
            }
            if messages.len() > 0 {
                push_char(&mut text, '\n');
            }
            push_str(&mut text, content.as_str());
            let role = msg.role;
            let is_high = role == ChatRole::System || role == ChatRole::Developer || role == ChatRole::Tool;
            let ghost before = messages@;
            messages.push(PrefixMessage { source: i, role, content });
            proof {
                let next = prev.push((i as int, m[i as int].role, content@));
                assert(messages@.map_values(|p: PrefixMessage| message_view(p)) =~= next);
                if is_high {
                    assert(high_value_role(next[prev.len() as int].1));
                }
                if kept_has_high_value_role(next) && !high {
                    let j = choose|j: int| 0 <= j < next.len() && #[trigger] high_value_role(next[j].1);
                    assert(j == prev.len());
                }
                if high {
                    let j = choose|j: int| 0 <= j < prev.len() && #[trigger] high_value_role(prev[j].1);
                    assert(high_value_role(next[j].1));
                }
            }
            high = high || is_high;
        }
    }
    let has_tools = match &request.tools {
        Some(t) => t.len() > 0,
        None => false,
    };
    let high_value = high || has_tools || request.tool_choice.is_some() || request.response_format.is_some();
    let prefix_char_length = chars_of(text.as_str()).len();
    let prefix_token_estimate = estimate_tokens_for_text(text.as_str());
    PrefixAnalysis { messages, prefix_char_length, prefix_token_estimate, has_high_value_prefix: high_value }
}

/// The fingerprint of an analysed prefix, given the canonical JSON encoding of the
/// prefix (absent when encoding failed). A prefix without high-value material gets
/// no fingerprint.
pub fn fingerprint_from_analysis(analysis: &PrefixAnalysis, canonical_json: Option<&[u8]>) -> (r: PrefixFingerprintResult)
    ensures
        r.prefix_char_length == analysis.prefix_char_length,
        r.prefix_token_estimate == analysis.prefix_token_estimate,
        !analysis.has_high_value_prefix ==> r.confidence == PrefixFingerprintConfidence::Low && r.fingerprint is None,
        analysis.has_high_value_prefix ==> r.confidence == PrefixFingerprintConfidence::High && match canonical_json {
            Some(b) => r.fingerprint matches Some(f) && f@ == hex_lower(sha256_digest(b@)),
            None => r.fingerprint is None,
        },
{
    if !analysis.has_high_value_prefix {
        return PrefixFingerprintResult {
            fingerprint: None,
            confidence: PrefixFingerprintConfidence::Low,
            prefix_char_length: analysis.prefix_char_length,
            prefix_token_estimate: analysis.prefix_token_estimate,
        };
    }
    let fingerprint = match canonical_json {
        Some(b) => Some(sha256_hex(b)),
        None => None,
    };
    PrefixFingerprintResult {
        fingerprint,
        confidence: PrefixFingerprintConfidence::High,
        prefix_char_length: analysis.prefix_char_length,
        prefix_token_estimate: analysis.prefix_token_estimate,
    }
}

} // verus!
