//! Translation of chat requests for the Anthropic Messages API.
use vstd::prelude::*;

use crate::models::chat::{ChatMessage, ChatRole};
use crate::providers::provider::ProviderError;
use crate::text::{push_str, seq_join};

verus! {

/// A message in Anthropic's format: system text is carried separately.
#[derive(Debug, Clone)]
pub struct AnthropicMessage {
    pub role: &'static str,
    pub content: String,
}

/// System and developer instructions are lifted out of the conversation.
pub open spec fn is_instruction(r: ChatRole) -> bool {
    r == ChatRole::System || r == ChatRole::Developer
}

/// Anthropic role name of a conversation message.
pub open spec fn anthropic_role(r: ChatRole) -> Seq<char> {
    if r == ChatRole::Assistant { "assistant"@ } else { "user"@ }
}

/// The instruction texts of `m`, in order.
pub open spec fn instruction_texts(m: Seq<ChatMessage>) -> Seq<Seq<char>>
    decreases m.len(),
{
    if m.len() == 0 {
        Seq::empty()
    } else if is_instruction(m.last().role) {
        instruction_texts(m.drop_last()).push(m.last().content@)
    } else {
        instruction_texts(m.drop_last())
    }
}

/// The (role, content) pairs of the conversation messages of `m`, in order.
pub open spec fn conversation_of(m: Seq<ChatMessage>) -> Seq<(Seq<char>, Seq<char>)>
    decreases m.len(),
{
    if m.len() == 0 {
        Seq::empty()
    } else if is_instruction(m.last().role) {
        conversation_of(m.drop_last())
    } else {
        conversation_of(m.drop_last()).push((anthropic_role(m.last().role), m.last().content@))
    }
}

/// Splits instructions from the conversation: the instructions are joined by a
/// blank line into the system prompt (absent when there are none); the other
/// messages keep their order, assistant turns as `assistant` and the rest as `user`.
pub fn split_system_messages(messages: Vec<ChatMessage>) -> (r: (Option<String>, Vec<AnthropicMessage>))
    ensures
        match r.0 {
            None => instruction_texts(messages@).len() == 0,
            Some(s) => instruction_texts(messages@).len() > 0 && s@ == seq_join(instruction_texts(messages@), "\n\n"@),
        },
        r.1@.map_values(|a: AnthropicMessage| (a.role@, a.content@)) == conversation_of(messages@),
{
    let n = messages.len();
    let mut system = String::new();
    let mut any: bool = false;
    let mut converted: Vec<AnthropicMessage> = Vec::new();
    proof {
        reveal_strlit("user");
        reveal_strlit("assistant");
    }
    for i in 0..n
        invariant
            n == messages@.len(),
            any == (instruction_texts(messages@.take(i as int)).len() > 0),
            system@ == seq_join(instruction_texts(messages@.take(i as int)), "\n\n"@),
            converted@.map_values(|a: AnthropicMessage| (a.role@, a.content@)) == conversation_of(
                messages@.take(i as int),
            ),
    {
        let m = &messages[i];
        let ghost prev = messages@.take(i as int);
        proof {
            assert(messages@.take(i + 1).drop_last() =~= prev);
        }
        match m.role {
            ChatRole::System | ChatRole::Developer => {
                proof {
                    crate::text::lemma_join_push(instruction_texts(prev), m.content@, "\n\n"@);
                }
                if any {
                    push_str(&mut system, "\n\n");
                }
                push_str(&mut system, m.content.as_str());
                any = true;
            },
            ChatRole::Assistant => {
                let ghost before = converted@;
                converted.push(AnthropicMessage { role: "assistant", content: m.content.clone() });
                proof {
                    assert(converted@.map_values(|a: AnthropicMessage| (a.role@, a.content@)) =~= before.map_values(
                        |a: AnthropicMessage| (a.role@, a.content@),
                    ).push(("assistant"@, m.content@)));
                }
            },
            ChatRole::User | ChatRole::Tool => {
                let ghost before = converted@;
                converted.push(AnthropicMessage { role: "user", content: m.content.clone() });
                proof {
                    assert(converted@.map_values(|a: AnthropicMessage| (a.role@, a.content@)) =~= before.map_values(
                        |a: AnthropicMessage| (a.role@, a.content@),
                    ).push(("user"@, m.content@)));
                }
            },
        }
    }
    proof {
        assert(messages@.take(n as int) =~= messages@);
    }
    if !any {
        (None, converted)
    } else {
        (Some(system), converted)
    }
}

/// The provider error for an unsuccessful HTTP status.
pub open spec fn spec_status_error(status: u16) -> ProviderError {
    if status == 401 || status == 403 {
        ProviderError::AuthenticationFailed
    } else if status == 429 {
        ProviderError::RateLimited
    } else if status == 408 || status == 504 {
        ProviderError::Timeout
    } else if 500 <= status <= 599 {
        ProviderError::ProviderUnavailable
    } else {
        ProviderError::ProviderBadResponse
    }
}

/// Maps an unsuccessful upstream HTTP status to a provider error.
pub fn map_http_status(status: u16) -> (e: ProviderError)
    ensures
        e == spec_status_error(status),
{
    if status == 401 || status == 403 {
        ProviderError::AuthenticationFailed
    } else if status == 429 {
        ProviderError::RateLimited
    } else if status == 408 || status == 504 {
        ProviderError::Timeout
    } else if 500 <= status && status <= 599 {
        ProviderError::ProviderUnavailable
    } else {
        ProviderError::ProviderBadResponse
    }
}

} // verus!
