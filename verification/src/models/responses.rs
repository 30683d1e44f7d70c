//! OpenAI Responses API models and their conversion to chat requests.
use vstd::prelude::*;

use crate::models::chat::{ChatCompletionRequest, ChatMessage, ChatRole, TokenUsage};
use crate::strmap::str_eq;
use crate::text::{is_blank, push_str, seq_join, str_is_blank};

verus! {

/// A Responses API request; the temperature is carried as the IEEE-754 bit pattern of its `f32`.
#[derive(Debug, Clone)]
pub struct ResponseRequest {
    pub model: Option<String>,
    pub input: ResponseInput,
    pub instructions: Option<String>,
    pub stream: Option<bool>,
    pub temperature_bits: Option<u32>,
    pub max_output_tokens: Option<u32>,
}

/// Request input: a plain text or a list of messages.
#[derive(Debug, Clone)]
pub enum ResponseInput {
    Text(String),
    Messages(Vec<ResponseInputMessage>),
}

/// One input message.
#[derive(Debug, Clone)]
pub struct ResponseInputMessage {
    pub role: ResponseInputRole,
    pub content: ResponseInputContent,
}

/// Who wrote an input message.
#[derive(Debug, Clone, Copy, PartialEq, Eq, Structural)]
pub enum ResponseInputRole {
    System,
    Developer,
    User,
    Assistant,
}

/// Message content: a text or a list of typed parts.
#[derive(Debug, Clone)]
pub enum ResponseInputContent {
    Text(String),
    Parts(Vec<ResponseContentPart>),
}

/// A typed content part.
#[derive(Debug, Clone)]
pub struct ResponseContentPart {
    pub kind: String,
    pub text: Option<String>,
}

/// Token counts in Responses API terms.
#[derive(Debug, Clone, Copy, Default, PartialEq, Eq, Structural)]
pub struct ResponseUsage {
    pub input_tokens: u32,
    pub output_tokens: u32,
    pub total_tokens: u32,
}

/// A streamed text fragment.
#[derive(Debug, Clone)]
pub struct ResponseTextDelta {
    pub item_id: String,
    pub output_index: u32,
    pub content_index: u32,
    pub delta: String,
}

impl From<TokenUsage> for ResponseUsage {
    fn from(usage: TokenUsage) -> (r: Self)
        ensures
            r.input_tokens == usage.prompt_tokens,
            r.output_tokens == usage.completion_tokens,
            r.total_tokens == usage.total_tokens,
    {
        ResponseUsage {
            input_tokens: usage.prompt_tokens,
            output_tokens: usage.completion_tokens,
            total_tokens: usage.total_tokens,
        }
    }
}

impl vstd::std_specs::convert::FromSpecImpl<TokenUsage> for ResponseUsage {
    open spec fn obeys_from_spec() -> bool {
        true
    }

    open spec fn from_spec(usage: TokenUsage) -> Self {
        ResponseUsage {
            input_tokens: usage.prompt_tokens,
            output_tokens: usage.completion_tokens,
            total_tokens: usage.total_tokens,
        }
    }
}

/// Texts of the parts typed `input_text` or `text` that carry a text.
pub open spec fn part_texts(parts: Seq<ResponseContentPart>) -> Seq<Seq<char>>
    decreases parts.len(),
{
    if parts.len() == 0 {
        Seq::empty()
    } else {
        let p = parts.last();
        let rest = part_texts(parts.drop_last());
        if (p.kind@ == "input_text"@ || p.kind@ == "text"@) && p.text is Some {
            rest.push(p.text->0@)
        } else {
            rest
        }
    }
}

/// The text of message content.
pub open spec fn content_text(c: ResponseInputContent) -> Seq<char> {
    match c {
        ResponseInputContent::Text(t) => t@,
        ResponseInputContent::Parts(parts) => seq_join(part_texts(parts@), seq!['\n']),
    }
}

/// The chat role of an input role: developer instructions become system messages.
pub open spec fn chat_role_of(r: ResponseInputRole) -> ChatRole {
    match r {
        ResponseInputRole::System | ResponseInputRole::Developer => ChatRole::System,
        ResponseInputRole::User => ChatRole::User,
        ResponseInputRole::Assistant => ChatRole::Assistant,
    }
}

impl ResponseInputContent {
    /// The content as one text: text parts joined by newlines.
    pub fn into_text(self) -> (s: String)
        ensures
            s@ == content_text(self),
    {
        match self {
            ResponseInputContent::Text(text) => text,
            ResponseInputContent::Parts(parts) => {
                let n = parts.len();
                let mut out = String::new();
                let mut any = false;
                proof {
                    reveal_strlit("input_text");
                    reveal_strlit("text");
                    reveal_strlit("\n");
                }
                for i in 0..n
                    invariant
                        n == parts@.len(),
                        any == (part_texts(parts@.take(i as int)).len() > 0),
                        out@ == seq_join(part_texts(parts@.take(i as int)), seq!['\n']),
                {
                    let ghost prev = parts@.take(i as int);
                    proof {
                        assert(parts@.take(i + 1).drop_last() =~= prev);
                    }
                    let p = &parts[i];
                    proof {
                        reveal_strlit("input_text");
                        reveal_strlit("text");
                    }
                    let wanted = str_eq(p.kind.as_str(), "input_text") || str_eq(p.kind.as_str(), "text");
                    if wanted {
                        if let Some(t) = &p.text {
                            proof {
                                crate::text::lemma_join_push(part_texts(prev), t@, seq!['\n']);
                            }
                            if any {
                                push_str(&mut out, "\n");
                            }
                            let ghost mid = out@;
                            push_str(&mut out, t.as_str());
                            proof {
                                reveal_strlit("\n");
                                if part_texts(prev).len() == 0 {
                                    assert(mid =~= Seq::<char>::empty());
                                    assert(out@ =~= t@);
                                } else {
                                    assert(out@ =~= seq_join(part_texts(prev), seq!['\n']) + seq!['\n'] + t@);
                                }
                            }
                            any = true;
                        }
                    }
                }
                proof {
                    assert(parts@.take(n as int) =~= parts@);
                }
                out
            },
        }
    }
}

/// The chat messages a Responses request stands for: its non-blank
/// instructions as a system message, then its input.
pub open spec fn response_messages(r: ResponseRequest) -> Seq<(ChatRole, Seq<char>)> {
    let head: Seq<(ChatRole, Seq<char>)> = match r.instructions {
        Some(i) => if !is_blank(i@) { seq![(ChatRole::System, i@)] } else { Seq::empty() },
        None => Seq::empty(),
    };
    head + match r.input {
        ResponseInput::Text(t) => seq![(ChatRole::User, t@)],
        ResponseInput::Messages(ms) => ms@.map_values(
            |m: ResponseInputMessage| (chat_role_of(m.role), content_text(m.content)),
        ),
    }
}

impl ResponseRequest {
    /// Whether the caller asked for a streamed response.
    pub fn stream_enabled(&self) -> (b: bool)
        ensures
            b == (self.stream == Some(true)),
    {
        match self.stream {
            Some(b) => b,
            None => false,
        }
    }

    /// The equivalent chat completion request (no tools, no response format).
    pub fn into_chat_request(self) -> (c: ChatCompletionRequest)
        ensures
            c.model == self.model,
            c.temperature_bits == self.temperature_bits,
            c.max_tokens == self.max_output_tokens,
            c.stream == self.stream,
            c.tools is None,
            c.tool_choice is None,
            c.parallel_tool_calls is None,
            c.response_format is None,
            c.messages@.map_values(|m: ChatMessage| (m.role, m.content@)) == response_messages(self),
            forall|i: int| 0 <= i < c.messages@.len() ==> (#[trigger] c.messages@[i]).tool_calls is None
                && c.messages@[i].tool_call_id is None,
    {
        let ghost spec_self = self;
        let mut messages: Vec<ChatMessage> = Vec::new();
        if let Some(instructions) = self.instructions {
            if !str_is_blank(instructions.as_str()) {
                messages.push(
                    ChatMessage { role: ChatRole::System, content: instructions, tool_calls: None, tool_call_id: None },
                );
            }
        }
        let ghost head = messages@.map_values(|m: ChatMessage| (m.role, m.content@));
        match self.input {
            ResponseInput::Text(text) => {
                messages.push(ChatMessage { role: ChatRole::User, content: text, tool_calls: None, tool_call_id: None });
            },
            ResponseInput::Messages(input_messages) => {
                let n = input_messages.len();
                let ghost start_len = messages@.len();
                let ghost inputs = input_messages@;
                assert(input_messages@ =~= inputs.skip(0));
                let mut rest = input_messages;
                let mut i: usize = 0;
                while i < n
                    invariant
                        rest@.len() == n - i,
                        inputs.len() == n,
                        i <= n,
                        rest@ == inputs.skip(i as int),
                        messages@.len() == start_len + i,
                        messages@.map_values(|m: ChatMessage| (m.role, m.content@)) == head + inputs.take(i as int).map_values(
                            |m: ResponseInputMessage| (chat_role_of(m.role), content_text(m.content)),
                        ),
                        forall|k: int| 0 <= k < messages@.len() ==> (#[trigger] messages@[k]).tool_calls is None
                            && messages@[k].tool_call_id is None,
                    decreases n - i,
                {
                    let m = rest.remove(0);
                    proof {
                        assert(m == inputs[i as int]);
                        assert(rest@ =~= inputs.skip(i + 1));
                    }
                    let role = match m.role {
                        ResponseInputRole::System | ResponseInputRole::Developer => ChatRole::System,
                        ResponseInputRole::User => ChatRole::User,
                        ResponseInputRole::Assistant => ChatRole::Assistant,
                    };
                    let content = m.content.into_text();
                    let ghost before = messages@;
                    messages.push(ChatMessage { role, content, tool_calls: None, tool_call_id: None });
                    proof {
                        assert(inputs.take(i + 1) =~= inputs.take(i as int).push(inputs[i as int]));
                        assert(messages@.map_values(|m: ChatMessage| (m.role, m.content@)) =~= before.map_values(
                            |m: ChatMessage| (m.role, m.content@),
                        ).push((role, content@)));
                        assert(head + inputs.take(i + 1).map_values(
                            |m: ResponseInputMessage| (chat_role_of(m.role), content_text(m.content)),
                        ) =~= (head + inputs.take(i as int).map_values(
                            |m: ResponseInputMessage| (chat_role_of(m.role), content_text(m.content)),
                        )).push((role, content@)));
                    }
                    i = i + 1;
                }
                proof {
                    assert(inputs.take(n as int) =~= inputs);
                }
            },
        }
        ChatCompletionRequest {
            model: self.model,
            messages,
            temperature_bits: self.temperature_bits,
            max_tokens: self.max_output_tokens,
            stream: self.stream,
            tools: None,
            tool_choice: None,
            parallel_tool_calls: None,
            response_format: None,
        }
    }
}

} // verus!
