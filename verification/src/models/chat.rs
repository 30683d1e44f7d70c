//! Chat completion request and response models.
use serde_json::Value;
use uuid::Uuid;
use vstd::prelude::*;

use crate::error::AppError;
use crate::text::{decimal, is_blank, is_ws, push_decimal, push_str, str_is_blank};

verus! {

#[verifier::external_type_specification]
#[verifier::external_body]
pub struct ExJsonValue(Value);

/// `serde_json::Value::clone` (derived): the copy is the same JSON value.
pub assume_specification[ <Value as Clone>::clone ](v: &Value) -> (r: Value)
    ensures
        r == *v,
;

/// Limits that a chat request is validated against.
#[derive(Debug, Clone, Copy, PartialEq, Eq, Structural)]
pub struct ChatValidationLimits {
    pub max_messages_per_request: usize,
    pub max_message_content_chars: usize,
}

impl Default for ChatValidationLimits {
    fn default() -> (l: Self)
        ensures
            l.max_messages_per_request == 64,
            l.max_message_content_chars == 8_000,
    {
        ChatValidationLimits { max_messages_per_request: 64, max_message_content_chars: 8_000 }
    }
}

/// Who wrote a chat message.
#[derive(Debug, Clone, Copy, PartialEq, Eq, Structural)]
pub enum ChatRole {
    Developer,
    System,
    User,
    Assistant,
    Tool,
}

/// The function named by a tool call.
#[derive(Debug, Clone, PartialEq, Eq)]
pub struct ToolCallFunction {
    pub name: String,
    pub arguments: String,
}

/// A tool call made by the assistant.
#[derive(Debug, Clone, PartialEq, Eq)]
pub struct ToolCall {
    pub id: String,
    pub kind: String,
    pub function: ToolCallFunction,
}

/// One message of a conversation.
#[derive(Debug, Clone)]
pub struct ChatMessage {
    pub role: ChatRole,
    pub content: String,
    pub tool_calls: Option<Vec<ToolCall>>,
    pub tool_call_id: Option<String>,
}

/// A function offered to the model as a tool; `parameters` is its JSON schema.
#[derive(Debug, Clone)]
pub struct ToolFunction {
    pub name: String,
    pub description: Option<String>,
    pub parameters: Value,
    pub strict: Option<bool>,
}

/// A tool offered to the model.
#[derive(Debug, Clone)]
pub struct Tool {
    pub kind: String,
    pub function: ToolFunction,
}

/// How freely the model may call tools.
#[derive(Debug, Clone, Copy, PartialEq, Eq, Structural)]
pub enum ToolChoiceMode {
    /// The caller's `"none"`: no tool may be called.
    Disabled,
    Auto,
    Required,
}

/// The function that a tool choice forces.
#[derive(Debug, Clone, PartialEq, Eq)]
pub struct ToolChoiceFunction {
    pub name: String,
}

/// The caller's tool choice.
#[derive(Debug, Clone, PartialEq, Eq)]
pub enum ToolChoice {
    Mode(ToolChoiceMode),
    Function { kind: String, function: ToolChoiceFunction },
}

/// An OpenAI-style chat completion request. The sampling temperature is
/// carried as the IEEE-754 bit pattern of the caller's `f32`.
#[derive(Debug, Clone)]
pub struct ChatCompletionRequest {
    pub model: Option<String>,
    pub messages: Vec<ChatMessage>,
    pub temperature_bits: Option<u32>,
    pub max_tokens: Option<u32>,
    pub stream: Option<bool>,
    pub tools: Option<Vec<Tool>>,
    pub tool_choice: Option<ToolChoice>,
    pub parallel_tool_calls: Option<bool>,
    pub response_format: Option<Value>,
}

/// Token counts of a completion.
#[derive(Debug, Clone, Copy, Default, PartialEq, Eq, Structural)]
pub struct TokenUsage {
    pub prompt_tokens: u32,
    pub completion_tokens: u32,
    pub total_tokens: u32,
}

/// A completion choice.
#[derive(Debug, Clone)]
pub struct ChatChoice {
    pub index: u32,
    pub message: ChatMessage,
    pub finish_reason: String,
}

/// A non-streaming chat completion.
#[derive(Debug, Clone)]
pub struct ChatCompletionResponse {
    pub id: String,
    pub object: &'static str,
    pub created: i64,
    pub model: String,
    pub provider: String,
    pub choices: Vec<ChatChoice>,
    pub usage: TokenUsage,
}

/// The function part of a streamed tool-call fragment.
#[derive(Debug, Clone, PartialEq, Eq)]
pub struct ToolCallDeltaFunction {
    pub name: Option<String>,
    pub arguments: Option<String>,
}

/// A streamed tool-call fragment.
#[derive(Debug, Clone, PartialEq, Eq)]
pub struct ToolCallDelta {
    pub index: u32,
    pub id: Option<String>,
    pub kind: Option<String>,
    pub function: Option<ToolCallDeltaFunction>,
}

/// The incremental content of a streamed chunk.
#[derive(Debug, Clone)]
pub struct ChatDelta {
    pub role: Option<ChatRole>,
    pub content: Option<String>,
    pub tool_calls: Option<Vec<ToolCallDelta>>,
}

/// A streamed choice.
#[derive(Debug, Clone)]
pub struct ChatChunkChoice {
    pub index: u32,
    pub delta: ChatDelta,
    pub finish_reason: Option<String>,
}

/// One chunk of a streamed chat completion.
#[derive(Debug, Clone)]
pub struct ChatCompletionChunkResponse {
    pub id: String,
    pub object: &'static str,
    pub created: i64,
    pub model: String,
    pub provider: String,
    pub choices: Vec<ChatChunkChoice>,
}

/// The model is missing or blank.
pub open spec fn model_missing(model: Option<String>) -> bool {
    match model {
        None => true,
        Some(m) => is_blank(m@),
    }
}

pub open spec fn msg_model_missing() -> Seq<char> {
    "model must be provided"@
}

pub open spec fn msg_no_messages() -> Seq<char> {
    "messages must contain at least one item"@
}

pub open spec fn msg_too_many_messages(max: usize) -> Seq<char> {
    "messages must contain at most "@ + decimal(max as nat) + " items"@
}

pub open spec fn msg_blank_content() -> Seq<char> {
    "message content must not be empty"@
}

pub open spec fn msg_content_too_long(max: usize) -> Seq<char> {
    "message content must be at most "@ + decimal(max as nat) + " characters"@
}

/// The reason a request is refused, checked in order, or `None` when it is valid.
pub open spec fn validation_error(r: ChatCompletionRequest, limits: ChatValidationLimits) -> Option<
    Seq<char>,
> {
    if model_missing(r.model) {
        Some(msg_model_missing())
    } else if r.messages@.len() == 0 {
        Some(msg_no_messages())
    } else if r.messages@.len() > limits.max_messages_per_request {
        Some(msg_too_many_messages(limits.max_messages_per_request))
    } else if exists|i: int| 0 <= i < r.messages@.len() && is_blank(#[trigger] r.messages@[i].content@) {
        Some(msg_blank_content())
    } else if exists|i: int|
        0 <= i < r.messages@.len() && #[trigger] r.messages@[i].content@.len()
            > limits.max_message_content_chars {
        Some(msg_content_too_long(limits.max_message_content_chars))
    } else {
        None
    }
}

/// A request with a blank message, wherever it stands (the last one too), is
/// refused; once the model and the message count pass, the refusal is that
/// message content must not be empty.
pub proof fn law_blank_message_is_refused(r: ChatCompletionRequest, limits: ChatValidationLimits, i: int)
    requires
        0 <= i < r.messages@.len(),
        forall|j: int| 0 <= j < r.messages@[i].content@.len() ==> is_ws(#[trigger] r.messages@[i].content@[j]),
    ensures
        validation_error(r, limits) is Some,
        !model_missing(r.model) && r.messages@.len() <= limits.max_messages_per_request ==> validation_error(r, limits)
            == Some("message content must not be empty"@),
{
    assert(is_blank(r.messages@[i].content@));
}

impl ChatCompletionRequest {
    /// Whether the caller asked for a streamed response.
    pub fn stream_enabled(&self) -> (b: bool)
        ensures
            b == (self.stream == Some(true)),
    {
        match self.stream {
            Some(b) => b,
            None => false,
        }
    }

    /// Checks the request against `limits`; the error carries the first violated rule.
    pub fn validate(&self, request_id: Option<Uuid>, limits: &ChatValidationLimits) -> (r: Result<
        (),
        AppError,
    >)
        ensures
            match validation_error(*self, *limits) {
                None => r is Ok,
                Some(msg) => r matches Err(AppError::InvalidRequest { message, request_id: rid }) && message@
                    == msg && rid == request_id,
            },
    {
        let missing = match &self.model {
            None => true,
            Some(m) => str_is_blank(m.as_str()),
        };
        if missing {
            return Err(AppError::InvalidRequest { message: "model must be provided".to_string(), request_id });
        }
        let n = self.messages.len();
        if n == 0 {
            return Err(
                AppError::InvalidRequest {
                    message: "messages must contain at least one item".to_string(),
                    request_id,
                },
            );
        }
        if n > limits.max_messages_per_request {
            let mut message = String::new();
            push_str(&mut message, "messages must contain at most ");
            push_decimal(&mut message, limits.max_messages_per_request as u64);
            push_str(&mut message, " items");
            return Err(AppError::InvalidRequest { message, request_id });
        }
        for i in 0..n
            invariant
                n == self.messages@.len(),
                !model_missing(self.model),
                0 < n <= limits.max_messages_per_request,
                forall|j: int| 0 <= j < i ==> !is_blank(#[trigger] self.messages@[j].content@),
        {
            if str_is_blank(self.messages[i].content.as_str()) {
                assert(is_blank(self.messages@[i as int].content@));
                return Err(
                    AppError::InvalidRequest {
                        message: "message content must not be empty".to_string(),
                        request_id,
                    },
                );
            }
        }
        for i in 0..n
            invariant
                n == self.messages@.len(),
                !model_missing(self.model),
                0 < n <= limits.max_messages_per_request,
                forall|j: int| 0 <= j < n ==> !is_blank(#[trigger] self.messages@[j].content@),
                forall|j: int|
                    0 <= j < i ==> #[trigger] self.messages@[j].content@.len()
                        <= limits.max_message_content_chars,
        {
            let count = self.messages[i].content.as_str().unicode_len();
            if count > limits.max_message_content_chars {
                assert(self.messages@[i as int].content@.len() > limits.max_message_content_chars);
                let mut message = String::new();
                push_str(&mut message, "message content must be at most ");
                push_decimal(&mut message, limits.max_message_content_chars as u64);
                push_str(&mut message, " characters");
                return Err(AppError::InvalidRequest { message, request_id });
            }
        }
        Ok(())
    }
}


/// A copy of a tool call.
pub fn copy_tool_call(c: &ToolCall) -> (r: ToolCall)
    ensures
        r == *c,
{
    ToolCall {
        id: c.id.clone(),
        kind: c.kind.clone(),
        function: ToolCallFunction { name: c.function.name.clone(), arguments: c.function.arguments.clone() },
    }
}

/// `a` holds what `b` holds: role, content, tool calls and tool call id.
pub open spec fn same_message(a: ChatMessage, b: ChatMessage) -> bool {
    &&& a.role == b.role
    &&& a.content == b.content
    &&& a.tool_call_id == b.tool_call_id
    &&& a.tool_calls is Some <==> b.tool_calls is Some
    &&& a.tool_calls is Some ==> a.tool_calls->0@ == b.tool_calls->0@
}

/// A copy of a chat message.
pub fn copy_message(m: &ChatMessage) -> (r: ChatMessage)
    ensures
        same_message(r, *m),
{
    let tool_calls = match &m.tool_calls {
        Some(calls) => {
            let mut out: Vec<ToolCall> = Vec::new();
            let n = calls.len();
            for i in 0..n
                invariant
                    n == calls@.len(),
                    out@ == calls@.take(i as int),
            {
                out.push(copy_tool_call(&calls[i]));
                proof {
                    assert(calls@.take(i + 1) =~= calls@.take(i as int).push(calls@[i as int]));
                }
            }
            proof {
                assert(calls@.take(n as int) =~= calls@);
                assert(out@ == calls@);
            }
            Some(out)
        },
        None => None,
    };
    let tool_call_id = match &m.tool_call_id {
        Some(id) => Some(id.clone()),
        None => None,
    };
    ChatMessage { role: m.role, content: m.content.clone(), tool_calls, tool_call_id }
}

/// A copy of a list of chat messages.
pub fn copy_messages(v: &Vec<ChatMessage>) -> (r: Vec<ChatMessage>)
    ensures
        r@.len() == v@.len(),
        forall|i: int| 0 <= i < v@.len() ==> same_message(#[trigger] r@[i], v@[i]),
{
    let mut out: Vec<ChatMessage> = Vec::new();
    let n = v.len();
    for i in 0..n
        invariant
            n == v@.len(),
            out@.len() == i,
            forall|j: int| 0 <= j < i ==> same_message(#[trigger] out@[j], v@[j]),
    {
        out.push(copy_message(&v[i]));
    }
    out
}

} // verus!
