//! Translation between OpenAI tool calling and Anthropic tool use.
use serde_json::Value;
use vstd::prelude::*;

use crate::models::chat::{
    ChatDelta, ChatRole, Tool, ToolCall, ToolCallDelta, ToolCallDeltaFunction, ToolCallFunction,
    ToolChoice, ToolChoiceMode,
};
use crate::strmap::str_eq;
use crate::text::push_str;

verus! {

/// A tool in Anthropic's format.
#[derive(Debug, Clone)]
pub struct AnthropicTool {
    pub name: String,
    pub description: Option<String>,
    pub input_schema: Value,
}

/// Anthropic's tool choice.
#[derive(Debug, Clone, PartialEq, Eq)]
pub enum AnthropicToolChoice {
    Auto,
    Any,
    Tool { name: String },
}

/// A content block of an Anthropic response or stream.
#[derive(Debug, Clone)]
pub struct AnthropicContentBlock {
    pub kind: String,
    pub text: Option<String>,
    pub id: Option<String>,
    pub name: Option<String>,
    pub input: Option<Value>,
}

/// The delta that opens tool call `index` with the block's id and name and empty arguments.
pub open spec fn announces_call(d: Option<ChatDelta>, index: u32, id: Option<String>, name: Option<String>) -> bool {
    match d {
        Some(delta) => {
            &&& delta.role == Some(ChatRole::Assistant)
            &&& delta.content is None
            &&& match delta.tool_calls {
                Some(calls) => {
                    &&& calls@.len() == 1
                    &&& calls@[0].index == index
                    &&& calls@[0].id == id
                    &&& (match calls@[0].kind { Some(k) => k@ == "function"@, None => false })
                    &&& match calls@[0].function {
                        Some(f) => f.name == name && (match f.arguments { Some(a) => a@.len() == 0, None => false }),
                        None => false,
                    }
                },
                None => false,
            }
        },
        None => false,
    }
}

/// The delta that carries `fragment` as more arguments of tool call `index`.
pub open spec fn forwards_arguments(d: Option<ChatDelta>, index: u32, fragment: String) -> bool {
    match d {
        Some(delta) => {
            &&& delta.role is None
            &&& delta.content is None
            &&& match delta.tool_calls {
                Some(calls) => {
                    &&& calls@.len() == 1
                    &&& calls@[0].index == index
                    &&& calls@[0].id is None
                    &&& calls@[0].kind is None
                    &&& match calls@[0].function {
                        Some(f) => f.name is None && f.arguments == Some(fragment),
                        None => false,
                    }
                },
                None => false,
            }
        },
        None => false,
    }
}

/// Turns Anthropic `tool_use` stream events into OpenAI tool-call deltas.
pub struct AnthropicToolStreamTranslator {
    current_index: Option<u32>,
    current_id: Option<String>,
    current_name: Option<String>,
    current_arguments: String,
}

impl AnthropicToolStreamTranslator {
    /// Index of the tool-use block being streamed, if any.
    pub closed spec fn current(&self) -> Option<u32> {
        self.current_index
    }

    /// The JSON arguments received so far for the current block.
    pub closed spec fn arguments(&self) -> Seq<char> {
        self.current_arguments@
    }

    /// A translator with no block open.
    pub fn new() -> (t: Self)
        ensures
            t.current() is None,
            t.arguments() == Seq::<char>::empty(),
    {
        AnthropicToolStreamTranslator {
            current_index: None,
            current_id: None,
            current_name: None,
            current_arguments: String::new(),
        }
    }

    /// Opens a tool-use block: answers the delta that announces the call with
    /// empty arguments. Other blocks change nothing and answer `None`.
    pub fn content_block_start(&mut self, index: u32, block: &AnthropicContentBlock) -> (d: Option<ChatDelta>)
        ensures
            block.kind@ != "tool_use"@ ==> d is None && final(self).current() == old(self).current()
                && final(self).arguments() == old(self).arguments(),
            block.kind@ == "tool_use"@ ==> {
                &&& final(self).current() == Some(index)
                &&& final(self).arguments() == Seq::<char>::empty()
                &&& announces_call(d, index, block.id, block.name)
            },
    {
        if !str_eq(block.kind.as_str(), "tool_use") {
            return None;
        }
        self.current_index = Some(index);
        self.current_id = block.id.clone();
        self.current_name = block.name.clone();
        self.current_arguments = String::new();
        let mut calls: Vec<ToolCallDelta> = Vec::new();
        calls.push(
            ToolCallDelta {
                index,
                id: block.id.clone(),
                kind: Some("function".to_string()),
                function: Some(ToolCallDeltaFunction { name: block.name.clone(), arguments: Some(String::new()) }),
            },
        );
        Some(ChatDelta { role: Some(ChatRole::Assistant), content: None, tool_calls: Some(calls) })
    }

    /// Forwards a fragment of tool arguments of the open block, or answers
    /// `None` when no tool-use block is open.
    pub fn input_json_delta(&mut self, partial_json: String) -> (d: Option<ChatDelta>)
        ensures
            old(self).current() is None ==> d is None && final(self).arguments() == old(self).arguments(),
            old(self).current() matches Some(index) ==> {
                &&& final(self).current() == old(self).current()
                &&& final(self).arguments() == old(self).arguments() + partial_json@
                &&& forwards_arguments(d, index, partial_json)
            },
    {
        let index = match self.current_index {
            Some(i) => i,
            None => {
                return None;
            },
        };
        push_str(&mut self.current_arguments, partial_json.as_str());
        let mut calls: Vec<ToolCallDelta> = Vec::new();
        calls.push(
            ToolCallDelta {
                index,
                id: None,
                kind: None,
                function: Some(ToolCallDeltaFunction { name: None, arguments: Some(partial_json) }),
            },
        );
        Some(ChatDelta { role: None, content: None, tool_calls: Some(calls) })
    }
}

/// Each OpenAI function tool as an Anthropic tool, in order.
pub fn openai_tools_to_anthropic(tools: &[Tool]) -> (r: Vec<AnthropicTool>)
    ensures
        r@.len() == tools@.len(),
        forall|i: int|
            0 <= i < tools@.len() ==> (#[trigger] r@[i]).name == tools@[i].function.name
                && r@[i].description == tools@[i].function.description
                && r@[i].input_schema == tools@[i].function.parameters,
{
    let n = tools.len();
    let mut r: Vec<AnthropicTool> = Vec::new();
    for i in 0..n
        invariant
            n == tools@.len(),
            r@.len() == i,
            forall|j: int|
                0 <= j < i ==> (#[trigger] r@[j]).name == tools@[j].function.name
                    && r@[j].description == tools@[j].function.description
                    && r@[j].input_schema == tools@[j].function.parameters,
    {
        let ghost old_r = r@;
        let t = &tools[i];
        let description = match &t.function.description {
            Some(d) => Some(d.clone()),
            None => None,
        };
        r.push(
            AnthropicTool {
                name: t.function.name.clone(),
                description,
                input_schema: t.function.parameters.clone(),
            },
        );
        proof {
            assert forall|j: int| 0 <= j < i + 1 implies (#[trigger] r@[j]).name == tools@[j].function.name
                && r@[j].description == tools@[j].function.description
                && r@[j].input_schema == tools@[j].function.parameters by {
                if j < i {
                    assert(r@[j] == old_r[j]);
                }
            }
        }
    }
    r
}

/// OpenAI's tool choice in Anthropic's terms: `auto` stays, `required` becomes
/// `any`, `none` has no counterpart, and a forced function names its tool.
pub fn openai_tool_choice_to_anthropic(choice: &ToolChoice) -> (r: Option<AnthropicToolChoice>)
    ensures
        r == match *choice {
            ToolChoice::Mode(ToolChoiceMode::Auto) => Some(AnthropicToolChoice::Auto),
            ToolChoice::Mode(ToolChoiceMode::Required) => Some(AnthropicToolChoice::Any),
            ToolChoice::Mode(ToolChoiceMode::Disabled) => None,
            ToolChoice::Function { function, .. } => Some(AnthropicToolChoice::Tool { name: function.name }),
        },
{
    match choice {
        ToolChoice::Mode(ToolChoiceMode::Auto) => Some(AnthropicToolChoice::Auto),
        ToolChoice::Mode(ToolChoiceMode::Required) => Some(AnthropicToolChoice::Any),
        ToolChoice::Mode(ToolChoiceMode::Disabled) => None,
        ToolChoice::Function { function, .. } => Some(AnthropicToolChoice::Tool { name: function.name.clone() }),
    }
}

/// The fragments' texts, joined in order.
pub open spec fn joined_fragments(frags: Seq<String>) -> Seq<char>
    decreases frags.len(),
{
    if frags.len() == 0 {
        Seq::empty()
    } else {
        joined_fragments(frags.drop_last()) + frags.last()@
    }
}

/// Once a tool-use block `index` is open (its arguments empty), the arguments
/// after the `input_json_delta` fragments that follow, each step relating two
/// states as `input_json_delta` does, are the fragments joined in order, and
/// the open block stays `index`.
pub proof fn law_tool_arguments_accumulate(
    index: u32,
    frags: Seq<String>,
    currents: Seq<Option<u32>>,
    args: Seq<Seq<char>>,
)
    requires
        currents.len() == frags.len() + 1,
        args.len() == frags.len() + 1,
        currents[0] == Some(index),
        args[0] == Seq::<char>::empty(),
        forall|j: int|
            0 <= j < frags.len() ==> currents[j + 1] == #[trigger] currents[j] && args[j + 1] == args[j] + frags[j]@,
    ensures
        currents.last() == Some(index),
        args.last() == joined_fragments(frags),
    decreases frags.len(),
{
    if frags.len() > 0 {
        let n = frags.len();
        let cs = currents.drop_last();
        let xs = args.drop_last();
        let fs = frags.drop_last();
        assert forall|j: int| 0 <= j < fs.len() implies cs[j + 1] == #[trigger] cs[j] && xs[j + 1] == xs[j] + fs[j]@ by {
            let _ = currents[j];
        }
        law_tool_arguments_accumulate(index, fs, cs, xs);
        let _ = currents[n - 1];
        assert(currents[n - 1] == cs.last());
        assert(args[n - 1] == xs.last());
    } else {
        assert(args.last() =~= joined_fragments(frags));
    }
}

/// `serde_json::Value`'s `Display`: the compact JSON text of `v`.
#[verifier::external_body]
fn json_text(v: &Value) -> (s: String) {
    v.to_string()
}

/// The texts of the `text` blocks, concatenated in order.
pub open spec fn text_of_blocks(blocks: Seq<AnthropicContentBlock>) -> Seq<char>
    decreases blocks.len(),
{
    if blocks.len() == 0 {
        Seq::empty()
    } else {
        let b = blocks.last();
        text_of_blocks(blocks.drop_last()) + if b.kind@ == "text"@ && b.text is Some {
            b.text->0@
        } else {
            Seq::<char>::empty()
        }
    }
}

/// The `tool_use` blocks that carry an id and a name, in order.
pub open spec fn tool_blocks(blocks: Seq<AnthropicContentBlock>) -> Seq<AnthropicContentBlock>
    decreases blocks.len(),
{
    if blocks.len() == 0 {
        Seq::empty()
    } else {
        let b = blocks.last();
        if b.kind@ == "tool_use"@ && b.id is Some && b.name is Some {
            tool_blocks(blocks.drop_last()).push(b)
        } else {
            tool_blocks(blocks.drop_last())
        }
    }
}

/// The assistant text and the tool calls of an Anthropic response (no calls: `None`).
pub fn anthropic_content_to_openai_message(blocks: &[AnthropicContentBlock]) -> (r: (String, Option<Vec<ToolCall>>))
    ensures
        r.0@ == text_of_blocks(blocks@),
        match r.1 {
            None => tool_blocks(blocks@).len() == 0,
            Some(calls) => {
                &&& calls@.len() == tool_blocks(blocks@).len() > 0
                &&& forall|i: int| 0 <= i < calls@.len() ==> {
                    &&& #[trigger] calls@[i].id == tool_blocks(blocks@)[i].id->0
                    &&& calls@[i].function.name == tool_blocks(blocks@)[i].name->0
                    &&& calls@[i].kind@ == "function"@
                    &&& tool_blocks(blocks@)[i].input is None ==> calls@[i].function.arguments@ == "{}"@
                }
            },
        },
{
    let n = blocks.len();
    let mut text = String::new();
    let mut calls: Vec<ToolCall> = Vec::new();
    proof {
        reveal_strlit("text");
        reveal_strlit("tool_use");
        reveal_strlit("function");
        reveal_strlit("{}");
    }
    for i in 0..n
        invariant
            n == blocks@.len(),
            text@ == text_of_blocks(blocks@.take(i as int)),
            calls@.len() == tool_blocks(blocks@.take(i as int)).len(),
            forall|k: int| 0 <= k < calls@.len() ==> {
                &&& #[trigger] calls@[k].id == tool_blocks(blocks@.take(i as int))[k].id->0
                &&& calls@[k].function.name == tool_blocks(blocks@.take(i as int))[k].name->0
                &&& calls@[k].kind@ == "function"@
                &&& tool_blocks(blocks@.take(i as int))[k].input is None ==> calls@[k].function.arguments@ == "{}"@
            },
    {
        let b = &blocks[i];
        let ghost prev = blocks@.take(i as int);
        proof {
            assert(blocks@.take(i + 1).drop_last() =~= prev);
            assert(blocks@.take(i + 1).last() == blocks@[i as int]);
        }
        let ghost old_calls = calls@;
        let is_text = str_eq(b.kind.as_str(), "text");
        let is_tool = str_eq(b.kind.as_str(), "tool_use");
        if is_text {
            match &b.text {
                Some(t) => {
                    push_str(&mut text, t.as_str());
                },
                None => {
                    assert(text@ =~= text@ + Seq::<char>::empty());
                },
            }
        } else {
            assert(text@ =~= text@ + Seq::<char>::empty());
        }
        let pushed = match (&b.id, &b.name) {
            (Some(id), Some(name)) => {
                if is_tool {
                    let arguments = match &b.input {
                        Some(v) => json_text(v),
                        None => "{}".to_string(),
                    };
                    calls.push(
                        ToolCall {
                            id: id.clone(),
                            kind: "function".to_string(),
                            function: ToolCallFunction { name: name.clone(), arguments },
                        },
                    );
                    true
                } else {
                    false
                }
            },
            _ => false,
        };
        proof {
            if pushed {
                assert(tool_blocks(blocks@.take(i + 1)) == tool_blocks(prev).push(blocks@[i as int]));
                assert forall|k: int| 0 <= k < calls@.len() implies {
                    &&& #[trigger] calls@[k].id == tool_blocks(blocks@.take(i + 1))[k].id->0
                    &&& calls@[k].function.name == tool_blocks(blocks@.take(i + 1))[k].name->0
                    &&& calls@[k].kind@ == "function"@
                    &&& tool_blocks(blocks@.take(i + 1))[k].input is None ==> calls@[k].function.arguments@ == "{}"@
                } by {
                    if k < old_calls.len() {
                        assert(calls@[k] == old_calls[k]);
                    }
                }
            } else {
                assert(tool_blocks(blocks@.take(i + 1)) == tool_blocks(prev));
                assert(calls@ == old_calls);
            }
        }
    }
    proof {
        assert(blocks@.take(n as int) =~= blocks@);
    }
    if calls.len() == 0 {
        (text, None)
    } else {
        (text, Some(calls))
    }
}

} // verus!
