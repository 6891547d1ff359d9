//! The parts of the LLM interface that are plain data: messages and
//! their roles, token usage, and the settings of the process-backed
//! client.

use vstd::prelude::*;
use crate::tool::ToolCall;
use crate::error::DurableResult;

verus! {

/// Who wrote a message.
#[derive(Clone, Copy, Debug, PartialEq, Eq, Structural)]
pub enum Role {
    System,
    User,
    Assistant,
    Tool,
}

/// What a message holds: text, the tool calls the LLM asks for, or the
/// result of one tool call (JSON text).
#[derive(Clone, Debug)]
pub enum MessageContent {
    Text(String),
    ToolCalls(Vec<ToolCall>),
    ToolResult { call_id: String, output: String, is_error: bool },
}

/// A message of the conversation.
#[derive(Clone, Debug)]
pub struct Message {
    pub role: Role,
    pub content: MessageContent,
}

impl Message {
    /// A system message with text.
    pub fn system(text: String) -> (m: Self)
        ensures
            m == (Message { role: Role::System, content: MessageContent::Text(text) }),
    {
        Message { role: Role::System, content: MessageContent::Text(text) }
    }

    /// A user message with text.
    pub fn user(text: String) -> (m: Self)
        ensures
            m == (Message { role: Role::User, content: MessageContent::Text(text) }),
    {
        Message { role: Role::User, content: MessageContent::Text(text) }
    }

    /// An assistant message with text.
    pub fn assistant_text(text: String) -> (m: Self)
        ensures
            m == (Message { role: Role::Assistant, content: MessageContent::Text(text) }),
    {
        Message { role: Role::Assistant, content: MessageContent::Text(text) }
    }

    /// An assistant message that asks for tool calls.
    pub fn assistant_tool_calls(calls: Vec<ToolCall>) -> (m: Self)
        ensures
            m == (Message { role: Role::Assistant, content: MessageContent::ToolCalls(calls) }),
    {
        Message { role: Role::Assistant, content: MessageContent::ToolCalls(calls) }
    }

    /// A tool message with the result of a call.
    pub fn tool_result(call_id: String, output: String, is_error: bool) -> (m: Self)
        ensures
            m == (Message { role: Role::Tool, content: MessageContent::ToolResult { call_id, output, is_error } }),
    {
        Message { role: Role::Tool, content: MessageContent::ToolResult { call_id, output, is_error } }
    }
}

/// Tokens used by one LLM call.
#[derive(Clone, Copy, Debug, Default)]
pub struct TokenUsage {
    /// Tokens in the prompt.
    pub input_tokens: u64,
    /// Tokens in the completion.
    pub output_tokens: u64,
}

impl TokenUsage {
    /// Tokens in all.
    pub fn total(&self) -> (t: u64)
        requires
            self.input_tokens + self.output_tokens <= u64::MAX,
        ensures
            t == self.input_tokens + self.output_tokens,
    {
        self.input_tokens + self.output_tokens
    }
}

/// What an LLM answered: text, or the tool calls it asks for.
#[derive(Clone, Debug)]
pub enum LlmResponseContent {
    Text(String),
    ToolCalls(Vec<ToolCall>),
}

/// An LLM's answer, with the tokens it used and the model that served it
/// where the provider says so.
#[derive(Clone, Debug)]
pub struct LlmResponse {
    pub content: LlmResponseContent,
    pub usage: Option<TokenUsage>,
    pub model: Option<String>,
}

impl LlmResponse {
    /// A text answer.
    pub fn text(s: String) -> (r: Self)
        ensures
            r == (LlmResponse { content: LlmResponseContent::Text(s), usage: None, model: None }),
    {
        LlmResponse { content: LlmResponseContent::Text(s), usage: None, model: None }
    }

    /// An answer that asks for tool calls.
    pub fn tool_calls(calls: Vec<ToolCall>) -> (r: Self)
        ensures
            r == (LlmResponse { content: LlmResponseContent::ToolCalls(calls), usage: None, model: None }),
    {
        LlmResponse { content: LlmResponseContent::ToolCalls(calls), usage: None, model: None }
    }

    /// The answer with its token usage.
    pub fn with_usage(self, usage: TokenUsage) -> (r: Self)
        ensures
            r == (LlmResponse { usage: Some(usage), ..self }),
    {
        LlmResponse { usage: Some(usage), ..self }
    }

    /// The answer with the model that served it.
    pub fn with_model(self, model: String) -> (r: Self)
        ensures
            r == (LlmResponse { model: Some(model), ..self }),
    {
        LlmResponse { model: Some(model), ..self }
    }

    /// The text, for a text answer.
    pub fn as_text(&self) -> (r: Option<&str>)
        ensures
            match self.content {
                LlmResponseContent::Text(t) => r matches Some(x) && x@ == t@,
                LlmResponseContent::ToolCalls(_) => r is None,
            },
    {
        match &self.content {
            LlmResponseContent::Text(t) => Some(t.as_str()),
            LlmResponseContent::ToolCalls(_) => None,
        }
    }

    /// The tool calls, for an answer that asks for them.
    pub fn as_tool_calls(&self) -> (r: Option<&[ToolCall]>)
        ensures
            match self.content {
                LlmResponseContent::ToolCalls(c) => r matches Some(x) && x@ == c@,
                LlmResponseContent::Text(_) => r is None,
            },
    {
        match &self.content {
            LlmResponseContent::ToolCalls(c) => Some(c.as_slice()),
            LlmResponseContent::Text(_) => None,
        }
    }
}

/// A scripted LLM for tests: it gives its answers in order, then a fixed
/// text once they run out.
pub struct MockLlmClient {
    responses: Vec<LlmResponse>,
}

/// The answer given once the scripted answers run out: a fixed text,
/// with no usage and no model.
pub open spec fn exhausted_answer(x: LlmResponse) -> bool {
    &&& x.usage is None
    &&& x.model is None
    &&& x.content matches LlmResponseContent::Text(t) && t@ == "No more scripted responses"@
}

impl MockLlmClient {
    /// The answers still to give, in order.
    pub closed spec fn script(&self) -> Seq<LlmResponse> {
        self.responses@
    }

    /// A client that gives these answers in order.
    pub fn new(responses: Vec<LlmResponse>) -> (c: Self)
        ensures
            c.script() == responses@,
    {
        MockLlmClient { responses }
    }

    /// The next scripted answer, or the fixed text once none is left.
    pub fn chat(&mut self) -> (r: DurableResult<LlmResponse>)
        ensures
            old(self).script().len() > 0 ==> r == Ok::<LlmResponse, crate::error::DurableError>(old(self).script()[0])
                && final(self).script() == old(self).script().drop_first(),
            old(self).script().len() == 0 ==> final(self).script() == old(self).script()
                && (r matches Ok(x) && exhausted_answer(x)),
    {
        if self.responses.len() == 0 {
            let t = "No more scripted responses".to_string();
            proof {
                reveal_strlit("No more scripted responses");
            }
            Ok(LlmResponse::text(t))
        } else {
            let r = self.responses.remove(0);
            assert(self.responses@ =~= old(self).script().drop_first());
            Ok(r)
        }
    }
}

/// An LLM client that runs an external process: the request as JSON on
/// its stdin, the response as JSON on its stdout.
pub struct ProcessLlmClient {
    pub command: String,
    pub args: Vec<String>,
    /// Timeout in seconds.
    pub timeout_secs: u64,
}

impl ProcessLlmClient {
    /// A client for a command, with no arguments and a 120-second timeout.
    pub fn new(command: String) -> (c: Self)
        ensures
            c.command == command,
            c.args@.len() == 0,
            c.timeout_secs == 120,
    {
        ProcessLlmClient { command, args: Vec::new(), timeout_secs: 120 }
    }

    /// The client with a timeout in seconds.
    pub fn with_timeout(self, secs: u64) -> (c: Self)
        ensures
            c == (ProcessLlmClient { timeout_secs: secs, ..self }),
    {
        ProcessLlmClient { timeout_secs: secs, ..self }
    }
}

} // verus!
