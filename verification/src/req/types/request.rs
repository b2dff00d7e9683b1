//! Request types for the chat endpoint, and the [`ChatRequest`] builder.

use crate::content;
use crate::req::error::{Error, Result};
use crate::req::model::Model;
use crate::text;
use vstd::prelude::*;

verus! {

/// The author of a [`Message`].
#[derive(Debug, Clone, Copy, PartialEq, Eq, Structural)]
pub enum Role {
    /// System / developer instruction.
    System,
    /// End-user input.
    User,
    /// Model output fed back as conversation history.
    Assistant,
    /// The result of a tool call, replying to a prior `tool_calls` entry.
    Tool,
}

/// A tool call. Emitted by the model in a response, and replayed verbatim inside
/// an assistant history [`Message`].
#[derive(Debug, PartialEq, Eq)]
pub struct ToolCall {
    /// Unique id of this call, echoed back in the matching `tool` message.
    pub id: String,
    /// Call type, always `"function"`.
    pub kind: String,
    /// The function name and (JSON-encoded) arguments.
    pub function: FunctionCall,
}

/// The function name and arguments of a [`ToolCall`].
#[derive(Debug, PartialEq, Eq)]
pub struct FunctionCall {
    /// The function name.
    pub name: String,
    /// Arguments as a JSON-encoded string (parse before use).
    pub arguments: String,
}

impl Clone for FunctionCall {
    fn clone(&self) -> (copy: Self)
        ensures
            copy == *self,
    {
        FunctionCall { name: self.name.clone(), arguments: self.arguments.clone() }
    }
}

impl Clone for ToolCall {
    fn clone(&self) -> (copy: Self)
        ensures
            copy == *self,
    {
        ToolCall {
            id: self.id.clone(),
            kind: self.kind.clone(),
            function: self.function.clone(),
        }
    }
}

/// A tool call, as contracts see one.
#[verifier::ext_equal]
pub struct ToolCallView {
    /// The id.
    pub id: Seq<char>,
    /// The kind.
    pub kind: Seq<char>,
    /// The function's name.
    pub name: Seq<char>,
    /// The function's arguments.
    pub arguments: Seq<char>,
}

impl View for ToolCall {
    type V = ToolCallView;

    open spec fn view(&self) -> ToolCallView {
        ToolCallView {
            id: self.id@,
            kind: self.kind@,
            name: self.function.name@,
            arguments: self.function.arguments@,
        }
    }
}

/// What contracts see of a list of tool calls.
pub open spec fn calls_view(calls: Seq<ToolCall>) -> Seq<ToolCallView> {
    Seq::new(calls.len(), |i: int| calls[i]@)
}

/// What contracts see of an optional list of tool calls.
pub open spec fn option_calls(calls: Option<Vec<ToolCall>>) -> Option<Seq<ToolCallView>> {
    match calls {
        Some(calls) => Some(calls_view(calls@)),
        None => None,
    }
}

/// A single conversation message.
#[derive(Debug, PartialEq, Eq)]
pub struct Message {
    /// Who authored the message.
    pub role: Role,
    /// Text content. May be `None` on an assistant message that only carries
    /// `tool_calls`.
    pub content: Option<String>,
    /// Optional participant name.
    pub name: Option<String>,
    /// Thinking-mode chain, only used when back-filling a prefix completion. Must
    /// be stripped from ordinary multi-turn history.
    pub reasoning_content: Option<String>,
    /// Tool calls emitted by a previous assistant turn.
    pub tool_calls: Option<Vec<ToolCall>>,
    /// The id of the tool call this `tool` message responds to.
    pub tool_call_id: Option<String>,
    /// Beta prefix completion: when `Some(true)` on the final assistant message,
    /// the model continues from `content` instead of starting fresh.
    pub prefix: Option<bool>,
}

/// A message, as contracts see one.
#[verifier::ext_equal]
pub struct MessageView {
    /// The author.
    pub role: Role,
    /// The text.
    pub content: Option<Seq<char>>,
    /// The participant.
    pub name: Option<Seq<char>>,
    /// The thinking chain.
    pub reasoning_content: Option<Seq<char>>,
    /// The tool calls.
    pub tool_calls: Option<Seq<ToolCallView>>,
    /// The call that is answered.
    pub tool_call_id: Option<Seq<char>>,
    /// Whether the model continues from here.
    pub prefix: Option<bool>,
}

impl View for Message {
    type V = MessageView;

    open spec fn view(&self) -> MessageView {
        MessageView {
            role: self.role,
            content: content::option_view(self.content),
            name: content::option_view(self.name),
            reasoning_content: content::option_view(self.reasoning_content),
            tool_calls: option_calls(self.tool_calls),
            tool_call_id: content::option_view(self.tool_call_id),
            prefix: self.prefix,
        }
    }
}

/// What contracts see of a list of messages.
pub open spec fn messages_view(messages: Seq<Message>) -> Seq<MessageView> {
    Seq::new(messages.len(), |i: int| messages[i]@)
}

/// A copy of an optional list of tool calls.
pub(crate) fn copy_calls(calls: &Option<Vec<ToolCall>>) -> (copy: Option<Vec<ToolCall>>)
    ensures
        option_calls(copy) == option_calls(*calls),
{
    match calls {
        Some(list) => {
            let copy = list.clone();
            assert(calls_view(copy@) == calls_view(list@));
            Some(copy)
        },
        None => None,
    }
}

impl Clone for Message {
    fn clone(&self) -> (copy: Self)
        ensures
            copy@ == self@,
    {
        Message {
            role: self.role,
            content: self.content.clone(),
            name: self.name.clone(),
            reasoning_content: self.reasoning_content.clone(),
            tool_calls: copy_calls(&self.tool_calls),
            tool_call_id: self.tool_call_id.clone(),
            prefix: self.prefix,
        }
    }
}

/// A message with nothing but an author and a text.
pub open spec fn said(role: Role, content: Seq<char>) -> MessageView {
    MessageView {
        role,
        content: Some(content),
        name: None,
        reasoning_content: None,
        tool_calls: None,
        tool_call_id: None,
        prefix: None,
    }
}

impl Message {
    fn bare(role: Role, content: &str) -> (m: Self)
        ensures
            m@ == said(role, content@),
    {
        Message {
            role,
            content: Some(content.to_owned()),
            name: None,
            reasoning_content: None,
            tool_calls: None,
            tool_call_id: None,
            prefix: None,
        }
    }

    /// Creates a `system` message.
    pub fn system(content: &str) -> (m: Self)
        ensures
            m@ == said(Role::System, content@),
    {
        Message::bare(Role::System, content)
    }

    /// Creates a `user` message.
    pub fn user(content: &str) -> (m: Self)
        ensures
            m@ == said(Role::User, content@),
    {
        Message::bare(Role::User, content)
    }

    /// Creates an `assistant` message (e.g. when replaying history).
    pub fn assistant(content: &str) -> (m: Self)
        ensures
            m@ == said(Role::Assistant, content@),
    {
        Message::bare(Role::Assistant, content)
    }

    /// Creates a `tool` message replying to the tool call `tool_call_id`.
    pub fn tool(tool_call_id: &str, content: &str) -> (m: Self)
        ensures
            m@ == (MessageView {
                tool_call_id: Some(tool_call_id@),
                ..said(Role::Tool, content@)
            }),
    {
        let mut m = Message::bare(Role::Tool, content);
        m.tool_call_id = Some(tool_call_id.to_owned());
        m
    }
}

/// Thinking-mode control. When omitted from a request, the server default applies,
/// which is **thinking enabled**.
#[derive(Debug, Clone, Copy, PartialEq, Eq, Structural)]
pub enum Thinking {
    /// Disable the thinking chain; the model answers directly.
    Disabled,
    /// Enable the thinking chain at the given [`Effort`].
    Enabled {
        /// How hard the model should think.
        effort: Effort,
    },
}

/// Reasoning effort for [`Thinking::Enabled`].
#[derive(Debug, Clone, Copy, PartialEq, Eq, Structural)]
pub enum Effort {
    /// Standard reasoning depth.
    High,
    /// Maximum reasoning depth (slower, pricier).
    Max,
}

/// Output format for the completion (`response_format`).
#[derive(Debug, Clone, Copy, PartialEq, Eq, Structural)]
pub enum ResponseFormat {
    /// Plain text (the default).
    Text,
    /// JSON object mode.
    JsonObject,
}

/// A tool the model may call (currently always a function).
#[derive(Debug, PartialEq, Eq)]
pub struct Tool {
    /// The function definition.
    pub function: FunctionDef,
}

/// A function definition advertised to the model.
#[derive(Debug, PartialEq, Eq)]
pub struct FunctionDef {
    /// Function name (`[a-zA-Z0-9_-]`, ≤ 64 chars).
    pub name: String,
    /// When and how the model should call this function.
    pub description: Option<String>,
    /// JSON Schema describing the function's parameters, as JSON text.
    pub parameters: Option<String>,
}

/// A tool, as contracts see one.
#[verifier::ext_equal]
pub struct ToolView {
    /// The function's name.
    pub name: Seq<char>,
    /// The function's description.
    pub description: Option<Seq<char>>,
    /// The function's parameters.
    pub parameters: Option<Seq<char>>,
}

impl View for FunctionDef {
    type V = ToolView;

    open spec fn view(&self) -> ToolView {
        ToolView {
            name: self.name@,
            description: content::option_view(self.description),
            parameters: content::option_view(self.parameters),
        }
    }
}

impl View for Tool {
    type V = ToolView;

    open spec fn view(&self) -> ToolView {
        self.function@
    }
}

/// What contracts see of a list of tools.
pub open spec fn tools_view(tools: Seq<Tool>) -> Seq<ToolView> {
    Seq::new(tools.len(), |i: int| tools[i]@)
}

impl Clone for FunctionDef {
    fn clone(&self) -> (copy: Self)
        ensures
            copy@ == self@,
    {
        FunctionDef {
            name: self.name.clone(),
            description: self.description.clone(),
            parameters: self.parameters.clone(),
        }
    }
}

impl Clone for Tool {
    fn clone(&self) -> (copy: Self)
        ensures
            copy@ == self@,
    {
        Tool { function: self.function.clone() }
    }
}

impl Tool {
    /// Wraps a [`FunctionDef`] as a callable tool.
    pub fn function(function: FunctionDef) -> (tool: Self)
        ensures
            tool.function == function,
    {
        Tool { function }
    }
}

/// Controls whether and which tool the model may call (`tool_choice`).
#[derive(Debug, Clone, PartialEq, Eq)]
pub enum ToolChoice {
    /// Never call a tool (`"none"`).
    Never,
    /// Let the model decide (the default when tools are present).
    Auto,
    /// Force the model to call some tool.
    Required,
    /// Force the model to call the named function.
    Function {
        /// The function to force.
        name: String,
    },
}

/// Streaming options (`stream_options`), only meaningful when streaming.
#[derive(Debug, Clone, Copy, PartialEq, Eq, Structural)]
pub struct StreamOptions {
    /// When `true`, the final chunk before `[DONE]` carries the `usage` object.
    pub include_usage: bool,
}

/// A chat completion request. Build one with [`ChatRequest::builder`].
#[derive(Debug, PartialEq, Eq)]
pub struct ChatRequest {
    /// The model to use.
    pub model: Model,
    /// The conversation so far (at least one message).
    pub messages: Vec<Message>,
    /// Thinking-mode control. `None` uses the server default (enabled).
    pub thinking: Option<Thinking>,
    /// Maximum number of tokens to generate (thinking tokens included).
    pub max_tokens: Option<u32>,
    /// Sampling temperature (≤ 2), as the bit pattern of an `f32`.
    pub temperature: Option<u32>,
    /// Nucleus sampling (≤ 1), as the bit pattern of an `f32`.
    pub top_p: Option<u32>,
    /// Up to 16 stop sequences.
    pub stop: Option<Vec<String>>,
    /// Output format.
    pub response_format: Option<ResponseFormat>,
    /// Tools the model may call (up to 128).
    pub tools: Option<Vec<Tool>>,
    /// Tool-call policy.
    pub tool_choice: Option<ToolChoice>,
    /// Whether to return token log-probabilities. Errors in thinking mode.
    pub logprobs: Option<bool>,
    /// Number of top log-probabilities per position (≤ 20, needs `logprobs`).
    pub top_logprobs: Option<u8>,
    /// Custom user id for content-safety attribution and concurrency isolation.
    pub user_id: Option<String>,
    /// Whether the response is to be streamed; set per call.
    pub stream: Option<bool>,
    /// How it is to be streamed; set per call.
    pub stream_options: Option<StreamOptions>,
}

/// Why a request cannot be sent, if so: it has no messages, it asks for
/// log-probabilities in thinking mode, or for top log-probabilities without
/// log-probabilities.
pub open spec fn request_problem(req: ChatRequest) -> Option<Seq<char>> {
    let thinking_on = req.thinking matches Some(Thinking::Enabled { effort: _ });
    if req.messages@.len() == 0 {
        Some("messages must not be empty"@)
    } else if thinking_on && (req.logprobs == Some(true) || req.top_logprobs is Some) {
        Some("logprobs/top_logprobs are not supported in thinking mode"@)
    } else if req.top_logprobs is Some && req.logprobs != Some(true) {
        Some("top_logprobs requires logprobs = true"@)
    } else {
        None
    }
}

impl ChatRequest {
    /// Starts building a request for `model`.
    pub fn builder(model: Model) -> (b: ChatRequestBuilder)
        ensures
            b.req.model == model,
            b.req.messages@ == Seq::<Message>::empty(),
            b.req.thinking is None,
            b.req.max_tokens is None,
            b.req.temperature is None,
            b.req.top_p is None,
            b.req.stop is None,
            b.req.response_format is None,
            b.req.tools is None,
            b.req.tool_choice is None,
            b.req.logprobs is None,
            b.req.top_logprobs is None,
            b.req.user_id is None,
            b.req.stream is None,
            b.req.stream_options is None,
    {
        ChatRequestBuilder {
            req: ChatRequest {
                model,
                messages: Vec::new(),
                thinking: None,
                max_tokens: None,
                temperature: None,
                top_p: None,
                stop: None,
                response_format: None,
                tools: None,
                tool_choice: None,
                logprobs: None,
                top_logprobs: None,
                user_id: None,
                stream: None,
                stream_options: None,
            },
        }
    }

    /// Validates the locally-detectable illegal combinations, returning
    /// [`Error::InvalidRequest`] on the first problem found.
    fn validate(&self) -> (r: Result<()>)
        ensures
            match request_problem(*self) {
                Some(why) => r matches Err(Error::InvalidRequest(m)) && m@ == why,
                None => r is Ok,
            },
    {
        if self.messages.is_empty() {
            return Err(Error::InvalidRequest("messages must not be empty".to_owned()));
        }
        let thinking_on = match self.thinking {
            Some(Thinking::Enabled { effort: _ }) => true,
            _ => false,
        };
        let logprobs_on = match self.logprobs {
            Some(on) => on,
            None => false,
        };
        if thinking_on && (logprobs_on || self.top_logprobs.is_some()) {
            return Err(
                Error::InvalidRequest(
                    "logprobs/top_logprobs are not supported in thinking mode".to_owned(),
                ),
            );
        }
        if self.top_logprobs.is_some() && !logprobs_on {
            return Err(Error::InvalidRequest("top_logprobs requires logprobs = true".to_owned()));
        }
        Ok(())
    }

    /// The request as it is sent to be streamed: with the final chunk carrying the
    /// usage.
    pub fn streamed(self) -> (req: Self)
        ensures
            req == (ChatRequest {
                stream: Some(true),
                stream_options: Some(StreamOptions { include_usage: true }),
                ..self
            }),
    {
        let mut req = self;
        req.stream = Some(true);
        req.stream_options = Some(StreamOptions { include_usage: true });
        req
    }
}

/// Builder for [`ChatRequest`], returned by [`ChatRequest::builder`].
#[derive(Debug, PartialEq, Eq)]
pub struct ChatRequestBuilder {
    /// The request so far.
    pub req: ChatRequest,
}

impl ChatRequestBuilder {
    /// Appends an arbitrary [`Message`].
    pub fn message(self, message: Message) -> (b: Self)
        ensures
            b.req.messages@ == self.req.messages@.push(message),
            b.req == (ChatRequest { messages: b.req.messages, ..self.req }),
    {
        let mut b = self;
        b.req.messages.push(message);
        b
    }

    /// Appends a `system` message.
    pub fn system(self, content: &str) -> (b: Self)
        ensures
            messages_view(b.req.messages@) == messages_view(self.req.messages@).push(
                said(Role::System, content@),
            ),
            b.req == (ChatRequest { messages: b.req.messages, ..self.req }),
    {
        let b = self.message(Message::system(content));
        assert(messages_view(b.req.messages@) == messages_view(self.req.messages@).push(
            said(Role::System, content@),
        ));
        b
    }

    /// Appends a `user` message.
    pub fn user(self, content: &str) -> (b: Self)
        ensures
            messages_view(b.req.messages@) == messages_view(self.req.messages@).push(
                said(Role::User, content@),
            ),
            b.req == (ChatRequest { messages: b.req.messages, ..self.req }),
    {
        let b = self.message(Message::user(content));
        assert(messages_view(b.req.messages@) == messages_view(self.req.messages@).push(
            said(Role::User, content@),
        ));
        b
    }

    /// Appends an `assistant` message.
    pub fn assistant(self, content: &str) -> (b: Self)
        ensures
            messages_view(b.req.messages@) == messages_view(self.req.messages@).push(
                said(Role::Assistant, content@),
            ),
            b.req == (ChatRequest { messages: b.req.messages, ..self.req }),
    {
        let b = self.message(Message::assistant(content));
        assert(messages_view(b.req.messages@) == messages_view(self.req.messages@).push(
            said(Role::Assistant, content@),
        ));
        b
    }

    /// Sets thinking-mode control.
    pub fn thinking(self, thinking: Thinking) -> (b: Self)
        ensures
            b.req == (ChatRequest { thinking: Some(thinking), ..self.req }),
    {
        let mut b = self;
        b.req.thinking = Some(thinking);
        b
    }

    /// Sets the maximum number of tokens to generate.
    pub fn max_tokens(self, max_tokens: u32) -> (b: Self)
        ensures
            b.req == (ChatRequest { max_tokens: Some(max_tokens), ..self.req }),
    {
        let mut b = self;
        b.req.max_tokens = Some(max_tokens);
        b
    }

    /// Sets the sampling temperature, given as the bit pattern of an `f32`.
    pub fn temperature(self, bits: u32) -> (b: Self)
        ensures
            b.req == (ChatRequest { temperature: Some(bits), ..self.req }),
    {
        let mut b = self;
        b.req.temperature = Some(bits);
        b
    }

    /// Sets nucleus sampling `top_p`, given as the bit pattern of an `f32`.
    pub fn top_p(self, bits: u32) -> (b: Self)
        ensures
            b.req == (ChatRequest { top_p: Some(bits), ..self.req }),
    {
        let mut b = self;
        b.req.top_p = Some(bits);
        b
    }

    /// Sets the stop sequences.
    pub fn stop(self, stop: Vec<String>) -> (b: Self)
        ensures
            b.req == (ChatRequest { stop: Some(stop), ..self.req }),
    {
        let mut b = self;
        b.req.stop = Some(stop);
        b
    }

    /// Sets the response format.
    pub fn response_format(self, format: ResponseFormat) -> (b: Self)
        ensures
            b.req == (ChatRequest { response_format: Some(format), ..self.req }),
    {
        let mut b = self;
        b.req.response_format = Some(format);
        b
    }

    /// Sets the available tools.
    pub fn tools(self, tools: Vec<Tool>) -> (b: Self)
        ensures
            b.req == (ChatRequest { tools: Some(tools), ..self.req }),
    {
        let mut b = self;
        b.req.tools = Some(tools);
        b
    }

    /// Sets the tool-call policy.
    pub fn tool_choice(self, choice: ToolChoice) -> (b: Self)
        ensures
            b.req == (ChatRequest { tool_choice: Some(choice), ..self.req }),
    {
        let mut b = self;
        b.req.tool_choice = Some(choice);
        b
    }

    /// Enables or disables log-probabilities.
    pub fn logprobs(self, logprobs: bool) -> (b: Self)
        ensures
            b.req == (ChatRequest { logprobs: Some(logprobs), ..self.req }),
    {
        let mut b = self;
        b.req.logprobs = Some(logprobs);
        b
    }

    /// Sets the number of top log-probabilities per position.
    pub fn top_logprobs(self, n: u8) -> (b: Self)
        ensures
            b.req == (ChatRequest { top_logprobs: Some(n), ..self.req }),
    {
        let mut b = self;
        b.req.top_logprobs = Some(n);
        b
    }

    /// Sets the custom user id.
    pub fn user_id(self, user_id: &str) -> (b: Self)
        ensures
            b.req.user_id matches Some(id) && id@ == user_id@,
            b.req == (ChatRequest { user_id: b.req.user_id, ..self.req }),
    {
        let mut b = self;
        b.req.user_id = Some(user_id.to_owned());
        b
    }

    /// Finalizes the request after validating it.
    pub fn build(self) -> (r: Result<ChatRequest>)
        ensures
            match request_problem(self.req) {
                Some(why) => r matches Err(Error::InvalidRequest(m)) && m@ == why,
                None => r == Result::<ChatRequest>::Ok(self.req),
            },
    {
        match self.req.validate() {
            Err(e) => Err(e),
            Ok(()) => Ok(self.req),
        }
    }
}

} // verus!
