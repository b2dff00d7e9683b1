//! Response types for the chat endpoint, both for complete responses and for
//! streaming chunks.

use crate::content;
use crate::req::types::request;
use crate::req::types::request::{Message, MessageView, Role, ToolCall};
use crate::text;
use vstd::prelude::*;

verus! {

/// Why the model stopped generating.
#[derive(Debug, Clone, PartialEq, Eq)]
pub enum FinishReason {
    /// Natural stop or a stop sequence was hit.
    Stop,
    /// `max_tokens` or the context limit was reached.
    Length,
    /// Output was filtered by the safety policy.
    ContentFilter,
    /// The model invoked one or more tools.
    ToolCalls,
    /// Generation was interrupted by a backend resource shortage.
    InsufficientSystemResource,
    /// An unrecognized reason; the raw string is preserved.
    Unknown(String),
}

impl View for FinishReason {
    type V = Seq<char>;

    /// How the reason is written.
    open spec fn view(&self) -> Seq<char> {
        match self {
            FinishReason::Stop => "stop"@,
            FinishReason::Length => "length"@,
            FinishReason::ContentFilter => "content_filter"@,
            FinishReason::ToolCalls => "tool_calls"@,
            FinishReason::InsufficientSystemResource => "insufficient_system_resource"@,
            FinishReason::Unknown(s) => s@,
        }
    }
}

impl FinishReason {
    /// Whether a known reason is held by its own variant.
    pub open spec fn recognized(self) -> bool {
        self matches FinishReason::Unknown(s) ==> s@ != "stop"@ && s@ != "length"@ && s@
            != "content_filter"@ && s@ != "tool_calls"@ && s@ != "insufficient_system_resource"@
    }

    /// The reason that is written so; an unrecognized one is preserved.
    pub fn read(s: &str) -> (reason: Self)
        ensures
            reason@ == s@,
            reason.recognized(),
            reason is Stop <==> s@ == "stop"@,
            reason is Length <==> s@ == "length"@,
            reason is ContentFilter <==> s@ == "content_filter"@,
            reason is ToolCalls <==> s@ == "tool_calls"@,
            reason is InsufficientSystemResource <==> s@ == "insufficient_system_resource"@,
    {
        proof {
            reveal_strlit("stop");
            reveal_strlit("length");
            reveal_strlit("content_filter");
            reveal_strlit("tool_calls");
            reveal_strlit("insufficient_system_resource");
            assert("stop"@.len() < "length"@.len() < "tool_calls"@.len());
            assert("tool_calls"@.len() < "content_filter"@.len());
            assert("content_filter"@.len() < "insufficient_system_resource"@.len());
        }
        if text::text_eq(s, "stop") {
            FinishReason::Stop
        } else if text::text_eq(s, "length") {
            FinishReason::Length
        } else if text::text_eq(s, "content_filter") {
            FinishReason::ContentFilter
        } else if text::text_eq(s, "tool_calls") {
            FinishReason::ToolCalls
        } else if text::text_eq(s, "insufficient_system_resource") {
            FinishReason::InsufficientSystemResource
        } else {
            FinishReason::Unknown(s.to_owned())
        }
    }
}

/// The assistant message inside a [`Choice`].
#[derive(Debug, Clone, PartialEq, Eq)]
pub struct RespMessage {
    /// The role, always `"assistant"` here.
    pub role: String,
    /// The answer text. May be empty if thinking consumed the token budget.
    pub content: Option<String>,
    /// The thinking chain (thinking mode only).
    pub reasoning_content: Option<String>,
    /// Tool calls requested by the model.
    pub tool_calls: Option<Vec<ToolCall>>,
}

/// A response message as the next turn's history holds it: without the thinking
/// chain.
pub open spec fn history_of(m: RespMessage) -> MessageView {
    MessageView {
        role: Role::Assistant,
        content: content::option_view(m.content),
        name: None,
        reasoning_content: None,
        tool_calls: request::option_calls(m.tool_calls),
        tool_call_id: None,
        prefix: None,
    }
}

impl RespMessage {
    /// Converts this response message into a request [`Message`] suitable for
    /// the next turn's history. `reasoning_content` is intentionally **dropped**.
    pub fn to_history(&self) -> (m: Message)
        ensures
            m@ == history_of(*self),
    {
        Message {
            role: Role::Assistant,
            content: self.content.clone(),
            name: None,
            reasoning_content: None,
            tool_calls: request::copy_calls(&self.tool_calls),
            tool_call_id: None,
            prefix: None,
        }
    }
}

/// One generated choice within a [`ChatResponse`].
#[derive(Debug, Clone, PartialEq, Eq)]
pub struct Choice {
    /// Index of this choice.
    pub index: u32,
    /// The assistant message produced.
    pub message: RespMessage,
    /// Why generation stopped (absent in some streaming frames).
    pub finish_reason: Option<FinishReason>,
}

/// Token usage for a request, reported verbatim by the server.
#[derive(Debug, Clone, PartialEq, Eq)]
pub struct Usage {
    /// Input tokens.
    pub prompt_tokens: u32,
    /// Output tokens (includes thinking tokens).
    pub completion_tokens: u32,
    /// `prompt_tokens + completion_tokens`.
    pub total_tokens: u32,
    /// Input tokens served from the on-disk prefix cache.
    pub prompt_cache_hit_tokens: u32,
    /// Input tokens not served from cache.
    pub prompt_cache_miss_tokens: u32,
    /// Breakdown of completion tokens (e.g. reasoning tokens).
    pub completion_tokens_details: Option<CompletionTokensDetails>,
    /// Breakdown of prompt tokens (cached count).
    pub prompt_tokens_details: Option<PromptTokensDetails>,
}

/// Completion-token breakdown.
#[derive(Debug, Clone, Copy, PartialEq, Eq)]
pub struct CompletionTokensDetails {
    /// Thinking-chain tokens (thinking mode only).
    pub reasoning_tokens: Option<u32>,
}

/// Prompt-token breakdown.
#[derive(Debug, Clone, Copy, PartialEq, Eq)]
pub struct PromptTokensDetails {
    /// Cached prompt tokens (equivalent to `prompt_cache_hit_tokens`).
    pub cached_tokens: Option<u32>,
}

impl Usage {
    /// The number of thinking tokens, if reported.
    pub open spec fn thought(self) -> Option<u32> {
        match self.completion_tokens_details {
            Some(d) => d.reasoning_tokens,
            None => None,
        }
    }

    /// The number of thinking tokens, if reported.
    pub fn reasoning_tokens(&self) -> (n: Option<u32>)
        ensures
            n == self.thought(),
    {
        match &self.completion_tokens_details {
            Some(d) => d.reasoning_tokens,
            None => None,
        }
    }
}

/// A complete (non-streaming) chat completion response.
#[derive(Debug, Clone, PartialEq, Eq)]
pub struct ChatResponse {
    /// Unique response id.
    pub id: String,
    /// Object type, e.g. `"chat.completion"`.
    pub object: String,
    /// Unix timestamp (seconds) of creation.
    pub created: i64,
    /// The model that produced the response, as reported by the server.
    pub model: String,
    /// Backend configuration fingerprint, when present.
    pub system_fingerprint: Option<String>,
    /// The generated choices (typically one).
    pub choices: Vec<Choice>,
    /// Token usage, when reported.
    pub usage: Option<Usage>,
}

/// What contracts see of an optional string slice.
pub open spec fn option_str(s: Option<&str>) -> Option<Seq<char>> {
    match s {
        Some(s) => Some(s@),
        None => None,
    }
}

/// The string of an option, if there is one.
fn as_deref(s: &Option<String>) -> (r: Option<&str>)
    ensures
        option_str(r) == content::option_view(*s),
{
    match s {
        Some(s) => Some(s.as_str()),
        None => None,
    }
}

impl ChatResponse {
    /// The first choice's text content, if any.
    pub fn content(&self) -> (s: Option<&str>)
        ensures
            option_str(s) == if self.choices@.len() == 0 {
                None
            } else {
                content::option_view(self.choices@[0].message.content)
            },
    {
        if self.choices.len() == 0 {
            None
        } else {
            as_deref(&self.choices[0].message.content)
        }
    }

    /// The first choice's thinking chain, if the model was in thinking mode.
    pub fn reasoning(&self) -> (s: Option<&str>)
        ensures
            option_str(s) == if self.choices@.len() == 0 {
                None
            } else {
                content::option_view(self.choices@[0].message.reasoning_content)
            },
    {
        if self.choices.len() == 0 {
            None
        } else {
            as_deref(&self.choices[0].message.reasoning_content)
        }
    }

    /// The first choice's finish reason, if present.
    pub fn finish_reason(&self) -> (r: Option<&FinishReason>)
        ensures
            if self.choices@.len() == 0 {
                r is None
            } else {
                match self.choices@[0].finish_reason {
                    Some(reason) => r matches Some(found) && *found == reason,
                    None => r is None,
                }
            },
    {
        if self.choices.len() == 0 {
            None
        } else {
            self.choices[0].finish_reason.as_ref()
        }
    }
}

/// The incremental payload of a [`ChunkChoice`].
#[derive(Debug, Clone, PartialEq, Eq)]
pub struct Delta {
    /// Role, present on the first chunk only.
    pub role: Option<String>,
    /// Incremental text content.
    pub content: Option<String>,
    /// Incremental thinking content.
    pub reasoning_content: Option<String>,
    /// Incremental tool calls.
    pub tool_calls: Option<Vec<ToolCall>>,
}

impl Default for Delta {
    fn default() -> (d: Self)
        ensures
            d.role is None,
            d.content is None,
            d.reasoning_content is None,
            d.tool_calls is None,
    {
        Delta { role: None, content: None, reasoning_content: None, tool_calls: None }
    }
}

/// One incremental choice within a [`Chunk`].
#[derive(Debug, Clone, PartialEq, Eq)]
pub struct ChunkChoice {
    /// Index of this choice.
    pub index: u32,
    /// The incremental delta.
    pub delta: Delta,
    /// Finish reason, present on the terminating chunk for this choice.
    pub finish_reason: Option<FinishReason>,
}

/// A single streaming chunk.
#[derive(Debug, Clone, PartialEq, Eq)]
pub struct Chunk {
    /// Unique response id (stable across the stream).
    pub id: String,
    /// Object type, e.g. `"chat.completion.chunk"`.
    pub object: String,
    /// Unix timestamp (seconds).
    pub created: i64,
    /// The model name.
    pub model: String,
    /// Backend configuration fingerprint, when present.
    pub system_fingerprint: Option<String>,
    /// Incremental choices.
    pub choices: Vec<ChunkChoice>,
    /// Usage, populated only on the final chunk when it was asked for.
    pub usage: Option<Usage>,
}

impl Chunk {
    /// The first choice's incremental text content, if any.
    pub fn delta_content(&self) -> (s: Option<&str>)
        ensures
            option_str(s) == if self.choices@.len() == 0 {
                None
            } else {
                content::option_view(self.choices@[0].delta.content)
            },
    {
        if self.choices.len() == 0 {
            None
        } else {
            as_deref(&self.choices[0].delta.content)
        }
    }

    /// The first choice's incremental thinking content, if any.
    pub fn delta_reasoning(&self) -> (s: Option<&str>)
        ensures
            option_str(s) == if self.choices@.len() == 0 {
                None
            } else {
                content::option_view(self.choices@[0].delta.reasoning_content)
            },
    {
        if self.choices.len() == 0 {
            None
        } else {
            as_deref(&self.choices[0].delta.reasoning_content)
        }
    }

    /// The first choice's finish reason, if this chunk carries one.
    pub fn finish_reason(&self) -> (r: Option<&FinishReason>)
        ensures
            if self.choices@.len() == 0 {
                r is None
            } else {
                match self.choices@[0].finish_reason {
                    Some(reason) => r matches Some(found) && *found == reason,
                    None => r is None,
                }
            },
    {
        if self.choices.len() == 0 {
            None
        } else {
            self.choices[0].finish_reason.as_ref()
        }
    }
}

} // verus!
