//! The chat-completion API: requests, responses, errors, and the stream format.

pub mod client;
pub mod error;
pub mod laws;
pub mod model;
pub mod protocol;
pub mod types;

pub use client::{Client, ClientBuilder};
pub use error::{ApiError, ApiErrorKind, Error, Result, TransportError};
pub use model::Model;
pub use types::common::{Balance, BalanceInfo, ModelInfo};
pub use types::request::{
    ChatRequest, ChatRequestBuilder, Effort, FunctionCall, FunctionDef, Message, ResponseFormat,
    Role, StreamOptions, Thinking, Tool, ToolCall, ToolChoice,
};
pub use types::response::{
    ChatResponse, Choice, Chunk, ChunkChoice, CompletionTokensDetails, Delta, FinishReason,
    PromptTokensDetails, RespMessage, Usage,
};
