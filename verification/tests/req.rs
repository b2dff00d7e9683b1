//! The API: models, requests, responses, errors, clients and the stream.

use std::time::Duration;

use ai_write::req::client::DEFAULT_BASE_URL;
use ai_write::req::error::{extract_message, pick_message, show_body};
use ai_write::req::protocol::{
    api_error, check_status, decode_line, ChatStream, LineRead, Sse, SseBuffer, StreamStep,
    BALANCE_PATH, CHAT_PATH, MODELS_PATH,
};
use ai_write::req::{
    ApiError, ApiErrorKind, ChatRequest, ChatResponse, Choice, Chunk, ChunkChoice, Client,
    CompletionTokensDetails, Delta, Effort, Error, FinishReason, FunctionDef, Message, Model,
    RespMessage, ResponseFormat, Role, StreamOptions, Thinking, Tool, ToolChoice, TransportError,
    Usage,
};

#[test]
fn named_variants_have_stable_wire_ids() {
    assert_eq!(Model::V4Flash.as_str(), "deepseek-v4-flash");
    assert_eq!(Model::V4Pro.as_str(), "deepseek-v4-pro");
}

#[test]
fn pinned_carries_dated_snapshot_verbatim() {
    let snap = Model::pinned("deepseek-v4-pro-2026-05-01");
    assert_eq!(snap.as_str(), "deepseek-v4-pro-2026-05-01");
    assert_eq!(snap.to_string(), "deepseek-v4-pro-2026-05-01");
    assert!(matches!(snap, Model::Pinned(id) if id == "deepseek-v4-pro-2026-05-01"));
}

#[test]
fn pinned_collapses_known_family_ids_to_named_variants() {
    assert_eq!(Model::pinned("deepseek-v4-flash"), Model::V4Flash);
    assert_eq!(Model::pinned("deepseek-v4-pro"), Model::V4Pro);
    // Equality holds regardless of how the same model was named.
    assert_eq!(
        Model::pinned("deepseek-v4-pro"),
        "deepseek-v4-pro".parse::<Model>().unwrap()
    );
}

#[test]
fn from_str_is_infallible_and_matches_pinned() {
    assert_eq!(
        "deepseek-v4-pro-2026-05-01".parse::<Model>().unwrap(),
        Model::pinned("deepseek-v4-pro-2026-05-01")
    );
    assert_eq!("deepseek-v4-pro".parse::<Model>().unwrap(), Model::V4Pro);
}

#[test]
fn a_model_prints_its_wire_id() {
    assert_eq!(Model::V4Flash.to_string(), "deepseek-v4-flash");
    assert_ne!(Model::V4Flash, Model::V4Pro);
}

// --- errors --------------------------------------------------------------------

#[test]
fn statuses_have_kinds() {
    let table = [
        (400, ApiErrorKind::BadRequest),
        (401, ApiErrorKind::Unauthorized),
        (402, ApiErrorKind::InsufficientBalance),
        (422, ApiErrorKind::InvalidParams),
        (429, ApiErrorKind::RateLimited),
        (500, ApiErrorKind::ServerError),
        (503, ApiErrorKind::Overloaded),
        (418, ApiErrorKind::Other),
    ];
    for (status, kind) in table {
        assert_eq!(ApiErrorKind::from_status(status), kind);
        let transient = Error::Api(ApiError::from_status(status, "")).is_transient();
        assert_eq!(transient, status == 500 || status == 503);
    }
}

#[test]
fn some_transport_errors_are_transient() {
    assert!(Error::Transport(TransportError::Timeout).is_transient());
    assert!(Error::Transport(TransportError::Connect).is_transient());
    assert!(Error::Transport(TransportError::Closed).is_transient());
    assert!(!Error::Transport(TransportError::Tls).is_transient());
    assert!(!Error::Transport(TransportError::Other("x".into())).is_transient());
    assert!(!Error::Config("x".into()).is_transient());
    assert!(!Error::InvalidRequest("x".into()).is_transient());
    assert!(!Error::Decode {
        context: "chat".into(),
        source: "x".into()
    }
    .is_transient());
}

#[test]
fn the_message_of_an_error_body_is_found() {
    assert_eq!(
        extract_message(r#"{"error":{"message":"bad key","type":"auth"}}"#),
        "bad key"
    );
    assert_eq!(extract_message(r#"{"message":"top"}"#), "top");
    assert_eq!(
        extract_message(r#"{"error":{"code":1},"message":"top"}"#),
        "top"
    );
    assert_eq!(extract_message(r#"{"error":"plain"}"#), r#"{"error":"plain"}"#);
    assert_eq!(extract_message("  oops \n"), "oops");
    assert_eq!(pick_message(Some("m".to_string()), "body"), "m");
    assert_eq!(pick_message(None, " body "), "body");
}

#[test]
fn a_long_body_is_cut_on_a_character() {
    let exact = "a".repeat(512);
    assert_eq!(show_body(&exact), exact);
    let long = "a".repeat(513);
    assert_eq!(show_body(&long), format!("{}\u{2026}", "a".repeat(512)));
    // Byte 512 lies inside the last character.
    let wide = format!("{}\u{e9}\u{e9}", "a".repeat(511));
    assert_eq!(show_body(&wide), format!("{}\u{2026}", "a".repeat(511)));
}

#[test]
fn errors_say_what_happened() {
    assert_eq!(
        Error::Api(ApiError::from_status(402, r#"{"error":{"message":"pay"}}"#)).message(),
        "DeepSeek API error 402 (InsufficientBalance): pay"
    );
    assert_eq!(
        ApiError::from_status(500, "down").to_string(),
        "500 (ServerError): down"
    );
    assert_eq!(
        Error::Transport(TransportError::Timeout).message(),
        "request timed out"
    );
    assert_eq!(
        TransportError::Connect.message(),
        "failed to establish connection"
    );
    assert_eq!(TransportError::Tls.message(), "TLS error");
    assert_eq!(
        TransportError::Closed.message(),
        "connection closed unexpectedly"
    );
    assert_eq!(
        TransportError::Other("x".into()).message(),
        "transport error: x"
    );
    assert_eq!(
        Error::InvalidRequest("no".into()).message(),
        "invalid request: no"
    );
    assert_eq!(Error::Config("no".into()).message(), "configuration error: no");
    assert_eq!(
        Error::Decode {
            context: "chat".into(),
            source: "eof".into()
        }
        .message(),
        "failed to decode chat response: eof"
    );
}

// --- requests ------------------------------------------------------------------

#[test]
fn a_request_is_built_piece_by_piece() {
    let tool = Tool::function(FunctionDef {
        name: "f".into(),
        description: None,
        parameters: None,
    });
    let req = ChatRequest::builder(Model::V4Pro)
        .system("s")
        .user("u")
        .assistant("a")
        .message(Message::tool("id", "t"))
        .thinking(Thinking::Disabled)
        .max_tokens(7)
        .temperature(1.5f32.to_bits())
        .top_p(0.5f32.to_bits())
        .stop(vec!["x".into()])
        .response_format(ResponseFormat::JsonObject)
        .tools(vec![tool.clone()])
        .tool_choice(ToolChoice::Required)
        .logprobs(true)
        .top_logprobs(3)
        .user_id("me")
        .build()
        .unwrap();
    let roles: Vec<Role> = req.messages.iter().map(|m| m.role).collect();
    assert_eq!(roles, vec![Role::System, Role::User, Role::Assistant, Role::Tool]);
    assert_eq!(req.messages[3].tool_call_id.as_deref(), Some("id"));
    assert_eq!(req.model, Model::V4Pro);
    assert_eq!(req.max_tokens, Some(7));
    assert_eq!(req.temperature.map(f32::from_bits), Some(1.5));
    assert_eq!(req.top_p.map(f32::from_bits), Some(0.5));
    assert_eq!(req.stop, Some(vec!["x".to_string()]));
    assert_eq!(req.response_format, Some(ResponseFormat::JsonObject));
    assert_eq!(req.tools, Some(vec![tool]));
    assert_eq!(req.tool_choice, Some(ToolChoice::Required));
    assert_eq!(req.logprobs, Some(true));
    assert_eq!(req.top_logprobs, Some(3));
    assert_eq!(req.user_id.as_deref(), Some("me"));
    assert_eq!(req.stream, None);
    let streamed = req.streamed();
    assert_eq!(streamed.stream, Some(true));
    assert_eq!(
        streamed.stream_options,
        Some(StreamOptions {
            include_usage: true
        })
    );
}

#[test]
fn illegal_requests_are_rejected() {
    let err = |r: Result<ChatRequest, Error>| r.unwrap_err();
    assert_eq!(
        err(ChatRequest::builder(Model::V4Flash).build()),
        Error::InvalidRequest("messages must not be empty".into())
    );
    let thinking = Thinking::Enabled {
        effort: Effort::Max,
    };
    assert_eq!(
        err(ChatRequest::builder(Model::V4Flash)
            .user("u")
            .thinking(thinking)
            .logprobs(true)
            .build()),
        Error::InvalidRequest("logprobs/top_logprobs are not supported in thinking mode".into())
    );
    assert_eq!(
        err(ChatRequest::builder(Model::V4Flash)
            .user("u")
            .top_logprobs(1)
            .build()),
        Error::InvalidRequest("top_logprobs requires logprobs = true".into())
    );
    assert!(ChatRequest::builder(Model::V4Flash)
        .user("u")
        .thinking(thinking)
        .logprobs(false)
        .build()
        .is_ok());
}

// --- responses -----------------------------------------------------------------

#[test]
fn finish_reasons_are_read() {
    assert_eq!(FinishReason::read("stop"), FinishReason::Stop);
    assert_eq!(FinishReason::read("length"), FinishReason::Length);
    assert_eq!(
        FinishReason::read("content_filter"),
        FinishReason::ContentFilter
    );
    assert_eq!(FinishReason::read("tool_calls"), FinishReason::ToolCalls);
    assert_eq!(
        FinishReason::read("insufficient_system_resource"),
        FinishReason::InsufficientSystemResource
    );
    assert_eq!(
        FinishReason::read("novel"),
        FinishReason::Unknown("novel".into())
    );
}

#[test]
fn the_first_choice_is_read() {
    let mut response = ChatResponse {
        id: "1".into(),
        object: "chat.completion".into(),
        created: 0,
        model: "m".into(),
        system_fingerprint: None,
        choices: vec![Choice {
            index: 0,
            message: RespMessage {
                role: "assistant".into(),
                content: Some("c".into()),
                reasoning_content: Some("r".into()),
                tool_calls: None,
            },
            finish_reason: Some(FinishReason::Length),
        }],
        usage: None,
    };
    assert_eq!(response.content(), Some("c"));
    assert_eq!(response.reasoning(), Some("r"));
    assert_eq!(response.finish_reason(), Some(&FinishReason::Length));
    response.choices.clear();
    assert_eq!(response.content(), None);
    assert_eq!(response.reasoning(), None);
    assert_eq!(response.finish_reason(), None);
}

#[test]
fn the_first_delta_is_read() {
    let chunk = Chunk {
        id: "1".into(),
        object: "chat.completion.chunk".into(),
        created: 0,
        model: "m".into(),
        system_fingerprint: None,
        choices: vec![ChunkChoice {
            index: 0,
            delta: Delta {
                content: Some("d".into()),
                ..Delta::default()
            },
            finish_reason: None,
        }],
        usage: None,
    };
    assert_eq!(chunk.delta_content(), Some("d"));
    assert_eq!(chunk.delta_reasoning(), None);
    assert_eq!(chunk.finish_reason(), None);
}

#[test]
fn thinking_tokens_are_reported_when_known() {
    let mut usage = Usage {
        prompt_tokens: 1,
        completion_tokens: 2,
        total_tokens: 3,
        prompt_cache_hit_tokens: 0,
        prompt_cache_miss_tokens: 1,
        completion_tokens_details: None,
        prompt_tokens_details: None,
    };
    assert_eq!(usage.reasoning_tokens(), None);
    usage.completion_tokens_details = Some(CompletionTokensDetails {
        reasoning_tokens: Some(2),
    });
    assert_eq!(usage.reasoning_tokens(), Some(2));
}

// --- clients -------------------------------------------------------------------

#[test]
fn clients_are_configured() {
    let client = Client::builder().api_key("k").build().unwrap();
    assert_eq!(client.base_url, DEFAULT_BASE_URL);
    assert_eq!(client.url(CHAT_PATH), "https://api.deepseek.com/chat/completions");
    assert_eq!(client.auth(), "Bearer k");
    assert_eq!(client.timeout, None);
    let client = Client::builder()
        .api_key("k")
        .base_url("http://localhost:1//")
        .timeout(Duration::from_secs(3))
        .build()
        .unwrap();
    assert_eq!(client.url(MODELS_PATH), "http://localhost:1/models");
    assert_eq!(client.url(BALANCE_PATH), "http://localhost:1/user/balance");
    assert_eq!(client.timeout, Some(Duration::from_secs(3)));
    assert_eq!(
        Client::builder().build().unwrap_err(),
        Error::Config("api_key is required".into())
    );
    assert_eq!(
        Client::from_env(None, None).unwrap_err(),
        Error::Config("DEEPSEEK_API_KEY is not set".into())
    );
    assert_eq!(
        Client::from_env(Some("k"), Some("http://x/")).unwrap().base_url,
        "http://x"
    );
}

// --- the stream ----------------------------------------------------------------

#[test]
fn statuses_let_a_body_through_or_not() {
    assert_eq!(check_status(200, "ok".into()), Ok("ok".to_string()));
    assert_eq!(check_status(299, "ok".into()), Ok("ok".to_string()));
    assert_eq!(check_status(300, "moved".into()), Err(api_error(300, "moved")));
    assert!(check_status(199, "".into()).is_err());
}

#[test]
fn lines_are_decoded() {
    assert_eq!(decode_line("data: {\"a\":1}\r\n"), Sse::Data("{\"a\":1}".into()));
    assert_eq!(decode_line("data:x"), Sse::Data("x".into()));
    assert_eq!(decode_line("data: [DONE]\n"), Sse::Done);
    assert_eq!(decode_line(": keep-alive"), Sse::Skip);
    assert_eq!(decode_line("event: x"), Sse::Skip);
    assert_eq!(decode_line(""), Sse::Skip);
}

#[test]
fn a_stream_ends_and_stays_ended() {
    let mut s = ChatStream::new();
    assert_eq!(s.next(LineRead::Line(": c".into())), StreamStep::Again);
    assert_eq!(
        s.next(LineRead::Line("data: p".into())),
        StreamStep::Payload("p".into())
    );
    assert_eq!(s.next(LineRead::Line("data: [DONE]".into())), StreamStep::End);
    assert_eq!(s.next(LineRead::Line("data: p".into())), StreamStep::End);

    let mut s = ChatStream::new();
    assert_eq!(
        s.next(LineRead::Failed("broken".into())),
        StreamStep::Fail(Error::Transport(TransportError::Other("broken".into())))
    );
    assert_eq!(s.next(LineRead::End), StreamStep::End);
}

#[test]
fn bytes_are_cut_into_lines_wherever_they_are_broken() {
    let stream = "data: caf\u{e9}\n\n: c\ndata: two\r\ndata: [DONE]\ndata: late\n".as_bytes();
    let mut whole = SseBuffer::new();
    let expected = whole.feed(stream);
    assert_eq!(expected, vec!["caf\u{e9}".to_string(), "two".to_string()]);
    for at in 0..stream.len() {
        let mut b = SseBuffer::new();
        let mut got = b.feed(&stream[..at]);
        got.extend(b.feed(&stream[at..]));
        assert_eq!(got, expected);
        assert_eq!(b.finish(), None);
    }
}

#[test]
fn bytes_that_are_no_text_are_replaced() {
    let mut b = SseBuffer::new();
    assert_eq!(
        b.feed(b"data: a\xffb\n"),
        vec!["a\u{fffd}b".to_string()]
    );
}

#[test]
fn a_last_line_without_an_ending_counts() {
    let mut b = SseBuffer::new();
    assert!(b.feed(b"data: tail").is_empty());
    assert_eq!(b.finish(), Some("tail".to_string()));
    let b = SseBuffer::new();
    assert_eq!(b.finish(), None);
}

#[test]
fn a_stream_is_decoded_as_utf8() {
    let mut b = SseBuffer::new();
    assert_eq!(b.feed("data: h\u{e9}\u{4e16}\n".as_bytes()), vec!["h\u{e9}\u{4e16}"]);
    assert!(b.feed("data: \u{1f600}".as_bytes()).is_empty());
    assert_eq!(b.finish(), Some("\u{1f600}".to_string()));
}

#[test]
fn an_error_message_is_read_whatever_stands_beside_it() {
    assert_eq!(
        extract_message(
            r#"{"error":{"message":"m","$serde_json::private::RawValue":"1"},"message":"top"}"#
        ),
        "m"
    );
    // Only the string in the object counts.
    assert_eq!(extract_message(r#"{"error":["x"],"message":"top"}"#), "top");
    assert_eq!(extract_message(r#"{"error":{"message":7},"message":"top"}"#), "top");
    assert_eq!(extract_message(r#"{"error":"x"}"#), r#"{"error":"x"}"#);
}
