//! What holds of requests, replies and errors.

use crate::content;
use crate::json;
use crate::req::client::{Client, ClientBuilder};
use crate::req::error;
use crate::req::error::{ApiError, ApiErrorKind, Error, Result, TransportError};
use crate::req::model::Model;
use crate::req::protocol;
use crate::req::protocol::SseView;
use crate::req::types::request;
use crate::req::types::request::{
    ChatRequest, ChatRequestBuilder, Message, Role, Thinking, ToolCall,
};
use crate::req::types::response::{ChatResponse, Chunk, FinishReason, RespMessage, Usage};
use crate::text;
use vstd::prelude::*;

verus! {

// ---------------------------------------------------------------------------
// Errors
// ---------------------------------------------------------------------------

/// Each status that the API documents has a kind of its own; all others share one.
pub proof fn law_each_status_has_its_kind(status: u16, kind: ApiErrorKind)
    requires
        call_ensures(ApiErrorKind::from_status, (status,), kind),
    ensures
        kind == ApiErrorKind::BadRequest <==> status == 400,
        kind == ApiErrorKind::Unauthorized <==> status == 401,
        kind == ApiErrorKind::InsufficientBalance <==> status == 402,
        kind == ApiErrorKind::InvalidParams <==> status == 422,
        kind == ApiErrorKind::RateLimited <==> status == 429,
        kind == ApiErrorKind::ServerError <==> status == 500,
        kind == ApiErrorKind::Overloaded <==> status == 503,
{
}

/// A reply is handed on as it is where its status is one of success, and else is the
/// error of that status.
pub proof fn law_only_success_is_handed_on(
    status: u16,
    body: String,
    same: &str,
    said: String,
    e: ApiError,
    r: Result<String>,
)
    requires
        call_ensures(protocol::check_status, (status, body), r),
        same@ == body@,
        call_ensures(error::extract_message, (same,), said),
        call_ensures(ApiError::from_status, (status, same), e),
    ensures
        200 <= status <= 299 ==> r == Result::<String>::Ok(body),
        !(200 <= status <= 299) ==> (r matches Err(Error::Api(api)) && api.status == status
            && is_kind_of(status, api.kind) && api.message@ == said@),
        e.status == status && is_kind_of(status, e.kind) && e.message@ == said@,
{
}

/// Whether `kind` is that of `status`.
pub open spec fn is_kind_of(status: u16, kind: ApiErrorKind) -> bool {
    match kind {
        ApiErrorKind::BadRequest => status == 400,
        ApiErrorKind::Unauthorized => status == 401,
        ApiErrorKind::InsufficientBalance => status == 402,
        ApiErrorKind::InvalidParams => status == 422,
        ApiErrorKind::RateLimited => status == 429,
        ApiErrorKind::ServerError => status == 500,
        ApiErrorKind::Overloaded => status == 503,
        ApiErrorKind::Other => status != 400 && status != 401 && status != 402 && status != 422
            && status != 429 && status != 500 && status != 503,
    }
}

/// The message of an error body is the one of its `error` object, else its own
/// `message`, else the body itself.
pub proof fn law_the_inner_message_comes_first(body: &str, s: String, shown: String)
    requires
        call_ensures(error::extract_message, (body,), s),
        call_ensures(error::show_body, (body,), shown),
    ensures
        ({
            let inner = json::json_text_at(body@, "/error/message"@);
            let outer = json::json_text_at(body@, "/message"@);
            &&& inner is Some ==> s@ == inner->0
            &&& inner is None && outer is Some ==> s@ == outer->0
            &&& inner is None && outer is None ==> s@ == shown@
        }),
{
    reveal_strlit("/");
    reveal_strlit("message");
    reveal_strlit("/message");
    assert("/"@ + "message"@ =~= "/message"@);
}

proof fn lemma_cut_is_last(s: Seq<char>, max: int)
    requires
        max >= 0,
        text::utf8_len(s) > max,
    ensures
        0 <= error::cut_at(s, max) < s.len(),
        text::utf8_len(s.take(error::cut_at(s, max))) <= max,
        forall|k: int|
            error::cut_at(s, max) < k <= s.len() ==> text::utf8_len(#[trigger] s.take(k)) > max
                || k == s.len(),
    decreases s.len(),
{
    if s.len() > 0 {
        let init = s.drop_last();
        assert(init == s.take(s.len() - 1));
        if text::utf8_len(init) > max {
            lemma_cut_is_last(init, max);
            let n = error::cut_at(init, max);
            assert(init.take(n) == s.take(n));
            assert forall|k: int| n < k <= s.len() implies text::utf8_len(#[trigger] s.take(k))
                > max || k == s.len() by {
                if k < init.len() {
                    assert(init.take(k) == s.take(k));
                } else if k == init.len() {
                    assert(init.take(k) == init);
                    assert(s.take(k) == init);
                }
            }
        }
    }
}

/// A body is shown without white space around it; one of more than 512 bytes is cut
/// behind as many of its characters as begin within them, and ends in an ellipsis.
pub proof fn law_a_long_body_is_cut(body: &str, s: String)
    requires
        call_ensures(error::show_body, (body,), s),
    ensures
        ({
            let trimmed = text::trimmed(body@);
            &&& text::utf8_len(trimmed) <= 512 ==> s@ == trimmed
            &&& text::utf8_len(trimmed) > 512 ==> exists|n: int|
                {
                    &&& 0 <= n < trimmed.len()
                    &&& s@ == #[trigger] trimmed.take(n) + "…"@
                    &&& text::utf8_len(trimmed.take(n)) <= 512
                    &&& n + 1 < trimmed.len() ==> text::utf8_len(trimmed.take(n + 1)) > 512
                }
        }),
{
    let trimmed = text::trimmed(body@);
    if text::utf8_len(trimmed) > 512 {
        lemma_cut_is_last(trimmed, 512);
        let n = error::cut_at(trimmed, 512);
        assert(s@ == trimmed.take(n) + "…"@);
    }
}

/// What an error says names its kind and carries its details.
pub proof fn law_errors_say_what_happened(e: &Error, s: String)
    requires
        call_ensures(Error::message, (e,), s),
    ensures
        match *e {
            Error::Api(api) => s@ == "DeepSeek API error "@ + text::decimal(api.status as nat)
                + " ("@ + api.kind.name() + "): "@ + api.message@,
            Error::Transport(TransportError::Timeout) => s@ == "request timed out"@,
            Error::Transport(TransportError::Connect) => s@ == "failed to establish connection"@,
            Error::Transport(TransportError::Tls) => s@ == "TLS error"@,
            Error::Transport(TransportError::Closed) => s@ == "connection closed unexpectedly"@,
            Error::Transport(TransportError::Other(why)) => s@ == "transport error: "@ + why@,
            Error::Decode { context, source } => s@ == "failed to decode "@ + context@
                + " response: "@ + source@,
            Error::InvalidRequest(m) => s@ == "invalid request: "@ + m@,
            Error::Config(m) => s@ == "configuration error: "@ + m@,
        },
{
    if let Error::Api(api) = *e {
        assert("DeepSeek API error "@ + (text::decimal(api.status as nat) + " ("@
            + api.kind.name() + "): "@ + api.message@) == "DeepSeek API error "@ + text::decimal(
            api.status as nat,
        ) + " ("@ + api.kind.name() + "): "@ + api.message@);
    }
}

/// Each kind of API error is told by its name.
pub proof fn law_kinds_are_told_by_name(e: &ApiError, s: String)
    requires
        call_ensures(ApiError::to_string, (e,), s),
    ensures
        ({
            let front = text::decimal(e.status as nat);
            let back = e.message@;
            match e.kind {
                ApiErrorKind::BadRequest => s@ == front + " ("@ + "BadRequest"@ + "): "@ + back,
                ApiErrorKind::Unauthorized => s@ == front + " ("@ + "Unauthorized"@ + "): "@
                    + back,
                ApiErrorKind::InsufficientBalance => s@ == front + " ("@
                    + "InsufficientBalance"@ + "): "@ + back,
                ApiErrorKind::InvalidParams => s@ == front + " ("@ + "InvalidParams"@ + "): "@
                    + back,
                ApiErrorKind::RateLimited => s@ == front + " ("@ + "RateLimited"@ + "): "@ + back,
                ApiErrorKind::ServerError => s@ == front + " ("@ + "ServerError"@ + "): "@ + back,
                ApiErrorKind::Overloaded => s@ == front + " ("@ + "Overloaded"@ + "): "@ + back,
                ApiErrorKind::Other => s@ == front + " ("@ + "Other"@ + "): "@ + back,
            }
        }),
{
}

/// A fault may pass by itself where it is the server's own, or the connection's.
pub proof fn law_passing_faults(e: &Error, yes: bool)
    requires
        call_ensures(Error::is_transient, (e,), yes),
    ensures
        yes == match *e {
            Error::Api(api) => api.kind == ApiErrorKind::ServerError || api.kind
                == ApiErrorKind::Overloaded,
            Error::Transport(TransportError::Timeout) => true,
            Error::Transport(TransportError::Connect) => true,
            Error::Transport(TransportError::Closed) => true,
            Error::Transport(TransportError::Tls) => false,
            Error::Transport(TransportError::Other(_)) => false,
            Error::Decode { context: _, source: _ } => false,
            Error::InvalidRequest(_) => false,
            Error::Config(_) => false,
        },
{
}

// ---------------------------------------------------------------------------
// The event stream
// ---------------------------------------------------------------------------

proof fn lemma_unterminated(line: Seq<char>, end: Seq<char>)
    requires
        line.len() > 0,
        line.last() != '\r' && line.last() != '\n',
        forall|i: int| 0 <= i < end.len() ==> #[trigger] end[i] == '\r' || end[i] == '\n',
    ensures
        protocol::unterminated(line + end) == line,
    decreases end.len(),
{
    let all = line + end;
    if end.len() == 0 {
        assert(all == line);
    } else {
        assert(all.last() == end[end.len() - 1]);
        assert(all.drop_last() == line + end.drop_last());
        lemma_unterminated(line, end.drop_last());
    }
}

proof fn lemma_trimmed_front(space: Seq<char>, payload: Seq<char>)
    requires
        payload.len() > 0,
        !text::is_white(payload[0]),
        forall|i: int| 0 <= i < space.len() ==> text::is_white(#[trigger] space[i]),
    ensures
        text::trimmed_start(space + payload) == payload,
    decreases space.len(),
{
    let all = space + payload;
    if space.len() == 0 {
        assert(all == payload);
    } else {
        assert(all[0] == space[0]);
        assert(all.drop_first() == space.drop_first() + payload);
        lemma_trimmed_front(space.drop_first(), payload);
    }
}

/// A data line carries what stands behind `data:`, without the white space before
/// it and without the line ending; the payload `[DONE]` ends the stream.
pub proof fn law_a_data_line_carries_its_payload(
    space: Seq<char>,
    payload: Seq<char>,
    end: Seq<char>,
)
    requires
        payload.len() > 0,
        !text::is_white(payload[0]),
        payload.last() != '\r' && payload.last() != '\n',
        forall|i: int| 0 <= i < space.len() ==> text::is_white(#[trigger] space[i]),
        forall|i: int| 0 <= i < end.len() ==> #[trigger] end[i] == '\r' || end[i] == '\n',
    ensures
        protocol::decoded("data:"@ + space + payload + end) == if payload == "[DONE]"@ {
            SseView::Done
        } else {
            SseView::Data(payload)
        },
{
    reveal_strlit("data:");
    let line = "data:"@ + space + payload;
    assert(line.last() == payload.last());
    lemma_unterminated(line, end);
    assert(line.take(5) == "data:"@);
    assert(line.skip(5) == space + payload);
    lemma_trimmed_front(space, payload);
}

/// A line that does not begin with `data:` carries nothing.
pub proof fn law_other_lines_carry_nothing(line: Seq<char>)
    requires
        line.len() < 5 || line.take(5) != "data:"@,
    ensures
        protocol::decoded(line) is Skip,
{
    reveal_strlit("data:");
    lemma_unterminated_front(line);
    let s = protocol::unterminated(line);
    if text::begins_with(s, "data:"@) {
        assert(line.take(5) == s.take(5));
    }
}

proof fn lemma_unterminated_front(line: Seq<char>)
    ensures
        protocol::unterminated(line).len() <= line.len(),
        protocol::unterminated(line) == line.take(protocol::unterminated(line).len() as int),
    decreases line.len(),
{
    if line.len() > 0 && (line.last() == '\r' || line.last() == '\n') {
        lemma_unterminated_front(line.drop_last());
        let n = protocol::unterminated(line).len() as int;
        assert(line.drop_last().take(n) == line.take(n));
    } else {
        assert(line.take(line.len() as int) == line);
    }
}

proof fn lemma_feed_byte_behind(line: Seq<u8>, rest: Seq<u8>)
    requires
        forall|i: int| 0 <= i < line.len() ==> #[trigger] line[i] != 10,
    ensures
        protocol::feed_byte(line + seq![10u8] + rest) == line.len(),
        protocol::feed_byte(line) == line.len(),
    decreases line.len(),
{
    let all = line + seq![10u8] + rest;
    if line.len() > 0 {
        assert(line[0] != 10);
        let tail = line.drop_first();
        assert forall|i: int| 0 <= i < tail.len() implies #[trigger] tail[i] != 10 by {
            assert(tail[i] == line[i + 1]);
        }
        assert(all.drop_first() == tail + seq![10u8] + rest);
        lemma_feed_byte_behind(tail, rest);
    }
}

/// Bytes are read line by line, in order: the first complete line is decoded with
/// its line feed; if it carries a payload that comes first, if it is the end nothing
/// after it is read, and bytes without a line feed wait.
pub proof fn law_bytes_are_read_line_by_line(line: Seq<u8>, rest: Seq<u8>)
    requires
        forall|i: int| 0 <= i < line.len() ==> #[trigger] line[i] != 10,
    ensures
        protocol::drained(line) == (Seq::<Seq<char>>::empty(), line, false),
        ({
            let all = protocol::drained(line + seq![10u8] + rest);
            match protocol::decoded(protocol::line_text(line + seq![10u8])) {
                SseView::Skip => all == protocol::drained(rest),
                SseView::Done => all == (Seq::<Seq<char>>::empty(), rest, true),
                SseView::Data(data) => all.0 == seq![data] + protocol::drained(rest).0 && all.1
                    == protocol::drained(rest).1 && all.2 == protocol::drained(rest).2,
            }
        }),
{
    lemma_feed_byte_behind(line, rest);
    let bytes = line + seq![10u8] + rest;
    let i = line.len() as int;
    assert(bytes.take(i + 1) == line + seq![10u8]);
    assert(bytes.skip(i + 1) == rest);
}

/// A line of UTF-8 is read as such.
pub proof fn law_lines_are_utf8(chars: Seq<char>)
    ensures
        protocol::line_text(vstd::utf8::encode_utf8(chars)) == chars,
{
    vstd::utf8::encode_utf8_valid_utf8(chars);
    vstd::utf8::encode_utf8_decode_utf8(chars);
}

// ---------------------------------------------------------------------------
// Requests
// ---------------------------------------------------------------------------

/// A request is refused where it says nothing, where it asks for log probabilities
/// while thinking, or for the top ones without asking for any; every other one is
/// built as it was put together.
pub proof fn law_a_request_is_built_as_put_together(
    builder: ChatRequestBuilder,
    r: Result<ChatRequest>,
)
    requires
        call_ensures(ChatRequestBuilder::build, (builder,), r),
    ensures
        ({
            let req = builder.req;
            let thinks = match req.thinking {
                Some(Thinking::Enabled { effort: _ }) => true,
                _ => false,
            };
            let asks = req.logprobs == Some(true);
            let top = req.top_logprobs is Some;
            &&& r is Err <==> req.messages@.len() == 0 || (thinks && (asks || top)) || (top
                && !asks)
            &&& r matches Ok(built) ==> built == req
            &&& r matches Err(e) ==> (e matches Error::InvalidRequest(m) && m@
                == if req.messages@.len() == 0 {
                "messages must not be empty"@
            } else if thinks {
                "logprobs/top_logprobs are not supported in thinking mode"@
            } else {
                "top_logprobs requires logprobs = true"@
            })
        }),
{
}

/// A message of each role holds its text and nothing else; a tool's holds the id of
/// its call besides.
pub proof fn law_messages_hold_their_text(
    content: &str,
    id: &str,
    system: Message,
    user: Message,
    assistant: Message,
    tool: Message,
)
    requires
        call_ensures(Message::system, (content,), system),
        call_ensures(Message::user, (content,), user),
        call_ensures(Message::assistant, (content,), assistant),
        call_ensures(Message::tool, (id, content), tool),
    ensures
        plain_message(system, Role::System, content@) && system.tool_call_id is None,
        plain_message(user, Role::User, content@) && user.tool_call_id is None,
        plain_message(assistant, Role::Assistant, content@) && assistant.tool_call_id is None,
        plain_message(tool, Role::Tool, content@) && (tool.tool_call_id matches Some(i) && i@
            == id@),
{
}

/// A message of a role that holds a text and, but for a call's id, nothing else.
pub open spec fn plain_message(m: Message, role: Role, text: Seq<char>) -> bool {
    &&& m.role == role
    &&& m.content matches Some(c) && c@ == text
    &&& m.name is None
    &&& m.reasoning_content is None
    &&& m.tool_calls is None
    &&& m.prefix is None
}

/// A reply goes into the history as an assistant message with its text and its tool
/// calls, and without its reasoning.
pub proof fn law_a_reply_goes_into_the_history(reply: &RespMessage, m: Message)
    requires
        call_ensures(RespMessage::to_history, (reply,), m),
    ensures
        m.role == Role::Assistant,
        content::option_view(m.content) == content::option_view(reply.content),
        m.content is Some <==> reply.content is Some,
        m.content matches Some(c) ==> c@ == reply.content->0@,
        m.reasoning_content is None,
        m.tool_calls is Some <==> reply.tool_calls is Some,
        m.tool_calls is Some ==> m.tool_calls->0@.len() == reply.tool_calls->0@.len() && (
        forall|i: int|
            0 <= i < reply.tool_calls->0@.len() ==> same_call(
                m.tool_calls->0@[i],
                #[trigger] reply.tool_calls->0@[i],
            )),
        m.name is None && m.tool_call_id is None && m.prefix is None,
{
    if m.tool_calls is Some && reply.tool_calls is Some {
        let mine = request::calls_view(m.tool_calls->0@);
        let theirs = request::calls_view(reply.tool_calls->0@);
        assert(mine == theirs);
        assert(mine.len() == m.tool_calls->0@.len());
        assert(theirs.len() == reply.tool_calls->0@.len());
        assert forall|i: int| 0 <= i < reply.tool_calls->0@.len() implies same_call(
            m.tool_calls->0@[i],
            #[trigger] reply.tool_calls->0@[i],
        ) by {
            assert(mine[i] == m.tool_calls->0@[i]@);
            assert(theirs[i] == reply.tool_calls->0@[i]@);
        }
    }
}

/// Whether two calls have one id and one kind, and call one function with the same
/// arguments.
pub open spec fn same_call(a: ToolCall, b: ToolCall) -> bool {
    &&& a.id@ == b.id@
    &&& a.kind@ == b.kind@
    &&& a.function.name@ == b.function.name@
    &&& a.function.arguments@ == b.function.arguments@
}

/// A finish reason is known by its name; another name is kept.
pub proof fn law_finish_reasons_are_known_by_name(s: &str, reason: FinishReason)
    requires
        call_ensures(FinishReason::read, (s,), reason),
    ensures
        reason is Stop <==> s@ == "stop"@,
        reason is Length <==> s@ == "length"@,
        reason is ContentFilter <==> s@ == "content_filter"@,
        reason is ToolCalls <==> s@ == "tool_calls"@,
        reason is InsufficientSystemResource <==> s@ == "insufficient_system_resource"@,
        reason matches FinishReason::Unknown(name) ==> name@ == s@,
{
}

/// Whether what was read is what is there.
pub open spec fn reads(s: Option<&str>, field: Option<String>) -> bool {
    match (s, field) {
        (Some(a), Some(b)) => a@ == b@,
        (None, None) => true,
        _ => false,
    }
}

/// A response is read by its first choice: its text, its reasoning and why it ended.
pub proof fn law_the_first_choice_is_read(
    response: &ChatResponse,
    content: Option<&str>,
    reasoning: Option<&str>,
    reason: Option<&FinishReason>,
)
    requires
        call_ensures(ChatResponse::content, (response,), content),
        call_ensures(ChatResponse::reasoning, (response,), reasoning),
        call_ensures(ChatResponse::finish_reason, (response,), reason),
    ensures
        response.choices@.len() == 0 ==> content is None && reasoning is None && reason is None,
        response.choices@.len() > 0 ==> {
            let first = response.choices@[0];
            &&& reads(content, first.message.content)
            &&& reads(reasoning, first.message.reasoning_content)
            &&& reason is Some <==> first.finish_reason is Some
            &&& reason matches Some(found) ==> *found == first.finish_reason->0
        },
{
}

/// A chunk is read by its first choice in the same way.
pub proof fn law_the_first_delta_is_read(
    chunk: &Chunk,
    content: Option<&str>,
    reasoning: Option<&str>,
    reason: Option<&FinishReason>,
)
    requires
        call_ensures(Chunk::delta_content, (chunk,), content),
        call_ensures(Chunk::delta_reasoning, (chunk,), reasoning),
        call_ensures(Chunk::finish_reason, (chunk,), reason),
    ensures
        chunk.choices@.len() == 0 ==> content is None && reasoning is None && reason is None,
        chunk.choices@.len() > 0 ==> {
            let first = chunk.choices@[0];
            &&& reads(content, first.delta.content)
            &&& reads(reasoning, first.delta.reasoning_content)
            &&& reason is Some <==> first.finish_reason is Some
            &&& reason matches Some(found) ==> *found == first.finish_reason->0
        },
{
}

/// The tokens spent on reasoning are those of the usage's details.
pub proof fn law_reasoning_is_found_in_the_details(usage: &Usage, n: Option<u32>)
    requires
        call_ensures(Usage::reasoning_tokens, (usage,), n),
    ensures
        usage.completion_tokens_details is None ==> n is None,
        usage.completion_tokens_details matches Some(d) ==> n == d.reasoning_tokens,
{
}

/// A message that was found stands for the body; else the body is shown.
pub proof fn law_a_found_message_stands_for_the_body(
    found: Option<String>,
    body: &str,
    shown: String,
    s: String,
)
    requires
        call_ensures(error::pick_message, (found, body), s),
        call_ensures(error::show_body, (body,), shown),
    ensures
        found matches Some(message) ==> s@ == message@,
        found is None ==> s@ == shown@,
{
}

// ---------------------------------------------------------------------------
// Models and clients
// ---------------------------------------------------------------------------

/// Each model is written as its id, and an id names the model that is written so.
pub proof fn law_models_are_written_as_their_ids(m: &Model, id: &str, s: &str, named: Model)
    requires
        call_ensures(Model::as_str, (m,), id),
        call_ensures(Model::pinned, (s,), named),
    ensures
        m is V4Flash ==> id@ == "deepseek-v4-flash"@,
        m is V4Pro ==> id@ == "deepseek-v4-pro"@,
        *m matches Model::Pinned(p) ==> id@ == p@,
        named is V4Flash <==> s@ == "deepseek-v4-flash"@,
        named is V4Pro <==> s@ == "deepseek-v4-pro"@,
        named matches Model::Pinned(p) ==> p@ == s@,
{
}

proof fn lemma_unslashed(url: Seq<char>) -> (n: int)
    ensures
        0 <= n <= url.len(),
        crate::req::client::unslashed(url) == url.take(n),
        n > 0 ==> url[n - 1] != '/',
        forall|i: int| n <= i < url.len() ==> #[trigger] url[i] == '/',
    decreases url.len(),
{
    if url.len() > 0 && url.last() == '/' {
        let init = url.drop_last();
        let n = lemma_unslashed(init);
        assert(init.take(n) == url.take(n));
        assert forall|i: int| n <= i < url.len() implies #[trigger] url[i] == '/' by {
            if i < init.len() {
                assert(init[i] == url[i]);
            }
        }
        n
    } else {
        assert(url.take(url.len() as int) == url);
        url.len() as int
    }
}

/// A client has the key, the timeout and the address it was built with, the address
/// without slashes at its end; without a key there is none.
pub proof fn law_a_client_is_built_as_put_together(builder: ClientBuilder, r: Result<Client>)
    requires
        call_ensures(ClientBuilder::build, (builder,), r),
    ensures
        r is Ok <==> builder.api_key is Some,
        r matches Ok(c) ==> c.api_key == builder.api_key->0 && c.timeout == builder.timeout
            && exists|n: int|
            {
                &&& 0 <= n <= builder.base_url@.len()
                &&& c.base_url@ == #[trigger] builder.base_url@.take(n)
                &&& n > 0 ==> builder.base_url@[n - 1] != '/'
                &&& forall|i: int|
                    n <= i < builder.base_url@.len() ==> #[trigger] builder.base_url@[i] == '/'
            },
        r matches Err(e) ==> (e matches Error::Config(m) && m@ == "api_key is required"@),
{
    let n = lemma_unslashed(builder.base_url@);
    assert(builder.base_url@.take(n) == crate::req::client::unslashed(builder.base_url@));
}

} // verus!
