//! Error types for the API client.

use crate::json;
use crate::text;
use vstd::prelude::*;
use vstd::string::StringExecFns;

verus! {

/// Convenience alias for `Result<T, `[`Error`]`>`.
pub type Result<T> = std::result::Result<T, Error>;

/// The single error type of the API client.
#[derive(Debug, PartialEq, Eq)]
#[non_exhaustive]
pub enum Error {
    /// The server returned a non-2xx HTTP status.
    Api(ApiError),
    /// A transport-level failure that happened before a complete HTTP response
    /// was received.
    Transport(TransportError),
    /// A successful (2xx) response carried a body that could not be parsed into
    /// the expected type.
    Decode {
        /// Which response was being parsed: `"chat"`, `"chunk"`, `"models"`,
        /// `"balance"`, or `"request"` (when encoding the outgoing body).
        context: String,
        /// What the parser said.
        source: String,
    },
    /// The request was rejected locally by validation.
    InvalidRequest(String),
    /// The client could not be configured.
    Config(String),
}

/// A non-2xx response from the API.
#[derive(Debug, Clone, PartialEq, Eq)]
pub struct ApiError {
    /// The raw HTTP status code.
    pub status: u16,
    /// The status code mapped to a semantic kind.
    pub kind: ApiErrorKind,
    /// The human-readable message extracted from the response body.
    pub message: String,
}

/// Semantic classification of a non-2xx status.
#[derive(Debug, Clone, Copy, PartialEq, Eq, Structural)]
#[non_exhaustive]
pub enum ApiErrorKind {
    /// 400 — malformed request body.
    BadRequest,
    /// 401 — invalid API key / authentication failed.
    Unauthorized,
    /// 402 — account balance exhausted.
    InsufficientBalance,
    /// 422 — request parameters are invalid.
    InvalidParams,
    /// 429 — TPM/RPM or concurrency limit reached.
    RateLimited,
    /// 500 — internal server fault.
    ServerError,
    /// 503 — server overloaded.
    Overloaded,
    /// Any other non-2xx status not covered above.
    Other,
}

/// A normalized transport-level failure, independent of the HTTP backend.
#[derive(Debug, Clone, PartialEq, Eq)]
#[non_exhaustive]
pub enum TransportError {
    /// The request timed out while connecting or while reading the response.
    Timeout,
    /// A connection could not be established.
    Connect,
    /// A TLS handshake or certificate error occurred.
    Tls,
    /// The connection was closed unexpectedly, or failed while reading the body.
    Closed,
    /// Any other transport failure, with what the backend said.
    Other(String),
}

/// The semantic kind of a status code.
pub open spec fn kind_of(status: u16) -> ApiErrorKind {
    if status == 400 {
        ApiErrorKind::BadRequest
    } else if status == 401 {
        ApiErrorKind::Unauthorized
    } else if status == 402 {
        ApiErrorKind::InsufficientBalance
    } else if status == 422 {
        ApiErrorKind::InvalidParams
    } else if status == 429 {
        ApiErrorKind::RateLimited
    } else if status == 500 {
        ApiErrorKind::ServerError
    } else if status == 503 {
        ApiErrorKind::Overloaded
    } else {
        ApiErrorKind::Other
    }
}

impl ApiErrorKind {
    /// The kind's name.
    pub open spec fn name(self) -> Seq<char> {
        match self {
            ApiErrorKind::BadRequest => "BadRequest"@,
            ApiErrorKind::Unauthorized => "Unauthorized"@,
            ApiErrorKind::InsufficientBalance => "InsufficientBalance"@,
            ApiErrorKind::InvalidParams => "InvalidParams"@,
            ApiErrorKind::RateLimited => "RateLimited"@,
            ApiErrorKind::ServerError => "ServerError"@,
            ApiErrorKind::Overloaded => "Overloaded"@,
            ApiErrorKind::Other => "Other"@,
        }
    }

    fn name_text(self) -> (name: &'static str)
        ensures
            name@ == self.name(),
    {
        match self {
            ApiErrorKind::BadRequest => "BadRequest",
            ApiErrorKind::Unauthorized => "Unauthorized",
            ApiErrorKind::InsufficientBalance => "InsufficientBalance",
            ApiErrorKind::InvalidParams => "InvalidParams",
            ApiErrorKind::RateLimited => "RateLimited",
            ApiErrorKind::ServerError => "ServerError",
            ApiErrorKind::Overloaded => "Overloaded",
            ApiErrorKind::Other => "Other",
        }
    }

    /// Maps an HTTP status code to its semantic kind.
    pub fn from_status(status: u16) -> (kind: Self)
        ensures
            kind == kind_of(status),
    {
        match status {
            400 => ApiErrorKind::BadRequest,
            401 => ApiErrorKind::Unauthorized,
            402 => ApiErrorKind::InsufficientBalance,
            422 => ApiErrorKind::InvalidParams,
            429 => ApiErrorKind::RateLimited,
            500 => ApiErrorKind::ServerError,
            503 => ApiErrorKind::Overloaded,
            _ => ApiErrorKind::Other,
        }
    }
}

/// Whether a later retry of the same request might plausibly succeed.
pub open spec fn transient(e: Error) -> bool {
    match e {
        Error::Api(api) => api.kind == ApiErrorKind::ServerError || api.kind
            == ApiErrorKind::Overloaded,
        Error::Transport(t) => t is Timeout || t is Connect || t is Closed,
        _ => false,
    }
}

impl TransportError {
    /// What the error says.
    pub open spec fn says(self) -> Seq<char> {
        match self {
            TransportError::Timeout => "request timed out"@,
            TransportError::Connect => "failed to establish connection"@,
            TransportError::Tls => "TLS error"@,
            TransportError::Closed => "connection closed unexpectedly"@,
            TransportError::Other(e) => "transport error: "@ + e@,
        }
    }

    /// What the error says.
    pub fn message(&self) -> (s: String)
        ensures
            s@ == self.says(),
    {
        match self {
            TransportError::Timeout => "request timed out".to_owned(),
            TransportError::Connect => "failed to establish connection".to_owned(),
            TransportError::Tls => "TLS error".to_owned(),
            TransportError::Closed => "connection closed unexpectedly".to_owned(),
            TransportError::Other(e) => {
                let mut s = "transport error: ".to_owned();
                s.append(e.as_str());
                s
            },
        }
    }
}

impl Error {
    /// What the error says.
    pub open spec fn says(self) -> Seq<char> {
        match self {
            Error::Api(e) => "DeepSeek API error "@ + e.says(),
            Error::Transport(t) => t.says(),
            Error::Decode { context, source } => "failed to decode "@ + context@ + " response: "@
                + source@,
            Error::InvalidRequest(m) => "invalid request: "@ + m@,
            Error::Config(m) => "configuration error: "@ + m@,
        }
    }

    /// What the error says.
    pub fn message(&self) -> (s: String)
        ensures
            s@ == self.says(),
    {
        match self {
            Error::Api(e) => {
                let mut s = "DeepSeek API error ".to_owned();
                s.append(e.to_string().as_str());
                s
            },
            Error::Transport(t) => t.message(),
            Error::Decode { context, source } => {
                let mut s = "failed to decode ".to_owned();
                s.append(context.as_str());
                s.append(" response: ");
                s.append(source.as_str());
                s
            },
            Error::InvalidRequest(m) => {
                let mut s = "invalid request: ".to_owned();
                s.append(m.as_str());
                s
            },
            Error::Config(m) => {
                let mut s = "configuration error: ".to_owned();
                s.append(m.as_str());
                s
            },
        }
    }

    /// Returns `true` when retrying the same request later might plausibly
    /// succeed: server faults and recoverable transport failures. Rate limiting is
    /// deliberately **not** treated as transient.
    pub fn is_transient(&self) -> (yes: bool)
        ensures
            yes == transient(*self),
    {
        match self {
            Error::Api(e) => e.kind == ApiErrorKind::ServerError || e.kind
                == ApiErrorKind::Overloaded,
            Error::Transport(t) => matches!(
                t,
                TransportError::Timeout | TransportError::Connect | TransportError::Closed
            ),
            Error::Decode { context: _, source: _ } => false,
            Error::InvalidRequest(_) => false,
            Error::Config(_) => false,
        }
    }
}

/// A retry helps exactly with the statuses 500 and 503.
pub proof fn law_only_server_faults_are_transient(status: u16, message: String)
    ensures
        transient(
            Error::Api(ApiError { status, kind: kind_of(status), message }),
        ) <==> status == 500 || status == 503,
{
}

// ---------------------------------------------------------------------------
// The message of an error body
// ---------------------------------------------------------------------------

/// The longest raw body that is shown whole, in bytes.
pub const MAX_RAW: usize = 512;

/// How many characters of `s`, from the front, begin at or before byte `max`,
/// less one: what is left when the character that covers byte `max` and all
/// behind it are cut off.
pub open spec fn cut_at(s: Seq<char>, max: int) -> int
    decreases s.len(),
{
    if s.len() == 0 {
        0
    } else if text::utf8_len(s.drop_last()) <= max {
        s.len() - 1
    } else {
        cut_at(s.drop_last(), max)
    }
}

/// A raw body as it is shown: without white space around it, and cut off with an
/// ellipsis where it is too long.
pub open spec fn shown(body: Seq<char>) -> Seq<char> {
    let trimmed = text::trimmed(body);
    if text::utf8_len(trimmed) > MAX_RAW {
        trimmed.take(cut_at(trimmed, MAX_RAW as int)) + "…"@
    } else {
        trimmed
    }
}

/// The structured message of an error body, if it is JSON and has one: that of
/// its `error` object, or its own.
pub open spec fn structured_message(body: Seq<char>) -> Option<Seq<char>> {
    let inner = json::json_text_at(body, "/error/message"@);
    if inner is Some {
        inner
    } else {
        json::text_field(body, "message"@)
    }
}

/// The message of an error body, given the structured one.
pub open spec fn message_or_body(structured: Option<Seq<char>>, body: Seq<char>) -> Seq<char> {
    match structured {
        Some(message) => message,
        None => shown(body),
    }
}

/// Shows a raw body: trimmed, and cut off with an ellipsis where it is too long.
pub fn show_body(body: &str) -> (s: String)
    ensures
        s@ == shown(body@),
{
    let trimmed = text::trim(body);
    let len: usize = text::byte_len(trimmed.as_str());
    if len <= MAX_RAW {
        return trimmed;
    }
    let chars: Vec<char> = text::chars_of(trimmed.as_str());
    let ghost all = trimmed@;
    let mut offset: usize = 0;
    let mut i: usize = 0;
    proof {
        assert(all.take(0) == Seq::<char>::empty());
        assert(all.take(all.len() as int) == all);
    }
    while i < chars.len()
        invariant
            i <= chars@.len(),
            chars@ == all,
            offset == text::utf8_len(all.take(i as int)),
            all.take(all.len() as int) == all,
            text::utf8_len(all) > MAX_RAW,
            text::utf8_len(all) <= usize::MAX,
            forall|k: int| 0 <= k < i ==> text::utf8_len(#[trigger] all.take(k)) <= MAX_RAW,
        ensures
            0 < i <= chars@.len(),
            chars@ == all,
            text::utf8_len(all.take(i as int)) > MAX_RAW,
            text::utf8_len(all.take(i - 1)) <= MAX_RAW,
        decreases chars@.len() - i,
    {
        if offset > MAX_RAW {
            break ;
        }
        proof {
            text::lemma_utf8_len_next(all, i as int);
        }
        offset = offset + text::char_width(chars[i]);
        i += 1;
    }
    let end: usize = i - 1;
    proof {
        lemma_cut_at(all, end as int);
        assert(all.subrange(0, end as int) == all.take(end as int));
    }
    let mut s = text::from_chars(&chars, 0, end);
    s.append("…");
    s
}

proof fn lemma_cut_at(s: Seq<char>, end: int)
    requires
        0 <= end < s.len(),
        text::utf8_len(s.take(end)) <= MAX_RAW,
        text::utf8_len(s.take(end + 1)) > MAX_RAW,
    ensures
        cut_at(s, MAX_RAW as int) == end,
    decreases s.len(),
{
    assert(s.drop_last() == s.take(s.len() - 1));
    if end + 1 < s.len() {
        if end + 1 < s.len() - 1 {
            text::lemma_utf8_len_strict(s, end + 1, s.len() - 1);
        }
        assert(s.drop_last().take(end) == s.take(end));
        assert(s.drop_last().take(end + 1) == s.take(end + 1));
        lemma_cut_at(s.drop_last(), end);
    }
}

/// The message of an error body, given the structured one.
pub fn pick_message(structured: Option<String>, body: &str) -> (s: String)
    ensures
        s@ == message_or_body(crate::content::option_view(structured), body@),
{
    match structured {
        Some(message) => message,
        None => show_body(body),
    }
}

/// Best-effort extraction of a human-readable message from an error body.
///
/// Tries `{"error":{"message":...}}`, then a top-level `{"message":...}`, and
/// finally falls back to the trimmed (and length-capped) raw body.
pub fn extract_message(body: &str) -> (s: String)
    ensures
        s@ == message_or_body(structured_message(body@), body@),
{
    let structured = match json::read_text_at(body, "/error/message") {
        Some(message) => Some(message),
        None => json::read_text_field(body, "message"),
    };
    pick_message(structured, body)
}

impl ApiError {
    /// What the error says: its status, its kind and its message.
    pub open spec fn says(self) -> Seq<char> {
        text::decimal(self.status as nat) + " ("@ + self.kind.name() + "): "@ + self.message@
    }

    /// What the error says: its status, its kind and its message.
    pub fn to_string(&self) -> (s: String)
        ensures
            s@ == self.says(),
    {
        let mut s = text::decimal_string(self.status as u64);
        s.append(" (");
        s.append(self.kind.name_text());
        s.append("): ");
        s.append(self.message.as_str());
        s
    }

    /// Builds an [`ApiError`] from a status code and the raw response body,
    /// mapping the code to an [`ApiErrorKind`] and extracting a message.
    pub fn from_status(status: u16, body: &str) -> (e: Self)
        ensures
            e.status == status,
            e.kind == kind_of(status),
            e.message@ == message_or_body(structured_message(body@), body@),
    {
        ApiError {
            status,
            kind: ApiErrorKind::from_status(status),
            message: extract_message(body),
        }
    }
}

/// What is shown of a raw body is at most [`MAX_RAW`] bytes of it, and the
/// ellipsis; a shorter body is shown whole.
pub proof fn law_shown_body_is_capped(body: Seq<char>)
    ensures
        ({
            let trimmed = text::trimmed(body);
            let n = cut_at(trimmed, MAX_RAW as int);
            text::utf8_len(trimmed) > MAX_RAW ==> 0 <= n <= trimmed.len() && text::utf8_len(
                trimmed.take(n),
            ) <= MAX_RAW
        }),
        text::utf8_len(text::trimmed(body)) <= MAX_RAW ==> shown(body) == text::trimmed(body),
{
    lemma_cut_at_bound(text::trimmed(body));
}

proof fn lemma_cut_at_bound(s: Seq<char>)
    ensures
        0 <= cut_at(s, MAX_RAW as int) <= s.len(),
        text::utf8_len(s.take(cut_at(s, MAX_RAW as int))) <= MAX_RAW,
    decreases s.len(),
{
    if s.len() > 0 {
        assert(s.drop_last() == s.take(s.len() - 1));
        if text::utf8_len(s.drop_last()) > MAX_RAW {
            lemma_cut_at_bound(s.drop_last());
            let n = cut_at(s.drop_last(), MAX_RAW as int);
            assert(s.drop_last().take(n) == s.take(n));
        }
    } else {
        assert(s.take(0) == s);
    }
}

} // verus!
