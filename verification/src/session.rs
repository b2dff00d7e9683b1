//! The turn engine: a stateful session over a stateless chat client.
//!
//! A [`Session`] owns a fixed system prompt, the running history and the token
//! usage. It decides; whoever drives it does the outside work. Each *round* is a
//! request, a reply, and, where the model asks for tools, the replies of those
//! tools. [`Session::run_round`] takes what has just happened and says what is to
//! be done next; [`Session::run_until_done`] says whether another round follows.

pub mod laws;

use crate::content;
use crate::json;
use crate::req::error;
use crate::req::error::{Error, Result};
use crate::req::model::Model;
use crate::req::types::request;
use crate::req::types::request::{
    ChatRequest, Message, MessageView, Role, Thinking, ToolCall, ToolCallView, ToolChoice, ToolView,
};
use crate::req::types::response;
use crate::req::types::response::{ChatResponse, Choice, FinishReason, Usage};
use crate::tool::{ToolRegistry, WriterId};
use vstd::prelude::*;

verus! {

// ---------------------------------------------------------------------------
// Usage
// ---------------------------------------------------------------------------

/// Cumulative token usage across every round of a [`Session`].
#[derive(Debug, Clone, Copy, PartialEq, Eq, Structural)]
pub struct UsageTotals {
    /// Total input tokens billed across all rounds.
    pub prompt_tokens: u64,
    /// Total output tokens (including thinking tokens) across all rounds.
    pub completion_tokens: u64,
    /// `prompt_tokens + completion_tokens` across all rounds.
    pub total_tokens: u64,
    /// Total input tokens served from the prefix cache.
    pub prompt_cache_hit_tokens: u64,
    /// Total input tokens not served from the prefix cache.
    pub prompt_cache_miss_tokens: u64,
    /// Total thinking-chain tokens, when the server reported them.
    pub reasoning_tokens: u64,
    /// Number of completed chat completions folded into these totals.
    pub rounds: u64,
}

impl Default for UsageTotals {
    fn default() -> (totals: Self)
        ensures
            totals == no_usage(),
    {
        UsageTotals {
            prompt_tokens: 0,
            completion_tokens: 0,
            total_tokens: 0,
            prompt_cache_hit_tokens: 0,
            prompt_cache_miss_tokens: 0,
            reasoning_tokens: 0,
            rounds: 0,
        }
    }
}

/// The totals before the first round.
pub open spec fn no_usage() -> UsageTotals {
    UsageTotals {
        prompt_tokens: 0,
        completion_tokens: 0,
        total_tokens: 0,
        prompt_cache_hit_tokens: 0,
        prompt_cache_miss_tokens: 0,
        reasoning_tokens: 0,
        rounds: 0,
    }
}

/// The thinking tokens of a round; none, where the server did not report them.
pub open spec fn thinking_tokens(usage: Usage) -> int {
    match usage.thought() {
        Some(n) => n as int,
        None => 0,
    }
}

impl UsageTotals {
    /// Whether one more round's usage still fits in the totals.
    pub open spec fn has_room(self, usage: Usage) -> bool {
        &&& self.prompt_tokens + usage.prompt_tokens <= u64::MAX
        &&& self.completion_tokens + usage.completion_tokens <= u64::MAX
        &&& self.total_tokens + usage.total_tokens <= u64::MAX
        &&& self.prompt_cache_hit_tokens + usage.prompt_cache_hit_tokens <= u64::MAX
        &&& self.prompt_cache_miss_tokens + usage.prompt_cache_miss_tokens <= u64::MAX
        &&& self.reasoning_tokens + thinking_tokens(usage) <= u64::MAX
        &&& self.rounds < u64::MAX
    }

    /// The totals with one more round's usage.
    pub open spec fn plus(self, usage: Usage) -> UsageTotals {
        UsageTotals {
            prompt_tokens: (self.prompt_tokens + usage.prompt_tokens) as u64,
            completion_tokens: (self.completion_tokens + usage.completion_tokens) as u64,
            total_tokens: (self.total_tokens + usage.total_tokens) as u64,
            prompt_cache_hit_tokens: (self.prompt_cache_hit_tokens
                + usage.prompt_cache_hit_tokens) as u64,
            prompt_cache_miss_tokens: (self.prompt_cache_miss_tokens
                + usage.prompt_cache_miss_tokens) as u64,
            reasoning_tokens: (self.reasoning_tokens + thinking_tokens(usage)) as u64,
            rounds: (self.rounds + 1) as u64,
        }
    }

    /// Folds a single round's [`Usage`] into the running totals, incrementing the
    /// round counter.
    pub fn add(&mut self, usage: &Usage)
        requires
            old(self).has_room(*usage),
        ensures
            *final(self) == old(self).plus(*usage),
    {
        self.prompt_tokens = self.prompt_tokens + usage.prompt_tokens as u64;
        self.completion_tokens = self.completion_tokens + usage.completion_tokens as u64;
        self.total_tokens = self.total_tokens + usage.total_tokens as u64;
        self.prompt_cache_hit_tokens = self.prompt_cache_hit_tokens
            + usage.prompt_cache_hit_tokens as u64;
        self.prompt_cache_miss_tokens = self.prompt_cache_miss_tokens
            + usage.prompt_cache_miss_tokens as u64;
        self.reasoning_tokens = self.reasoning_tokens + match usage.reasoning_tokens() {
            Some(n) => n as u64,
            None => 0,
        };
        self.rounds = self.rounds + 1;
    }
}

// ---------------------------------------------------------------------------
// Options
// ---------------------------------------------------------------------------

/// Configuration for a [`Session`], fixed at construction and carried through a
/// snapshot.
#[derive(Debug, PartialEq, Eq)]
pub struct SessionOptions {
    /// The model to use for every round.
    pub model: Model,
    /// Thinking-mode control applied to every request. `None` uses the server
    /// default (thinking enabled).
    pub thinking: Option<Thinking>,
    /// Maximum number of tokens to generate per round.
    pub max_tokens: Option<u32>,
    /// Hard ceiling on the number of rounds before a run yields
    /// [`Step::NeedHuman`].
    pub max_rounds: u32,
    /// Maximum number of transient-error retries within a single round before the
    /// error is treated as fatal.
    pub max_retries: u32,
}

impl Default for SessionOptions {
    /// Returns the default options: [`Model::V4Flash`], server-default thinking, a
    /// 20-round ceiling, and 3 transient retries.
    fn default() -> (options: Self)
        ensures
            options == (SessionOptions {
                model: Model::V4Flash,
                thinking: None,
                max_tokens: None,
                max_rounds: 20,
                max_retries: 3,
            }),
    {
        SessionOptions {
            model: Model::V4Flash,
            thinking: None,
            max_tokens: None,
            max_rounds: 20,
            max_retries: 3,
        }
    }
}

impl Clone for SessionOptions {
    fn clone(&self) -> (copy: Self)
        ensures
            copy == *self,
    {
        SessionOptions {
            model: self.model.clone(),
            thinking: self.thinking,
            max_tokens: self.max_tokens,
            max_rounds: self.max_rounds,
            max_retries: self.max_retries,
        }
    }
}

// ---------------------------------------------------------------------------
// What happens in a round
// ---------------------------------------------------------------------------

/// The smallest externally observable step a [`Session`] can take.
#[derive(Debug, PartialEq, Eq)]
#[non_exhaustive]
pub enum Step {
    /// The model requested one or more tools; the listed tools were dispatched
    /// and their results fed back into the history. The loop should continue.
    Tool(Vec<String>),
    /// The model produced an intermediate assistant message (no tool call, not
    /// yet a self-assessed completion). Carries the message text.
    Message(String),
    /// The model self-assessed the task as complete (`stop`). Carries the final
    /// assistant text.
    Done(String),
    /// The session needs human intervention before it can proceed.
    NeedHuman,
    /// A fatal error ended the session. Transient errors are retried internally
    /// and do not surface here.
    Failed(Error),
}

/// What the driver of a session is to do next in a round.
#[derive(Debug, PartialEq, Eq)]
pub enum Action {
    /// Send the request, and hand the reply back.
    Chat(ChatRequest),
    /// Wait, send the same request once more, and hand the reply back.
    Retry {
        /// Which attempt the next one is, counted from 0.
        attempt: u32,
        /// How long to wait, in milliseconds.
        millis: u64,
    },
    /// Run the tools in this order, and hand their outcomes back.
    Dispatch {
        /// What the model asked for; at least one call.
        calls: Vec<ToolCall>,
        /// Whether the workspace is to be opened first.
        open: bool,
    },
    /// The round is over.
    Finish(Step),
}

/// What came of dispatching tool calls.
#[derive(Debug, PartialEq, Eq)]
pub enum Dispatched {
    /// The workspace could not be opened; what the error says.
    OpenFailed(String),
    /// Each call was run. A success is a JSON document, an error is what it says.
    Ran(Vec<std::result::Result<String, String>>),
}

/// What has just happened in a round.
#[derive(Debug, PartialEq, Eq)]
pub enum Progress {
    /// The round begins.
    Begin,
    /// The client has replied.
    Replied {
        /// Which attempt this was, counted from 0.
        attempt: u32,
        /// The reply.
        reply: Result<ChatResponse>,
    },
    /// The tools have run.
    Dispatched {
        /// The calls that were asked for.
        calls: Vec<ToolCall>,
        /// What came of them.
        outcome: Dispatched,
    },
}

// ---------------------------------------------------------------------------
// The session
// ---------------------------------------------------------------------------

/// A stateful, business-agnostic agentic session.
#[derive(Debug)]
pub struct Session {
    /// The fixed system prompt prepended to every request.
    pub system: String,
    /// The running conversation history, without thinking chains.
    pub history: Vec<Message>,
    /// The tools advertised to the model.
    pub tools: ToolRegistry,
    /// Cumulative token usage across rounds.
    pub usage: UsageTotals,
    /// Behavioural configuration.
    pub options: SessionOptions,
    /// The root at which the workspace is opened when a tool call needs it.
    pub workspace_root: String,
    /// The identity tool calls are dispatched under.
    pub writer: WriterId,
    /// Whether the workspace has been opened. It is opened once and kept: the
    /// article locks live on the open handle.
    pub workspace_open: bool,
}

/// A session, as contracts see one.
#[verifier::ext_equal]
pub struct SessionView {
    /// The system prompt.
    pub system: Seq<char>,
    /// The history.
    pub history: Seq<MessageView>,
    /// The advertised tools.
    pub tools: Seq<ToolView>,
    /// The usage.
    pub usage: UsageTotals,
    /// The options.
    pub options: SessionOptions,
    /// The workspace's root.
    pub workspace_root: Seq<char>,
    /// The writer.
    pub writer: WriterId,
    /// Whether the workspace is open.
    pub workspace_open: bool,
}

impl View for Session {
    type V = SessionView;

    open spec fn view(&self) -> SessionView {
        SessionView {
            system: self.system@,
            history: request::messages_view(self.history@),
            tools: request::tools_view(self.tools.tools@),
            usage: self.usage,
            options: self.options,
            workspace_root: self.workspace_root@,
            writer: self.writer,
            workspace_open: self.workspace_open,
        }
    }
}

/// A serializable point-in-time capture of a [`Session`]'s persistent state.
#[derive(Debug)]
pub struct SessionSnapshot {
    /// The fixed system prompt.
    pub system: String,
    /// The full conversation history at snapshot time.
    pub history: Vec<Message>,
    /// Cumulative token usage at snapshot time.
    pub usage: UsageTotals,
    /// The behavioural options the session was running with.
    pub options: SessionOptions,
}

/// A snapshot, as contracts see one.
#[verifier::ext_equal]
pub struct SnapshotView {
    /// The system prompt.
    pub system: Seq<char>,
    /// The history.
    pub history: Seq<MessageView>,
    /// The usage.
    pub usage: UsageTotals,
    /// The options.
    pub options: SessionOptions,
}

impl View for SessionSnapshot {
    type V = SnapshotView;

    open spec fn view(&self) -> SnapshotView {
        SnapshotView {
            system: self.system@,
            history: request::messages_view(self.history@),
            usage: self.usage,
            options: self.options,
        }
    }
}

/// What of a session a snapshot captures.
pub open spec fn captured(s: SessionView) -> SnapshotView {
    SnapshotView {
        system: s.system,
        history: s.history,
        usage: s.usage,
        options: s.options,
    }
}

/// A session that starts from a snapshot, in the default workspace.
pub open spec fn restored(snapshot: SnapshotView, tools: Seq<ToolView>) -> SessionView {
    SessionView {
        system: snapshot.system,
        history: snapshot.history,
        tools,
        usage: snapshot.usage,
        options: snapshot.options,
        workspace_root: "workspace"@,
        writer: WriterId::Human,
        workspace_open: false,
    }
}

/// A session with more history.
pub open spec fn told(s: SessionView, messages: Seq<MessageView>) -> SessionView {
    SessionView { history: s.history + messages, ..s }
}

// -- The request -------------------------------------------------------------

/// The messages of a session's request: the system prompt, then the history.
pub open spec fn request_messages(s: SessionView) -> Seq<MessageView> {
    seq![request::said(Role::System, s.system)] + s.history
}

/// What a session asks for in a round. Tools are advertised only where there are
/// some; the server then decides which to call.
pub open spec fn asks(s: SessionView, req: ChatRequest) -> bool {
    &&& req.model == s.options.model
    &&& request::messages_view(req.messages@) == request_messages(s)
    &&& req.thinking == s.options.thinking
    &&& req.max_tokens == s.options.max_tokens
    &&& match req.tools {
        Some(tools) => s.tools.len() > 0 && request::tools_view(tools@) == s.tools,
        None => s.tools.len() == 0,
    }
    &&& req.tool_choice == if s.tools.len() > 0 {
        Some(ToolChoice::Auto)
    } else {
        None
    }
    &&& req.temperature is None
    &&& req.top_p is None
    &&& req.stop is None
    &&& req.response_format is None
    &&& req.logprobs is None
    &&& req.top_logprobs is None
    &&& req.user_id is None
    &&& req.stream is None
    &&& req.stream_options is None
}

// -- The reply ---------------------------------------------------------------

/// Whether an error is worth another attempt.
pub open spec fn retries(options: SessionOptions, attempt: u32, e: Error) -> bool {
    error::transient(e) && attempt < options.max_retries
}

/// The totals after a reply: with its usage, or, where the server omitted it,
/// with the round alone.
pub open spec fn counted(totals: UsageTotals, response: ChatResponse) -> UsageTotals {
    match response.usage {
        Some(usage) => totals.plus(usage),
        None => UsageTotals { rounds: (totals.rounds + 1) as u64, ..totals },
    }
}

/// Whether the totals can take a reply.
pub open spec fn countable(totals: UsageTotals, response: ChatResponse) -> bool {
    match response.usage {
        Some(usage) => totals.has_room(usage),
        None => totals.rounds < u64::MAX,
    }
}

/// The text of a choice; empty, where it has none.
pub open spec fn choice_text(choice: Choice) -> Seq<char> {
    match choice.message.content {
        Some(content) => content@,
        None => Seq::empty(),
    }
}

/// The tools that a choice asks for.
pub open spec fn choice_calls(choice: Choice) -> Seq<ToolCallView> {
    match choice.message.tool_calls {
        Some(calls) => request::calls_view(calls@),
        None => Seq::empty(),
    }
}

/// What follows a choice, given whether the workspace is open: its finish reason
/// decides. A request for tools without a call is an intermediate message.
pub open spec fn follows(choice: Choice, workspace_open: bool, action: Action) -> bool {
    match choice.finish_reason {
        Some(FinishReason::ToolCalls) => if choice_calls(choice).len() == 0 {
            action matches Action::Finish(Step::Message(text)) && text@ == Seq::<char>::empty()
        } else {
            action matches Action::Dispatch { calls, open } && request::calls_view(calls@)
                == choice_calls(choice) && open == !workspace_open
        },
        Some(FinishReason::Stop) | None => action matches Action::Finish(Step::Done(text)) && text@
            == choice_text(choice),
        Some(FinishReason::Length) => action matches Action::Finish(Step::Message(text)) && text@
            == choice_text(choice),
        Some(_) => action == Action::Finish(Step::NeedHuman),
    }
}

/// What becomes of a session, and what follows, on a complete reply.
pub open spec fn received(
    before: SessionView,
    response: ChatResponse,
    after: SessionView,
    action: Action,
) -> bool {
    let usage = counted(before.usage, response);
    if response.choices@.len() == 0 {
        &&& after == SessionView { usage, ..before }
        &&& action matches Action::Finish(Step::Failed(Error::Decode { context, source }))
            && context@ == "chat"@ && source@ == "chat response contained no choices"@
    } else {
        let choice = response.choices@[0];
        &&& after == told(
            SessionView { usage, ..before },
            seq![response::history_of(choice.message)],
        )
        &&& follows(choice, before.workspace_open, action)
    }
}

// -- The tools ---------------------------------------------------------------

/// A reply to a tool call.
pub open spec fn tool_reply(id: Seq<char>, payload: Seq<char>) -> MessageView {
    MessageView { tool_call_id: Some(id), ..request::said(Role::Tool, payload) }
}

/// How an error is told to the model.
pub open spec fn error_payload(message: Seq<char>) -> Seq<char> {
    json::json_field("error"@, message)
}

/// What the model is told of the call at an index.
pub open spec fn payload(outcome: Dispatched, i: int) -> Seq<char> {
    match outcome {
        Dispatched::OpenFailed(message) => error_payload(message@),
        Dispatched::Ran(results) => match results@[i] {
            Ok(value) => value@,
            Err(message) => error_payload(message@),
        },
    }
}

/// What the call at an index was refused with, if it was.
pub open spec fn refusal(outcome: Dispatched, i: int) -> Option<Seq<char>> {
    match outcome {
        Dispatched::OpenFailed(message) => Some(message@),
        Dispatched::Ran(results) => match results@[i] {
            Ok(_) => None,
            Err(message) => Some(message@),
        },
    }
}

/// Whether the model can read every refusal among the first `n` calls in the
/// `error` field of the reply.
pub open spec fn refusals_readable(outcome: Dispatched, n: nat) -> bool {
    forall|i: int|
        0 <= i < n && (#[trigger] refusal(outcome, i)) is Some ==> json::text_field(
            payload(outcome, i),
            "error"@,
        ) == refusal(outcome, i)
}

/// The replies to the first `n` calls, in the order of the calls.
pub open spec fn replies(calls: Seq<ToolCallView>, outcome: Dispatched, n: nat) -> Seq<
    MessageView,
> {
    Seq::new(n, |i: int| tool_reply(calls[i].id, payload(outcome, i)))
}

/// The names of the first `n` called functions.
pub open spec fn called(calls: Seq<ToolCallView>, n: nat) -> Seq<Seq<char>> {
    Seq::new(n, |i: int| calls[i].name)
}

/// Whether there is an outcome for each call.
pub open spec fn answers(outcome: Dispatched, calls: Seq<ToolCallView>) -> bool {
    outcome matches Dispatched::Ran(results) ==> results@.len() == calls.len()
}

/// What becomes of a session when tools have run: every call is replied to, and
/// the workspace stays open unless it could not be opened.
pub open spec fn after_tools(
    before: SessionView,
    calls: Seq<ToolCallView>,
    outcome: Dispatched,
) -> SessionView {
    told(
        SessionView {
            workspace_open: before.workspace_open || outcome is Ran,
            ..before
        },
        replies(calls, outcome, calls.len()),
    )
}

// -- The round ---------------------------------------------------------------

/// Whether a session can take what has just happened.
pub open spec fn takes(s: SessionView, progress: Progress) -> bool {
    match progress {
        Progress::Begin => true,
        Progress::Replied { attempt: _, reply } => match reply {
            Ok(response) => countable(s.usage, response),
            Err(_) => true,
        },
        Progress::Dispatched { calls, outcome } => calls@.len() > 0 && answers(
            outcome,
            request::calls_view(calls@),
        ),
    }
}

/// What becomes of a session in a round, and what is to be done next.
pub open spec fn round(
    before: SessionView,
    progress: Progress,
    after: SessionView,
    action: Action,
) -> bool {
    match progress {
        Progress::Begin => {
            &&& after == before
            &&& action matches Action::Chat(req) && asks(before, req)
        },
        Progress::Replied { attempt, reply } => match reply {
            Ok(response) => received(before, response, after, action),
            Err(e) => {
                &&& after == before
                &&& action == if retries(before.options, attempt, e) {
                    Action::Retry {
                        attempt: (attempt + 1) as u32,
                        millis: (250 * (attempt + 1)) as u64,
                    }
                } else {
                    Action::Finish(Step::Failed(e))
                }
            },
        },
        Progress::Dispatched { calls, outcome } => {
            let calls = request::calls_view(calls@);
            &&& after == after_tools(before, calls, outcome)
            &&& action matches Action::Finish(Step::Tool(names)) && crate::text::views(names@)
                == called(calls, calls.len())
        },
    }
}

// -- The run -----------------------------------------------------------------

/// Whether a run goes on after a step.
pub open spec fn continues(step: Step) -> bool {
    step is Tool || step is Message
}

/// What a run is to do next.
#[derive(Debug, PartialEq, Eq)]
pub enum RunAction {
    /// Run another round.
    Round,
    /// Stop with this step.
    Finish(Step),
}

/// What a run does after `rounds` rounds, the last of which ended in `last`: it
/// ends with a terminal step, or for want of rounds.
pub open spec fn run_next(options: SessionOptions, rounds: u32, last: Option<Step>) -> RunAction {
    if last is Some && !continues(last->0) {
        RunAction::Finish(last->0)
    } else if rounds < options.max_rounds {
        RunAction::Round
    } else {
        RunAction::Finish(Step::NeedHuman)
    }
}

impl Session {
    /// Creates a new session with a fixed system prompt, a tool registry, and
    /// behavioural options. The history starts empty.
    pub fn new(system: &str, tools: ToolRegistry, options: SessionOptions) -> (session: Self)
        ensures
            session@ == restored(
                SnapshotView {
                    system: system@,
                    history: Seq::empty(),
                    usage: no_usage(),
                    options,
                },
                request::tools_view(tools.tools@),
            ),
    {
        Session {
            system: system.to_owned(),
            history: Vec::new(),
            tools,
            usage: UsageTotals::default(),
            options,
            workspace_root: "workspace".to_owned(),
            writer: WriterId::Human,
            workspace_open: false,
        }
    }

    /// Sets the root and writer identity under which tools are dispatched. The
    /// next round that dispatches tools opens the workspace anew.
    pub fn set_workspace(&mut self, workspace_root: &str, writer: WriterId) -> (session: &mut Self)
        ensures
            session@ == (SessionView {
                workspace_root: workspace_root@,
                writer,
                workspace_open: false,
                ..old(self)@
            }),
            *final(self) == *final(session),
    {
        self.workspace_root = workspace_root.to_owned();
        self.writer = writer;
        self.workspace_open = false;
        self
    }

    /// Appends a `user` message to the history.
    pub fn push_user(&mut self, text: &str)
        ensures
            final(self)@ == told(old(self)@, seq![request::said(Role::User, text@)]),
    {
        self.history.push(Message::user(text));
        assert(self@.history == old(self)@.history + seq![request::said(Role::User, text@)]);
    }

    /// The cumulative token usage so far.
    pub fn usage(&self) -> (usage: &UsageTotals)
        ensures
            *usage == self@.usage,
    {
        &self.usage
    }

    /// The conversation history accumulated so far.
    pub fn history(&self) -> (history: &[Message])
        ensures
            history@ == self.history@,
    {
        self.history.as_slice()
    }

    /// The fixed system prompt.
    pub fn system(&self) -> (system: &str)
        ensures
            system@ == self@.system,
    {
        self.system.as_str()
    }

    /// Captures the session's persistent state: system prompt, history, usage and
    /// options.
    pub fn snapshot(&self) -> (snapshot: SessionSnapshot)
        ensures
            snapshot@ == captured(self@),
    {
        let history = self.history.clone();
        assert(request::messages_view(history@) == request::messages_view(self.history@));
        SessionSnapshot {
            system: self.system.clone(),
            history,
            usage: self.usage,
            options: self.options.clone(),
        }
    }

    /// Restores a session from a [`SessionSnapshot`], re-supplying the tools that a
    /// snapshot cannot carry. The workspace context is reset to the defaults.
    pub fn restore(snapshot: SessionSnapshot, tools: ToolRegistry) -> (session: Self)
        ensures
            session@ == restored(snapshot@, request::tools_view(tools.tools@)),
    {
        Session {
            system: snapshot.system,
            history: snapshot.history,
            tools,
            usage: snapshot.usage,
            options: snapshot.options,
            workspace_root: "workspace".to_owned(),
            writer: WriterId::Human,
            workspace_open: false,
        }
    }

    /// Assembles the system prompt and history into a [`ChatRequest`], advertising
    /// every registered tool.
    pub fn build_request(&self) -> (r: Result<ChatRequest>)
        ensures
            r matches Ok(req) && asks(self@, req),
    {
        let mut builder = ChatRequest::builder(self.options.model.clone()).system(
            self.system.as_str(),
        );
        let ghost all = request_messages(self@);
        let mut i: usize = 0;
        assert(request::messages_view(builder.req.messages@) == all.take(1));
        while i < self.history.len()
            invariant
                i <= self.history@.len(),
                all == request_messages(self@),
                builder.req.model == self.options.model,
                builder.req.messages@.len() == i + 1,
                request::messages_view(builder.req.messages@) == all.take(i + 1),
                builder.req.thinking is None,
                builder.req.max_tokens is None,
                builder.req.temperature is None,
                builder.req.top_p is None,
                builder.req.stop is None,
                builder.req.response_format is None,
                builder.req.tools is None,
                builder.req.tool_choice is None,
                builder.req.logprobs is None,
                builder.req.top_logprobs is None,
                builder.req.user_id is None,
                builder.req.stream is None,
                builder.req.stream_options is None,
            decreases self.history@.len() - i,
        {
            let ghost before = builder;
            let message = self.history[i].clone();
            builder = builder.message(message);
            assert(all[i + 1] == self.history@[i as int]@);
            assert(all.take(i + 2) == all.take(i + 1).push(all[i + 1]));
            assert(request::messages_view(builder.req.messages@) == request::messages_view(
                before.req.messages@,
            ).push(message@));
            i += 1;
        }
        assert(all.take(i + 1) == all);
        if let Some(thinking) = self.options.thinking {
            builder = builder.thinking(thinking);
        }
        if let Some(max_tokens) = self.options.max_tokens {
            builder = builder.max_tokens(max_tokens);
        }
        if !self.tools.is_empty() {
            builder = builder.tools(self.tools.definitions()).tool_choice(ToolChoice::Auto);
        }
        builder.build()
    }

    /// Whether and when to send the request once more after an error: a transient
    /// one is retried up to [`SessionOptions::max_retries`] times, with a short
    /// linear backoff.
    fn chat_with_retries(&self, attempt: u32, e: Error) -> (action: Action)
        ensures
            action == if retries(self@.options, attempt, e) {
                Action::Retry {
                    attempt: (attempt + 1) as u32,
                    millis: (250 * (attempt + 1)) as u64,
                }
            } else {
                Action::Finish(Step::Failed(e))
            },
    {
        if e.is_transient() && attempt < self.options.max_retries {
            let next: u32 = attempt + 1;
            Action::Retry { attempt: next, millis: 250 * next as u64 }
        } else {
            Action::Finish(Step::Failed(e))
        }
    }

    /// Appends a `tool` reply message for `tool_call_id`.
    pub fn push_tool_reply(&mut self, tool_call_id: &str, payload: &str)
        ensures
            final(self)@ == told(old(self)@, seq![tool_reply(tool_call_id@, payload@)]),
    {
        self.history.push(Message::tool(tool_call_id, payload));
        assert(self@.history == old(self)@.history + seq![tool_reply(tool_call_id@, payload@)]);
    }

    /// Feeds the outcome of every requested tool call back into the history, and
    /// returns the names of the dispatched tools.
    ///
    /// If the workspace could not be opened, the open error is fed back to the
    /// model as the content of every pending reply, so the model can adapt.
    fn dispatch_tool_calls(&mut self, calls: &Vec<ToolCall>, outcome: &Dispatched) -> (step: Step)
        requires
            answers(*outcome, request::calls_view(calls@)),
        ensures
            final(self)@ == after_tools(old(self)@, request::calls_view(calls@), *outcome),
            step matches Step::Tool(names) && crate::text::views(names@) == called(
                request::calls_view(calls@),
                calls@.len(),
            ),
            refusals_readable(*outcome, calls@.len()),
    {
        proof {
            reveal_strlit("error");
        }
        let ghost views = request::calls_view(calls@);
        let mut names: Vec<String> = Vec::new();
        let mut i: usize = 0;
        if let Dispatched::Ran(_) = outcome {
            self.workspace_open = true;
        }
        let ghost start = self@;
        assert(start.history + replies(views, *outcome, 0) == start.history);
        while i < calls.len()
            invariant
                i <= calls@.len(),
                views == request::calls_view(calls@),
                answers(*outcome, views),
                self@ == told(start, replies(views, *outcome, i as nat)),
                crate::text::views(names@) == called(views, i as nat),
                refusals_readable(*outcome, i as nat),
                json::plain_key("error"@),
            decreases calls@.len() - i,
        {
            let ghost before = self@;
            let text = match outcome {
                Dispatched::OpenFailed(message) => json::write_field("error", message.as_str()),
                Dispatched::Ran(results) => match &results[i] {
                    Ok(value) => value.clone(),
                    Err(message) => json::write_field("error", message.as_str()),
                },
            };
            assert(text@ == payload(*outcome, i as int));
            self.push_tool_reply(calls[i].id.as_str(), text.as_str());
            names.push(calls[i].function.name.clone());
            proof {
                assert(replies(views, *outcome, (i + 1) as nat) == replies(
                    views,
                    *outcome,
                    i as nat,
                ).push(tool_reply(views[i as int].id, text@)));
                assert(self@.history == start.history + replies(
                    views,
                    *outcome,
                    (i + 1) as nat,
                ));
                assert(called(views, (i + 1) as nat) == called(views, i as nat).push(
                    views[i as int].name,
                ));
                assert(crate::text::views(names@) == called(views, (i + 1) as nat));
            }
            i += 1;
        }
        Step::Tool(names)
    }

    /// Takes a complete reply: folds its usage into the totals, back-fills the
    /// assistant turn (without the thinking chain) and branches on the finish
    /// reason.
    fn receive(&mut self, response: ChatResponse) -> (action: Action)
        requires
            countable(old(self)@.usage, response),
        ensures
            received(old(self)@, response, final(self)@, action),
    {
        if let Some(usage) = &response.usage {
            self.usage.add(usage);
        } else {
            self.usage.rounds = self.usage.rounds + 1;
        }
        if response.choices.len() == 0 {
            return Action::Finish(
                Step::Failed(
                    Error::Decode {
                        context: "chat".to_owned(),
                        source: "chat response contained no choices".to_owned(),
                    },
                ),
            );
        }
        let choice = &response.choices[0];
        let assistant = choice.message.to_history();
        let text = match &choice.message.content {
            Some(content) => content.clone(),
            None => String::new(),
        };
        let calls = match request::copy_calls(&choice.message.tool_calls) {
            Some(calls) => calls,
            None => Vec::new(),
        };
        assert(request::calls_view(calls@) == choice_calls(*choice));
        let ghost before = self@;
        self.history.push(assistant);
        assert(self@.history == before.history + seq![response::history_of(choice.message)]);
        match &choice.finish_reason {
            Some(FinishReason::ToolCalls) => {
                if calls.len() == 0 {
                    Action::Finish(Step::Message(String::new()))
                } else {
                    Action::Dispatch { calls, open: !self.workspace_open }
                }
            },
            Some(FinishReason::Stop) | None => Action::Finish(Step::Done(text)),
            Some(FinishReason::Length) => Action::Finish(Step::Message(text)),
            Some(FinishReason::ContentFilter) => Action::Finish(Step::NeedHuman),
            Some(FinishReason::InsufficientSystemResource) => Action::Finish(Step::NeedHuman),
            Some(FinishReason::Unknown(_)) => Action::Finish(Step::NeedHuman),
        }
    }

    /// Runs one round, a piece at a time: takes what has just happened and says
    /// what is to be done next.
    ///
    /// A round assembles the system prompt and history into a request, has it sent
    /// (retrying transient errors), branches on the [`FinishReason`], has the
    /// requested tools dispatched, and folds the round's usage into the totals.
    /// Fatal errors end it as [`Step::Failed`].
    pub fn run_round(&mut self, progress: Progress) -> (action: Action)
        requires
            takes(old(self)@, progress),
        ensures
            round(old(self)@, progress, final(self)@, action),
            progress matches Progress::Dispatched { calls, outcome } ==> refusals_readable(
                outcome,
                calls@.len(),
            ),
    {
        match progress {
            Progress::Begin => match self.build_request() {
                Ok(request) => Action::Chat(request),
                Err(e) => Action::Finish(Step::Failed(e)),
            },
            Progress::Replied { attempt, reply } => match reply {
                Ok(response) => self.receive(response),
                Err(e) => self.chat_with_retries(attempt, e),
            },
            Progress::Dispatched { calls, outcome } => Action::Finish(
                self.dispatch_tool_calls(&calls, &outcome),
            ),
        }
    }

    /// Says what a run does after `rounds` rounds, the last of which ended in
    /// `last`: it goes on until a terminal step, or until the
    /// [`SessionOptions::max_rounds`] ceiling is hit, which yields
    /// [`Step::NeedHuman`].
    pub fn run_until_done(&self, rounds: u32, last: Option<Step>) -> (action: RunAction)
        ensures
            action == run_next(self@.options, rounds, last),
    {
        match last {
            Some(Step::Done(text)) => return RunAction::Finish(Step::Done(text)),
            Some(Step::NeedHuman) => return RunAction::Finish(Step::NeedHuman),
            Some(Step::Failed(e)) => return RunAction::Finish(Step::Failed(e)),
            _ => {},
        }
        if rounds < self.options.max_rounds {
            RunAction::Round
        } else {
            RunAction::Finish(Step::NeedHuman)
        }
    }
}

} // verus!
