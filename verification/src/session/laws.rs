//! What holds of every session.

use crate::content;
use crate::json;
use crate::req::error::{ApiErrorKind, Error, TransportError};
use crate::req::types::request;
use crate::req::types::request::{
    ChatRequest, MessageView, Role, ToolCall, ToolChoice, ToolView,
};
use crate::req::types::response;
use crate::req::types::response::{ChatResponse, FinishReason, Usage};
use crate::session;
use crate::session::{
    Action, Dispatched, Progress, RunAction, Session, SessionOptions, SessionSnapshot, SessionView,
    Step, UsageTotals,
};
use crate::tool::ToolRegistry;
use vstd::prelude::*;

verus! {

/// A session that is closed and reopened loses nothing that a snapshot captures,
/// whatever tools it is given back.
pub proof fn law_a_snapshot_restores_the_session(s: SessionView, tools: Seq<ToolView>)
    ensures
        session::captured(session::restored(session::captured(s), tools)) == session::captured(s),
        session::request_messages(session::restored(session::captured(s), tools))
            == session::request_messages(s),
{
}

/// The system prompt, the options and the tools are fixed for a session's life,
/// and a round never rewrites the history: it only adds to it.
pub proof fn law_a_round_only_adds(
    before: SessionView,
    progress: Progress,
    after: SessionView,
    action: Action,
)
    requires
        session::round(before, progress, after, action),
    ensures
        after.system == before.system,
        after.options == before.options,
        after.tools == before.tools,
        after.workspace_root == before.workspace_root,
        after.writer == before.writer,
        before.history.len() <= after.history.len(),
        after.history.take(before.history.len() as int) == before.history,
{
}

/// Whether no message carries a thinking chain.
pub open spec fn without_reasoning(history: Seq<MessageView>) -> bool {
    forall|i: int| 0 <= i < history.len() ==> (#[trigger] history[i]).reasoning_content is None
}

/// No round puts a thinking chain into the history.
pub proof fn law_history_holds_no_reasoning(
    before: SessionView,
    progress: Progress,
    after: SessionView,
    action: Action,
)
    requires
        session::round(before, progress, after, action),
        without_reasoning(before.history),
    ensures
        without_reasoning(after.history),
{
}

/// Every tool call gets exactly one reply, under its own id and in the order of
/// the calls, whatever came of it.
pub proof fn law_every_call_is_answered(
    before: SessionView,
    calls: Vec<ToolCall>,
    outcome: Dispatched,
    after: SessionView,
    action: Action,
)
    requires
        session::round(before, Progress::Dispatched { calls, outcome }, after, action),
    ensures
        after.history.len() == before.history.len() + calls@.len(),
        forall|i: int|
            #![trigger calls@[i]]
            0 <= i < calls@.len() ==> after.history[before.history.len() + i].role == Role::Tool
                && after.history[before.history.len() + i].tool_call_id == Some(calls@[i].id@),
{
    let views = request::calls_view(calls@);
    assert forall|i: int| #![trigger calls@[i]] 0 <= i < calls@.len() implies after.history[
    before.history.len() + i].role == Role::Tool && after.history[before.history.len()
        + i].tool_call_id == Some(calls@[i].id@) by {
        assert(views[i] == calls@[i]@);
        assert(after.history[before.history.len() + i] == session::replies(
            views,
            outcome,
            views.len(),
        )[i]);
    }
}

/// A request is sent at most once more than the options allow retries, and a retry
/// leaves the session as it was.
pub proof fn law_retries_are_bounded(
    before: SessionView,
    attempt: u32,
    e: Error,
    after: SessionView,
    action: Action,
)
    requires
        session::round(before, Progress::Replied { attempt, reply: Err(e) }, after, action),
    ensures
        after == before,
        action matches Action::Retry { attempt: next, millis } ==> next == attempt + 1 && next
            <= before.options.max_retries && millis == 250 * next,
        attempt >= before.options.max_retries ==> action == Action::Finish(Step::Failed(e)),
{
}

/// A run never starts more rounds than its ceiling, and never goes past a terminal
/// step.
pub proof fn law_runs_are_bounded(options: SessionOptions, rounds: u32, last: Option<Step>)
    ensures
        session::run_next(options, rounds, last) is Round ==> rounds < options.max_rounds && (last
            is None || session::continues(last->0)),
        rounds >= options.max_rounds ==> session::run_next(options, rounds, last) is Finish,
{
}

/// Every complete reply is counted as one round, with or without its usage.
pub proof fn law_every_reply_is_counted(
    before: SessionView,
    attempt: u32,
    response: ChatResponse,
    after: SessionView,
    action: Action,
)
    requires
        session::takes(before, Progress::Replied { attempt, reply: Ok(response) }),
        session::round(before, Progress::Replied { attempt, reply: Ok(response) }, after, action),
    ensures
        after.usage.rounds == before.usage.rounds + 1,
        after.usage.total_tokens == before.usage.total_tokens + match response.usage {
            Some(usage) => usage.total_tokens as int,
            None => 0,
        },
{
}

/// The order in which rounds are folded into the totals does not matter.
pub proof fn law_usage_adds_up_in_any_order(totals: UsageTotals, a: Usage, b: Usage)
    requires
        totals.has_room(a),
        totals.plus(a).has_room(b),
    ensures
        totals.has_room(b),
        totals.plus(b).has_room(a),
        totals.plus(a).plus(b) == totals.plus(b).plus(a),
{
}

/// The workspace is opened once: where it is open, no dispatch asks to open it
/// again, and once tools have run it stays open.
pub proof fn law_the_workspace_is_opened_once(
    before: SessionView,
    progress: Progress,
    after: SessionView,
    action: Action,
)
    requires
        session::round(before, progress, after, action),
    ensures
        before.workspace_open ==> after.workspace_open,
        action matches Action::Dispatch { calls: _, open } ==> open == !before.workspace_open,
        (progress matches Progress::Dispatched { calls: _, outcome } && outcome is Ran)
            ==> after.workspace_open,
{
}

/// The system prompt leads every request, and the history follows it whole.
pub proof fn law_the_system_prompt_leads(s: SessionView, req: ChatRequest)
    requires
        session::asks(s, req),
    ensures
        req.messages@.len() == s.history.len() + 1,
        req.messages@[0]@ == request::said(Role::System, s.system),
        forall|i: int|
            0 <= i < s.history.len() ==> (#[trigger] req.messages@[i + 1])@ == s.history[i],
{
    let views = request::messages_view(req.messages@);
    assert(views.len() == req.messages@.len());
    assert(views[0] == req.messages@[0]@);
    assert forall|i: int| 0 <= i < s.history.len() implies (#[trigger] req.messages@[i + 1])@
        == s.history[i] by {
        assert(views[i + 1] == session::request_messages(s)[i + 1]);
    }
}

/// A round's usage is added to the totals, figure by figure, and counts one round.
pub proof fn law_usage_is_added_figure_by_figure(totals: UsageTotals, usage: Usage)
    requires
        totals.has_room(usage),
    ensures
        ({
            let sum = totals.plus(usage);
            &&& sum.prompt_tokens == totals.prompt_tokens + usage.prompt_tokens
            &&& sum.completion_tokens == totals.completion_tokens + usage.completion_tokens
            &&& sum.total_tokens == totals.total_tokens + usage.total_tokens
            &&& sum.prompt_cache_hit_tokens == totals.prompt_cache_hit_tokens
                + usage.prompt_cache_hit_tokens
            &&& sum.prompt_cache_miss_tokens == totals.prompt_cache_miss_tokens
                + usage.prompt_cache_miss_tokens
            &&& usage.completion_tokens_details is None ==> sum.reasoning_tokens
                == totals.reasoning_tokens
            &&& usage.completion_tokens_details matches Some(d) ==> sum.reasoning_tokens
                == totals.reasoning_tokens + match d.reasoning_tokens {
                Some(n) => n as int,
                None => 0int,
            }
            &&& sum.rounds == totals.rounds + 1
        }),
{
}

/// A snapshot holds the prompt, the history, the totals and the options; a session
/// restored from it has these, the tools it is given, and nothing open.
pub proof fn law_a_snapshot_holds_what_was_said(
    session: &Session,
    snapshot: SessionSnapshot,
    tools: ToolRegistry,
    again: Session,
)
    requires
        call_ensures(Session::snapshot, (session,), snapshot),
        call_ensures(Session::restore, (snapshot, tools), again),
    ensures
        snapshot.system@ == session.system@,
        snapshot.usage == session.usage,
        snapshot.options == session.options,
        again.system@ == session.system@,
        again.usage == session.usage,
        again.options == session.options,
        again.history@.len() == session.history@.len(),
        forall|i: int|
            0 <= i < session.history@.len() ==> (#[trigger] again.history@[i])@
                == session.history@[i]@,
        request::tools_view(again.tools.tools@) == request::tools_view(tools.tools@),
        again.workspace_root@ == "workspace"@,
        again.writer is Human,
        !again.workspace_open,
{
    let a = session@;
    let b = snapshot@;
    let c = again@;
    assert(a.history.len() == session.history@.len());
    assert(c.history.len() == again.history@.len());
    assert forall|i: int| 0 <= i < session.history@.len() implies (#[trigger] again.history@[i])@
        == session.history@[i]@ by {
        assert(a.history[i] == session.history@[i]@);
        assert(c.history[i] == again.history@[i]@);
    }
}

/// A new session has the prompt, the tools and the options it is given, and nothing
/// else yet.
pub proof fn law_a_new_session_is_empty(
    system: &str,
    tools: ToolRegistry,
    options: SessionOptions,
    session: Session,
)
    requires
        call_ensures(Session::new, (system, tools, options), session),
    ensures
        session.system@ == system@,
        session.history@.len() == 0,
        session.options == options,
        request::tools_view(session.tools.tools@) == request::tools_view(tools.tools@),
        session.usage.prompt_tokens == 0 && session.usage.completion_tokens == 0,
        session.usage.total_tokens == 0 && session.usage.reasoning_tokens == 0,
        session.usage.prompt_cache_hit_tokens == 0 && session.usage.prompt_cache_miss_tokens == 0,
        session.usage.rounds == 0,
        !session.workspace_open,
        session.writer is Human,
        session.workspace_root@ == "workspace"@,
{
    let view = session@;
    assert(view.history.len() == session.history@.len());
}

/// What is said to or by the model is one message of its role and its text, with
/// nothing else in it; a tool reply carries the id of its call besides.
pub proof fn law_what_is_said_is_one_plain_message(s: SessionView, role: Role, text: Seq<char>)
    ensures
        ({
            let said = request::said(role, text);
            let after = session::told(s, seq![said]);
            &&& said.role == role
            &&& said.content == Some(text)
            &&& said.name is None && said.reasoning_content is None && said.tool_calls is None
            &&& said.tool_call_id is None && said.prefix is None
            &&& after.history == s.history.push(said)
            &&& after.system == s.system && after.options == s.options && after.usage == s.usage
            &&& after.tools == s.tools && after.writer == s.writer
            &&& after.workspace_root == s.workspace_root
            &&& after.workspace_open == s.workspace_open
        }),
        forall|id: Seq<char>| #[trigger]
            session::tool_reply(id, text) == (MessageView {
                role: Role::Tool,
                content: Some(text),
                name: None,
                reasoning_content: None,
                tool_calls: None,
                tool_call_id: Some(id),
                prefix: None,
            }),
{
    assert(s.history + seq![request::said(role, text)] == s.history.push(
        request::said(role, text),
    ));
}

/// A request asks the session's model with the session's settings, offers all of its
/// tools and leaves the choice to the model, and sets nothing else.
pub proof fn law_a_request_asks_with_the_sessions_settings(s: SessionView, req: ChatRequest)
    requires
        session::asks(s, req),
    ensures
        req.model == s.options.model,
        req.thinking == s.options.thinking,
        req.max_tokens == s.options.max_tokens,
        s.tools.len() == 0 ==> req.tools is None && req.tool_choice is None,
        s.tools.len() > 0 ==> (req.tools matches Some(tools) && tools@.len() == s.tools.len() && (
        forall|i: int| 0 <= i < s.tools.len() ==> (#[trigger] tools@[i])@ == s.tools[i]))
            && req.tool_choice == Some(ToolChoice::Auto),
        req.temperature is None && req.top_p is None && req.stop is None,
        req.response_format is None && req.logprobs is None && req.top_logprobs is None,
        req.user_id is None && req.stream is None && req.stream_options is None,
{
    if let Some(tools) = req.tools {
        let view = request::tools_view(tools@);
        assert(view.len() == tools@.len());
        assert forall|i: int| 0 <= i < s.tools.len() implies (#[trigger] tools@[i])@
            == s.tools[i] by {
            assert(view[i] == tools@[i]@);
        }
    }
}

/// The first step of a round is the request, and changes nothing.
pub proof fn law_a_round_begins_with_its_request(
    before: SessionView,
    after: SessionView,
    action: Action,
)
    requires
        session::round(before, Progress::Begin, after, action),
    ensures
        after == before,
        action matches Action::Chat(req) && session::asks(before, req),
{
}

/// The model's answer is kept as an assistant message with its text and its tool
/// calls, and what follows is what its finish reason says: tool calls are
/// dispatched, a stop is the end, a cut-off answer is a message, and anything else
/// needs a human. An answer without a choice is an error.
pub proof fn law_the_finish_reason_decides(
    before: SessionView,
    attempt: u32,
    response: ChatResponse,
    after: SessionView,
    action: Action,
)
    requires
        session::round(before, Progress::Replied { attempt, reply: Ok(response) }, after, action),
    ensures
        response.choices@.len() == 0 ==> after.history == before.history && (
        action matches Action::Finish(Step::Failed(Error::Decode { context, source })) && context@
            == "chat"@ && source@ == "chat response contained no choices"@),
        response.choices@.len() > 0 ==> {
            let choice = response.choices@[0];
            let last = after.history.last();
            let text = match choice.message.content {
                Some(content) => content@,
                None => Seq::<char>::empty(),
            };
            &&& after.history.len() == before.history.len() + 1
            &&& last.role == Role::Assistant
            &&& last.content == content::option_view(choice.message.content)
            &&& last.reasoning_content is None
            &&& last.tool_calls == request::option_calls(choice.message.tool_calls)
            &&& last.name is None && last.tool_call_id is None && last.prefix is None
            &&& match choice.finish_reason {
                None => action matches Action::Finish(Step::Done(t)) && t@ == text,
                Some(FinishReason::Stop) => action matches Action::Finish(Step::Done(t)) && t@
                    == text,
                Some(FinishReason::Length) => action matches Action::Finish(Step::Message(t)) && t@
                    == text,
                Some(FinishReason::ToolCalls) => match choice.message.tool_calls {
                    Some(made) => if made@.len() > 0 {
                        action matches Action::Dispatch { calls, open } && open
                            == !before.workspace_open && request::calls_view(calls@)
                            == request::calls_view(made@)
                    } else {
                        action matches Action::Finish(Step::Message(t)) && t@.len() == 0
                    },
                    None => action matches Action::Finish(Step::Message(t)) && t@.len() == 0,
                },
                Some(FinishReason::ContentFilter) => action == Action::Finish(Step::NeedHuman),
                Some(FinishReason::InsufficientSystemResource) => action == Action::Finish(
                    Step::NeedHuman,
                ),
                Some(FinishReason::Unknown(_)) => action == Action::Finish(Step::NeedHuman),
            }
        },
{
    if response.choices@.len() > 0 {
        let choice = response.choices@[0];
        let kept = response::history_of(choice.message);
        assert(after.history == before.history + seq![kept]);
        assert(after.history.last() == kept);
    } else {
        assert(after.history == before.history);
    }
}

/// Each tool call is answered with what came of it: the tool's own words where it
/// ran, and a JSON object with the reason under `error` where it did not; the step
/// names the called tools in order.
pub proof fn law_each_call_is_answered_with_its_outcome(
    before: SessionView,
    calls: Vec<ToolCall>,
    outcome: Dispatched,
    after: SessionView,
    action: Action,
)
    requires
        session::round(before, Progress::Dispatched { calls, outcome }, after, action),
    ensures
        forall|i: int|
            #![trigger calls@[i]]
            0 <= i < calls@.len() ==> after.history[before.history.len() + i].content == Some(
                match outcome {
                    Dispatched::OpenFailed(why) => json::json_field("error"@, why@),
                    Dispatched::Ran(results) => match results@[i] {
                        Ok(value) => value@,
                        Err(why) => json::json_field("error"@, why@),
                    },
                },
            ),
        action matches Action::Finish(Step::Tool(names)) && names@.len() == calls@.len() && (
        forall|i: int| 0 <= i < calls@.len() ==> (#[trigger] names@[i])@ == calls@[i].function.name@),
{
    let view = request::calls_view(calls@);
    let replies = session::replies(view, outcome, view.len());
    assert(after.history == before.history + replies);
    assert forall|i: int|
        #![trigger calls@[i]]
        0 <= i < calls@.len() implies after.history[before.history.len() + i].content == Some(
        match outcome {
            Dispatched::OpenFailed(why) => json::json_field("error"@, why@),
            Dispatched::Ran(results) => match results@[i] {
                Ok(value) => value@,
                Err(why) => json::json_field("error"@, why@),
            },
        },
    ) by {
        assert(after.history[before.history.len() + i] == replies[i]);
    }
    let names = action->Finish_0->Tool_0;
    let told = crate::text::views(names@);
    assert(told.len() == names@.len());
    assert forall|i: int| 0 <= i < calls@.len() implies (#[trigger] names@[i])@
        == calls@[i].function.name@ by {
        assert(told[i] == names@[i]@);
        assert(view[i] == calls@[i]@);
    }
}

/// A failed request is sent again exactly where the fault may pass by itself and
/// retries are left: the server's own faults, and a connection that timed out, could
/// not be made or was closed.
pub proof fn law_only_passing_faults_are_retried(
    before: SessionView,
    attempt: u32,
    e: Error,
    after: SessionView,
    action: Action,
)
    requires
        session::round(before, Progress::Replied { attempt, reply: Err(e) }, after, action),
    ensures
        action is Retry <==> attempt < before.options.max_retries && match e {
            Error::Api(api) => api.kind == ApiErrorKind::ServerError || api.kind
                == ApiErrorKind::Overloaded,
            Error::Transport(TransportError::Timeout) => true,
            Error::Transport(TransportError::Connect) => true,
            Error::Transport(TransportError::Closed) => true,
            _ => false,
        },
        !(action is Retry) ==> action == Action::Finish(Step::Failed(e)),
{
}

/// A run goes on after a tool step or a message while rounds are left, and else
/// stops: with the terminal step it met, or for a human where the rounds are used
/// up.
pub proof fn law_a_run_goes_on_until_it_is_done(
    session: &Session,
    rounds: u32,
    last: Option<Step>,
    action: RunAction,
)
    requires
        call_ensures(Session::run_until_done, (session, rounds, last), action),
    ensures
        ({
            let goes_on = match last {
                None => true,
                Some(Step::Tool(_)) => true,
                Some(Step::Message(_)) => true,
                Some(_) => false,
            };
            &&& goes_on && rounds < session.options.max_rounds ==> action is Round
            &&& goes_on && rounds >= session.options.max_rounds ==> action == RunAction::Finish(
                Step::NeedHuman,
            )
            &&& !goes_on ==> action == RunAction::Finish(last->0)
        }),
{
}

/// A reply adds its figures to the totals, one that brings none adds a round alone,
/// and opens no workspace; running tools costs nothing, and opens the workspace where
/// they ran.
pub proof fn law_a_round_counts_replies_and_opens_for_tools(
    before: SessionView,
    progress: Progress,
    after: SessionView,
    action: Action,
)
    requires
        session::takes(before, progress),
        session::round(before, progress, after, action),
    ensures
        progress matches Progress::Replied { attempt: _, reply: Ok(response) } ==> {
            &&& after.workspace_open == before.workspace_open
            &&& response.usage matches Some(usage) ==> after.usage == before.usage.plus(usage)
            &&& response.usage is None ==> {
                &&& after.usage.rounds == before.usage.rounds + 1
                &&& after.usage.prompt_tokens == before.usage.prompt_tokens
                &&& after.usage.completion_tokens == before.usage.completion_tokens
                &&& after.usage.total_tokens == before.usage.total_tokens
                &&& after.usage.prompt_cache_hit_tokens == before.usage.prompt_cache_hit_tokens
                &&& after.usage.prompt_cache_miss_tokens == before.usage.prompt_cache_miss_tokens
                &&& after.usage.reasoning_tokens == before.usage.reasoning_tokens
            }
        },
        progress matches Progress::Dispatched { calls: _, outcome } ==> {
            &&& after.usage == before.usage
            &&& outcome is OpenFailed ==> after.workspace_open == before.workspace_open
            &&& outcome is Ran ==> after.workspace_open
        },
{
}

} // verus!
