//! What holds of every slave and every master.

use crate::content;
use crate::engine;
use crate::engine::master;
use crate::engine::master::{Goal, GoalOutcome, Master, SetupAction, SetupEvent};
use crate::engine::orchestration;
use crate::engine::orchestration::{
    ArticleReply, CreateArticle, CreateArticleArgs, DispatchWriter, DispatchWriterArgs, ListReports,
    OrchestratorState, OrganizeAction, OrganizeArgs, OrganizeArticles, ReportsReply,
};
use crate::engine::{
    ReportView, SlaveReport, SlaveSkillView, SlaveStatus, SlaveTask, TaskView, DEFAULT_SLAVE_ROLE,
    SLAVE_OPERATIONAL_RULES,
};
use crate::json;
use crate::observe::Event;
use crate::req::types::request;
use crate::req::types::request::{Message, MessageView, Tool, ToolView};
use crate::req::{Error, Model, Result, Role};
use crate::session::{Session, SessionOptions, SessionView, Step};
use crate::skill;
use crate::text;
use crate::tool::{Refusal, ToolError, ToolRegistry, WriterId};
use vstd::prelude::*;

verus! {

/// How a status is written and how it is read are inverse to each other.
pub proof fn law_statuses_round_trip(status: SlaveStatus, s: Seq<char>)
    ensures
        engine::status_of(engine::status_name(status)) == Some(status),
        engine::status_of(s) == Some(status) ==> s == engine::status_name(status),
{
    reveal_strlit("done");
    reveal_strlit("needs_human");
    reveal_strlit("failed");
    assert("done"@.len() == 4 && "needs_human"@.len() == 11 && "failed"@.len() == 6);
}

/// The most recent report wins: a reply behind which there is no other report is
/// the one that counts, and without any report there is none.
pub proof fn law_the_last_report_wins(history: Seq<MessageView>, i: int)
    requires
        -1 <= i < history.len(),
        i >= 0 ==> engine::reported(history[i]) is Some,
        forall|j: int| i < j < history.len() ==> engine::reported(#[trigger] history[j]) is None,
    ensures
        engine::last_report(history) == if i >= 0 {
            engine::reported(history[i])
        } else {
            None
        },
    decreases history.len(),
{
    if history.len() > 0 && i < history.len() - 1 {
        let init = history.drop_last();
        assert(engine::reported(history[history.len() - 1]) is None);
        assert forall|j: int| i < j < init.len() implies engine::reported(
            #[trigger] init[j],
        ) is None by {
            assert(init[j] == history[j]);
        }
        law_the_last_report_wins(init, i);
    }
}

/// Whether a prompt closes with the operational rules.
pub open spec fn closes_with_rules(prompt: Seq<char>) -> bool {
    let rules = SLAVE_OPERATIONAL_RULES@;
    prompt.len() >= rules.len() && prompt.skip(prompt.len() - rules.len()) == rules
}

/// Whatever voice a skill or a stack of skills gives a writer, the operational
/// rules close the prompt: no skill can drop them.
pub proof fn law_the_rules_close_every_prompt(voice: Seq<char>, bodies: Seq<Seq<char>>)
    ensures
        closes_with_rules(engine::slave_prompt(voice)),
        closes_with_rules(engine::stack_prompt(bodies)),
{
    lemma_rules_close(voice);
    lemma_rules_close(DEFAULT_SLAVE_ROLE@);
    lemma_rules_close(skill::stacked(bodies));
}

proof fn lemma_rules_close(voice: Seq<char>)
    ensures
        closes_with_rules(engine::slave_prompt(voice)),
{
    let rules = SLAVE_OPERATIONAL_RULES@;
    let prompt = engine::slave_prompt(voice);
    assert(prompt.skip(prompt.len() - rules.len()) == rules);
}

/// A stack of one skill is that skill: the prompt is the same as for its body
/// alone. A blank body has no voice, and gives the default prompt, as an empty
/// stack does.
pub proof fn law_a_stack_of_one_is_that_skill(body: Seq<char>)
    ensures
        text::trimmed(body).len() > 0 ==> engine::stack_prompt(seq![body]) == engine::slave_prompt(
            body,
        ),
        text::trimmed(body).len() == 0 ==> engine::stack_prompt(seq![body])
            == engine::slave_prompt(DEFAULT_SLAVE_ROLE@),
        engine::stack_prompt(Seq::empty()) == engine::slave_prompt(DEFAULT_SLAVE_ROLE@),
{
    assert(seq![body].drop_last() == Seq::<Seq<char>>::empty());
    reveal_with_fuel(skill::voices, 2);
    text::lemma_trimmed(body);
    if text::trimmed(body).len() > 0 {
        assert(skill::voices(seq![body]) == seq![text::trimmed(body)]);
    } else {
        assert(skill::voices(seq![body]) == Seq::<Seq<char>>::empty());
    }
}

/// A stack of which any skill cannot be read is not used in part: the fallback
/// prompt stands.
pub proof fn law_no_partial_stack_is_used(
    ids: Seq<Seq<char>>,
    contents: Seq<Option<Seq<char>>>,
    fallback: Seq<char>,
    i: int,
)
    requires
        ids.len() == contents.len(),
        0 <= i < ids.len(),
        skill::loaded(ids[i], contents[i]) is None,
    ensures
        engine::skill_prompt(ids, contents, fallback) == fallback,
{
    lemma_loadable_stops(ids, contents, i);
}

proof fn lemma_loadable_stops(
    ids: Seq<Seq<char>>,
    contents: Seq<Option<Seq<char>>>,
    i: int,
)
    requires
        ids.len() == contents.len(),
        0 <= i < ids.len(),
        skill::loaded(ids[i], contents[i]) is None,
    ensures
        skill::loadable(ids, contents) <= i,
    decreases ids.len(),
{
    if i > 0 && skill::loaded(ids[0], contents[0]) is Some {
        lemma_loadable_stops(ids.drop_first(), contents.drop_first(), i - 1);
    }
}

/// An agent requests exactly the model that it signs its work with, so the request
/// and the provenance cannot drift apart.
pub proof fn law_writers_run_on_the_model_they_sign_with(
    s: SessionView,
    workspace_root: Seq<char>,
    task: TaskView,
    tools: Seq<ToolView>,
)
    requires
        engine::slave_session(s, workspace_root, task, tools),
    ensures
        s.writer == task.writer,
        task.writer matches WriterId::Agent { model, label: _ } ==> s.options.model@ == model@,
{
}

/// A theme and an article that exist already do not stop a slave from being
/// dispatched.
pub proof fn law_existing_structure_is_fine(
    open: bool,
    task: TaskView,
    refusal: Refusal,
    after: bool,
    theme_action: SetupAction,
    article_action: SetupAction,
)
    requires
        refusal.error is Lock,
        master::setup(open, task, SetupEvent::Theme(Err(refusal)), after, theme_action),
        master::setup(open, task, SetupEvent::Article(Err(refusal)), after, article_action),
    ensures
        master::creates_article(theme_action, task),
        article_action is Spawn || article_action is OpenCoordinator,
{
}

/// A slave that fails, or whose thread panics, is no error of the master: its
/// failure is carried in the report.
pub proof fn law_a_failed_slave_is_no_error(
    open: bool,
    task: TaskView,
    report: Option<SlaveReport>,
    after: bool,
    action: SetupAction,
)
    requires
        master::setup(open, task, SetupEvent::Joined(report), after, action),
    ensures
        action matches SetupAction::Finish(r) && r is Ok,
        action matches SetupAction::Finish(Ok(r)) && (report is None ==> r@.status
            == SlaveStatus::Failed),
{
}

// ---------------------------------------------------------------------------
// Reports
// ---------------------------------------------------------------------------

/// Whether an optional text is what a field holds.
pub open spec fn is_field(text: Option<String>, field: Option<Seq<char>>) -> bool {
    match (text, field) {
        (Some(a), Some(b)) => a@ == b,
        (None, None) => true,
        _ => false,
    }
}

/// Whether `field` is how `status` is written.
pub open spec fn writes_status(status: SlaveStatus, field: Option<Seq<char>>) -> bool {
    match status {
        SlaveStatus::Done => field == Some("done"@),
        SlaveStatus::NeedsHuman => field == Some("needs_human"@),
        SlaveStatus::Failed => field == Some("failed"@),
    }
}

/// Whether `report` is what the JSON text `body` says, field by field.
pub open spec fn says_report(body: Seq<char>, report: ReportView) -> bool {
    &&& writes_status(report.status, json::json_text_at(body, "/status"@))
    &&& Some(report.summary) == json::json_text_at(body, "/summary"@)
    &&& report.result == json::json_text_at(body, "/result"@)
    &&& report.needs == json::json_text_at(body, "/needs"@)
}

proof fn lemma_report_fields()
    ensures
        "/"@ + "status"@ == "/status"@,
        "/"@ + "summary"@ == "/summary"@,
        "/"@ + "result"@ == "/result"@,
        "/"@ + "needs"@ == "/needs"@,
{
    reveal_strlit("/");
    reveal_strlit("status");
    reveal_strlit("summary");
    reveal_strlit("result");
    reveal_strlit("needs");
    reveal_strlit("/status");
    reveal_strlit("/summary");
    reveal_strlit("/result");
    reveal_strlit("/needs");
    assert("/"@ + "status"@ =~= "/status"@);
    assert("/"@ + "summary"@ =~= "/summary"@);
    assert("/"@ + "result"@ =~= "/result"@);
    assert("/"@ + "needs"@ =~= "/needs"@);
}

/// A tool reply carries a report exactly where its status is one of the three and
/// it has a summary; the report then is what the reply says, field by field.
pub proof fn law_a_report_is_what_the_reply_says(message: MessageView)
    ensures
        engine::reported(message) is Some <==> {
            &&& message.role == Role::Tool
            &&& message.content matches Some(body)
            &&& ({
                let status = json::json_text_at(body, "/status"@);
                status == Some("done"@) || status == Some("needs_human"@) || status == Some(
                    "failed"@,
                )
            })
            &&& json::json_text_at(body, "/summary"@) is Some
        },
        engine::reported(message) is Some ==> says_report(
            message.content->0,
            engine::reported(message)->0,
        ),
{
    lemma_report_fields();
    reveal_strlit("done");
    reveal_strlit("needs_human");
    reveal_strlit("failed");
    assert("done"@.len() == 4 && "needs_human"@.len() == 11 && "failed"@.len() == 6);
}

/// The report of a history is what its last tool reply with a report says; there is
/// none exactly where no message carries one.
pub proof fn law_a_history_reports_what_its_last_reply_says(
    history: &[Message],
    report: Option<SlaveReport>,
    i: int,
)
    requires
        call_ensures(engine::report_from_history, (history,), report),
        0 <= i < history@.len(),
        engine::reported(history@[i]@) is Some,
        forall|j: int|
            i < j < history@.len() ==> engine::reported((#[trigger] history@[j])@) is None,
    ensures
        report matches Some(r) && history@[i].content matches Some(body) && {
            &&& writes_status(r.status, json::json_text_at(body@, "/status"@))
            &&& json::json_text_at(body@, "/summary"@) == Some(r.summary@)
            &&& is_field(r.result, json::json_text_at(body@, "/result"@))
            &&& is_field(r.needs, json::json_text_at(body@, "/needs"@))
        },
{
    let all = request::messages_view(history@);
    assert(all[i] == history@[i]@);
    assert forall|j: int| i < j < all.len() implies engine::reported(#[trigger] all[j]) is None by {
        assert(all[j] == history@[j]@);
    }
    law_the_last_report_wins(all, i);
    law_a_report_is_what_the_reply_says(all[i]);
}

/// A report is made of the fields that it is given: there is one exactly where the
/// status is one of the three and there is a summary, and it hands all of them on.
pub proof fn law_a_report_hands_its_fields_on(
    status: Option<String>,
    summary: Option<String>,
    result: Option<String>,
    needs: Option<String>,
    report: Option<SlaveReport>,
)
    requires
        call_ensures(engine::read_report, (status, summary, result, needs), report),
    ensures
        report is Some <==> summary is Some && (status matches Some(s) && (s@ == "done"@ || s@
            == "needs_human"@ || s@ == "failed"@)),
        report matches Some(r) ==> {
            &&& writes_status(r.status, content::option_view(status))
            &&& is_field(summary, Some(r.summary@))
            &&& is_field(r.result, content::option_view(result))
            &&& is_field(r.needs, content::option_view(needs))
        },
{
    reveal_strlit("done");
    reveal_strlit("needs_human");
    reveal_strlit("failed");
    assert("done"@.len() == 4 && "needs_human"@.len() == 11 && "failed"@.len() == 6);
}

/// A slave's own report stands. Without one the terminal step decides: a finished
/// slave is done, with its last words as the result if there are any; one that
/// stopped for a human needs one; one that failed says why.
pub proof fn law_a_slave_is_settled_by_its_report_or_its_last_step(
    own: Option<SlaveReport>,
    terminal: Step,
    report: SlaveReport,
)
    requires
        call_ensures(engine::settle_report, (own, terminal), report),
    ensures
        own matches Some(o) ==> report@ == o@,
        own is None ==> match terminal {
            Step::Done(text) => {
                &&& report.status == SlaveStatus::Done
                &&& is_field(
                    report.result,
                    if text@.len() == 0 {
                        None
                    } else {
                        Some(text@)
                    },
                )
                &&& report.needs is None
            },
            Step::NeedHuman => {
                &&& report.status == SlaveStatus::NeedsHuman
                &&& report.result is None
                &&& report.needs matches Some(n) && n@ == "human intervention"@
            },
            Step::Failed(e) => {
                &&& report.status == SlaveStatus::Failed
                &&& report.summary@ == "Slave failed: "@ + e.says()
                &&& report.result is None
                &&& report.needs is None
            },
            _ => report.status == SlaveStatus::Failed,
        },
{
}

/// A slave's conclusion is drawn from its own history.
pub proof fn law_a_conclusion_is_drawn_from_the_history(
    session: &Session,
    terminal: Step,
    report: SlaveReport,
    own: Option<SlaveReport>,
    settled: SlaveReport,
)
    requires
        call_ensures(engine::conclude_slave, (session, terminal), report),
        engine::option_report(own) == engine::last_report(session@.history),
        call_ensures(engine::settle_report, (own, terminal), settled),
    ensures
        report@ == settled@,
{
}

/// A slave's report is handed on as it is; one whose thread panicked has failed.
pub proof fn law_a_joined_report_is_handed_on(report: Option<SlaveReport>, r: SlaveReport)
    requires
        call_ensures(engine::join_slave, (report,), r),
    ensures
        report matches Some(own) ==> r@ == own@,
        report is None ==> r.status == SlaveStatus::Failed && r.summary@
            == "Slave thread panicked."@ && r.result is None && r.needs is None,
{
}

// ---------------------------------------------------------------------------
// Slaves
// ---------------------------------------------------------------------------

/// A slave's prompt is the voice, without white space around it, and then the
/// rules.
pub proof fn law_a_prompt_is_the_voice_and_the_rules(skill_body: &str, prompt: String)
    requires
        call_ensures(engine::compose_slave_prompt, (skill_body,), prompt),
    ensures
        prompt@ == text::trimmed(skill_body@) + "\n\n"@ + SLAVE_OPERATIONAL_RULES@,
{
}

/// A stack with any voice in it is composed, and then prompts like one skill; one
/// without prompts like the default role.
pub proof fn law_a_stack_prompts_like_what_it_composes_to(
    bodies: &[&str],
    composed: String,
    prompt: String,
    default_prompt: String,
)
    requires
        call_ensures(skill::compose_stack, (bodies,), composed),
        call_ensures(engine::compose_slave_prompt_multi, (bodies,), prompt),
        call_ensures(engine::default_slave_prompt, (), default_prompt),
    ensures
        composed@.len() == 0 ==> prompt@ == default_prompt@,
        composed@.len() > 0 ==> prompt@ == text::trimmed(composed@) + "\n\n"@
            + SLAVE_OPERATIONAL_RULES@,
        default_prompt@ == text::trimmed(DEFAULT_SLAVE_ROLE@) + "\n\n"@
            + SLAVE_OPERATIONAL_RULES@,
{
}

/// A slave's session is made for its task: it has the task's prompt or the default
/// one, nothing said yet, the tools it is given, its workspace and writer, and the
/// default limits.
pub proof fn law_a_slave_session_is_made_for_its_task(
    workspace_root: &str,
    task: &SlaveTask,
    tools: ToolRegistry,
    s: Session,
)
    requires
        call_ensures(engine::build_slave_session, (workspace_root, task, tools), s),
    ensures
        task.system_prompt matches Some(prompt) ==> s.system@ == prompt@,
        task.system_prompt is None ==> s.system@ == text::trimmed(DEFAULT_SLAVE_ROLE@) + "\n\n"@
            + SLAVE_OPERATIONAL_RULES@,
        s.history@.len() == 0,
        s.workspace_root@ == workspace_root@,
        s.writer == task.writer,
        !s.workspace_open,
        s.usage.rounds == 0 && s.usage.total_tokens == 0,
        s.options.max_rounds == 20,
        s.options.max_retries == 3,
        s.options.thinking is None && s.options.max_tokens is None,
        request::tools_view(s.tools.tools@) == request::tools_view(tools.tools@),
        task.writer matches WriterId::Agent { model, label: _ } ==> s.options.model@ == model@,
        task.writer is Human ==> s.options.model is V4Flash,
{
    let view = s@;
    assert(view.history.len() == s.history@.len());
}

/// A slave is told the theme, the file and the task, in these words.
pub proof fn law_a_briefing_names_theme_file_and_task(task: TaskView)
    ensures
        engine::briefing(task) == "Theme: "@ + task.theme + "\nArticle file: "@ + task.file_name
            + "\n\nTask:\n"@ + task.task,
{
}

/// The events of a slave name its article, its writer, and what it reported.
pub proof fn law_slave_events_tell_of_the_slave(
    task: &SlaveTask,
    spawned: Event,
    report: &SlaveReport,
    told: Event,
)
    requires
        call_ensures(engine::spawned_event, (task,), spawned),
        call_ensures(engine::reported_event, (report,), told),
    ensures
        spawned matches Event::SlaveSpawned { theme, file, writer } && theme@ == task.theme@
            && file@ == task.file_name@ && writer@ == task.writer@.tag(),
        told matches Event::SlaveReported { status, summary } && summary@ == report.summary@
            && writes_status(report.status, Some(status@)),
{
}

/// A skill stack that can be read whole gives the prompt of its bodies, in order.
pub proof fn law_a_readable_stack_gives_the_prompt(
    ids: Seq<Seq<char>>,
    contents: Seq<Option<Seq<char>>>,
    fallback: Seq<char>,
)
    requires
        ids.len() == contents.len(),
        forall|i: int|
            0 <= i < ids.len() ==> skill::loaded(#[trigger] ids[i], contents[i]) is Some,
    ensures
        engine::skill_prompt(ids, contents, fallback) == engine::stack_prompt(
            Seq::new(ids.len(), |i: int| skill::loaded(ids[i], contents[i])->0.body),
        ),
{
    lemma_all_loadable(ids, contents);
    assert(Seq::new(ids.len(), |i: int| (skill::loaded(ids[i], contents[i])->0).body) == Seq::new(
        ids.len(),
        |i: int| skill::loaded(ids[i], contents[i])->0.body,
    ));
}

proof fn lemma_all_loadable(ids: Seq<Seq<char>>, contents: Seq<Option<Seq<char>>>)
    requires
        ids.len() == contents.len(),
        forall|i: int|
            0 <= i < ids.len() ==> skill::loaded(#[trigger] ids[i], contents[i]) is Some,
    ensures
        skill::loadable(ids, contents) == ids.len(),
    decreases ids.len(),
{
    if ids.len() > 0 {
        assert(skill::loaded(ids[0], contents[0]) is Some);
        let x = ids.drop_first();
        let y = contents.drop_first();
        assert forall|i: int| 0 <= i < x.len() implies skill::loaded(
            #[trigger] x[i],
            y[i],
        ) is Some by {
            assert(x[i] == ids[i + 1]);
        }
        lemma_all_loadable(x, y);
    }
}

// ---------------------------------------------------------------------------
// The master
// ---------------------------------------------------------------------------

/// Preparing a slave goes step by step: the theme, then the article under its own
/// file name and with the task as its notes, then the coordinator unless it is open,
/// then the slave; what was made already is no obstacle, and anything else stops it
/// with the stage and the reason.
pub proof fn law_a_slave_is_prepared_step_by_step(
    open: bool,
    task: TaskView,
    event: SetupEvent,
    after: bool,
    action: SetupAction,
)
    requires
        master::setup(open, task, event, after, action),
    ensures
        event is Begin ==> (action matches SetupAction::CreateTheme { theme } && theme@
            == task.theme),
        event matches SetupEvent::Theme(Ok(_)) ==> (action matches SetupAction::CreateArticle {
            theme,
            file_name,
            title,
            notes,
        } && theme@ == task.theme && file_name@ == task.file_name && title@ == task.file_name
            && is_field(notes, Some(task.task))),
        event matches SetupEvent::Article(Ok(_)) ==> if open {
            action is Spawn
        } else {
            action is OpenCoordinator
        },
        event matches SetupEvent::Coordinator(Ok(_)) ==> action is Spawn && after,
        event matches SetupEvent::Coordinator(Err(why)) ==> (action matches SetupAction::Finish(
            Err(Error::Decode { context, source }),
        ) && context@ == "engine"@ && source@ == "coordinator open failed: "@ + why@),
        event matches SetupEvent::Theme(Err(refusal)) ==> !(refusal.error is Lock) ==> (
        action matches SetupAction::Finish(Err(Error::Decode { context, source })) && context@
            == "engine"@ && source@ == "workspace setup failed at "@ + "create theme"@ + ": "@
            + refusal.message@),
        event matches SetupEvent::Article(Err(refusal)) ==> !(refusal.error is Lock) ==> (
        action matches SetupAction::Finish(Err(Error::Decode { context, source })) && context@
            == "engine"@ && source@ == "workspace setup failed at "@ + "create article"@ + ": "@
            + refusal.message@),
        event matches SetupEvent::Joined(Some(report)) ==> (action matches SetupAction::Finish(
            Ok(r),
        ) && r@ == report@),
        after == open || event is Coordinator,
{
}

/// A goal is planned in a fresh session of the master's own prompt and tools, in the
/// master's workspace, with the goal as the one thing said; its writers run on the
/// given model, with the prompt of the given skills. Only a coordinator that cannot
/// be opened stops it.
pub proof fn law_a_goal_is_planned_afresh(
    before: Master,
    opened: std::result::Result<(), String>,
    goal: Seq<char>,
    options: SessionOptions,
    slave_model: Seq<char>,
    bodies: Seq<Seq<char>>,
    slave_skill: Option<SlaveSkillView>,
    after: Master,
    r: Result<Goal>,
)
    requires
        master::planned(
            before,
            opened,
            master::goal_session(before.workspace_root@, goal, options),
            master::goal_state(slave_model, bodies, slave_skill),
            after,
            r,
        ),
    ensures
        r is Err <==> !before.coordinator_open && opened is Err,
        r is Err ==> after == before,
        r is Ok ==> after.coordinator_open && after.session == before.session
            && after.workspace_root == before.workspace_root,
        r matches Ok(g) ==> {
            let s = g.session@;
            &&& s.system == master::MASTER_SYSTEM_PROMPT@
            &&& s.history.len() == 1
            &&& s.history[0].role == Role::User
            &&& s.history[0].content == Some(goal)
            &&& s.history[0].tool_calls is None && s.history[0].reasoning_content is None
            &&& s.options == options
            &&& s.workspace_root == before.workspace_root@
            &&& s.writer == WriterId::Human
            &&& !s.workspace_open
            &&& s.usage.rounds == 0 && s.usage.total_tokens == 0
            &&& s.tools.len() == 6
            &&& s.tools[0].name == "create_theme"@
            &&& s.tools[1].name == "create_article"@
            &&& s.tools[2].name == "list_articles"@
            &&& s.tools[3].name == "organize_articles"@
            &&& s.tools[4].name == "dispatch_writer"@
            &&& s.tools[5].name == "list_reports"@
            &&& g.state@.slave_model == slave_model
            &&& g.state@.slave_prompt == engine::stack_prompt(bodies)
            &&& g.state@.slave_skill == slave_skill
            &&& g.state@.reports.len() == 0
        },
{
}

/// The one skill of a goal is its whole stack; without one the stack is empty.
pub proof fn law_one_skill_is_a_stack_of_one(body: Option<&str>)
    ensures
        body matches Some(b) ==> master::one_body(body) == seq![b@],
        body is None ==> master::one_body(body) == Seq::<Seq<char>>::empty(),
{
}

/// A goal that failed is its error; one that is done hands back its last words, any
/// other needs a human; either with every report, in order.
pub proof fn law_a_goal_ends_as_its_session_does(
    terminal: Step,
    reports: Seq<ReportView>,
    r: Result<GoalOutcome>,
)
    requires
        master::goal_outcome(terminal, reports, r),
    ensures
        terminal matches Step::Failed(e) ==> (r matches Err(f) && f == e),
        !(terminal is Failed) ==> (r matches Ok(g) && g.reports@.len() == reports.len() && (
        forall|i: int| 0 <= i < reports.len() ==> (#[trigger] g.reports@[i])@ == reports[i])),
        terminal matches Step::Done(text) ==> (r matches Ok(g) && g.outcome@ == "done"@
            && g.message@ == text@),
        terminal is NeedHuman || terminal is Tool || terminal is Message ==> (r matches Ok(g)
            && g.outcome@ == "need_human"@ && g.message@.len() == 0),
{
    if !(terminal is Failed) {
        let g = r->Ok_0;
        let view = engine::reports_view(g.reports@);
        assert(view.len() == g.reports@.len());
        assert forall|i: int| 0 <= i < reports.len() implies (#[trigger] g.reports@[i])@
            == reports[i] by {
            assert(view[i] == g.reports@[i]@);
        }
    }
}

// ---------------------------------------------------------------------------
// The master's tools
// ---------------------------------------------------------------------------

/// A writer is dispatched with the theme, the file and the task that were asked
/// for, as an agent on the goal's model, under the label asked for or else its file
/// name, with the goal's prompt and skill; without a task none is.
pub proof fn law_a_writer_is_dispatched_as_asked(
    tool: &DispatchWriter,
    state: &OrchestratorState,
    args: &DispatchWriterArgs,
    r: std::result::Result<SlaveTask, ToolError>,
)
    requires
        call_ensures(DispatchWriter::prepare, (tool, state, args), r),
    ensures
        r is Err <==> text::trimmed(args.task@).len() == 0,
        r matches Err(e) ==> (e matches ToolError::InvalidArgs(m) && m@
            == "`task` must not be empty"@),
        r matches Ok(task) ==> {
            &&& task.theme@ == args.theme@
            &&& task.file_name@ == args.file_name@
            &&& task.task@ == args.task@
            &&& task.writer matches WriterId::Agent { model, label }
            &&& model@ == state.slave_model@
            &&& args.label matches Some(l) ==> label@ == l@
            &&& args.label is None ==> label@ == args.file_name@
            &&& task.system_prompt matches Some(prompt) && prompt@ == state.slave_prompt@
            &&& engine::option_skill(task.skill) == engine::option_skill(state.slave_skill)
        },
{
}

/// Articles are organized one relation after the other, each as it was asked for,
/// then reordered if an order was asked for; the first refusal ends it.
pub proof fn law_articles_are_organized_as_asked(
    tool: &OrganizeArticles,
    args: &OrganizeArgs,
    done: usize,
    last: std::result::Result<(), ToolError>,
    action: OrganizeAction,
)
    requires
        call_ensures(OrganizeArticles::call, (tool, args, done, last), action),
    ensures
        last matches Err(e) ==> (action matches OrganizeAction::Finish(Err(f)) && f == e),
        last is Ok && done < args.relations@.len() ==> (action matches OrganizeAction::SetParent {
            theme,
            file_name,
            parent,
        } && theme@ == args.theme@ && file_name@ == args.relations@[done as int].file_name@
            && is_field(parent, content::option_view(args.relations@[done as int].parent))),
        last is Ok && done == args.relations@.len() ==> (args.order matches Some(order) ==> (
        action matches OrganizeAction::Reorder { theme, order: o } && theme@ == args.theme@
            && o@.len() == order@.len() && (forall|i: int|
            0 <= i < order@.len() ==> (#[trigger] o@[i])@ == order@[i]@))),
        last is Ok && (done > args.relations@.len() || (done == args.relations@.len()
            && args.order is None)) ==> (action matches OrganizeAction::Finish(Ok(reply))
            && reply.theme@ == args.theme@ && reply.relations_set == args.relations@.len()
            && reply.reordered == (args.order is Some)),
{
    if last is Ok && done == args.relations@.len() && args.order is Some {
        let o = action->order;
        let x = text::views(o@);
        let y = text::views(args.order->0@);
        assert(x.len() == o@.len() && y.len() == args.order->0@.len());
        assert forall|i: int| 0 <= i < args.order->0@.len() implies (#[trigger] o@[i])@
            == args.order->0@[i]@ by {
            assert(x[i] == o@[i]@ && y[i] == args.order->0@[i]@);
        }
    }
}

/// A slave that ended without a report of its own is reported in these words.
pub proof fn law_a_silent_slave_is_spoken_for(terminal: Step, report: SlaveReport)
    requires
        call_ensures(engine::settle_report, (None::<SlaveReport>, terminal), report),
    ensures
        match terminal {
            Step::Done(_) => report.summary@ == "Slave finished without calling `report`."@,
            Step::NeedHuman => report.summary@
                == "Slave stopped and needs human intervention (round budget exhausted or escalation)."@,
            Step::Failed(e) => report.summary@ == "Slave failed: "@ + e.says(),
            _ => report.summary@
                == "Slave returned a non-terminal step from run_until_done (unexpected)."@
                && report.result is None && report.needs is None,
        },
{
}

/// A failure is reported by its summary alone.
pub proof fn law_a_failure_is_its_summary(summary: &str, report: SlaveReport)
    requires
        call_ensures(SlaveReport::failed, (summary,), report),
    ensures
        report.status == SlaveStatus::Failed,
        report.summary@ == summary@,
        report.result is None,
        report.needs is None,
{
}

/// An agent runs on the model it signs with, a human's task on the fast one.
pub proof fn law_a_writer_has_its_model(writer: &WriterId, model: Model)
    requires
        call_ensures(engine::model_for_writer, (writer,), model),
    ensures
        *writer is Human ==> model is V4Flash,
        *writer matches WriterId::Agent { model: id, label: _ } ==> {
            &&& model is V4Flash <==> id@ == "deepseek-v4-flash"@
            &&& model is V4Pro <==> id@ == "deepseek-v4-pro"@
            &&& model matches Model::Pinned(p) ==> p@ == id@
        },
{
    reveal_strlit("deepseek-v4-flash");
    reveal_strlit("deepseek-v4-pro");
    assert("deepseek-v4-flash"@.len() != "deepseek-v4-pro"@.len());
}

/// A created article is told by its theme and its file, and goes by its file's name
/// where no title is given; one that is there already is no error.
pub proof fn law_a_created_article_is_told_by_theme_and_file(
    tool: &CreateArticle,
    args: &CreateArticleArgs,
    made: std::result::Result<(), ToolError>,
    r: std::result::Result<ArticleReply, ToolError>,
    title: String,
)
    requires
        call_ensures(CreateArticle::call, (tool, args, made), r),
        call_ensures(CreateArticle::title, (tool, args), title),
    ensures
        title@ == if args.title@.len() == 0 {
            args.file_name@
        } else {
            args.title@
        },
        made is Ok || made->Err_0 is Lock <==> r is Ok,
        r matches Ok(reply) ==> reply.article@ == args.theme@ + "/"@ + args.file_name@
            && reply.created == (made is Ok),
        r matches Err(e) ==> made == std::result::Result::<(), ToolError>::Err(e),
{
}

/// What an advertised tool shows the model.
pub open spec fn shows(
    tool: Tool,
    name: Seq<char>,
    description: Seq<char>,
    parameters: Seq<char>,
) -> bool {
    &&& tool.function.name@ == name
    &&& tool.function.description matches Some(d) && d@ == description
    &&& tool.function.parameters matches Some(p) && p@ == parameters
}

/// Each tool is advertised under its name, with its own description and parameters.
pub proof fn law_tools_are_advertised_under_their_names(registry: ToolRegistry)
    requires
        call_ensures(orchestration::orchestration_tools, (), registry),
    ensures
        ({
            let tools = registry.tools@;
            &&& tools.len() == 6
            &&& shows(
                tools[0],
                "create_theme"@,
                orchestration::CREATE_THEME_DESCRIPTION@,
                orchestration::CREATE_THEME_PARAMETERS@,
            )
            &&& shows(
                tools[1],
                "create_article"@,
                orchestration::CREATE_ARTICLE_DESCRIPTION@,
                orchestration::CREATE_ARTICLE_PARAMETERS@,
            )
            &&& shows(
                tools[2],
                "list_articles"@,
                orchestration::LIST_ARTICLES_DESCRIPTION@,
                orchestration::LIST_ARTICLES_PARAMETERS@,
            )
            &&& shows(
                tools[3],
                "organize_articles"@,
                orchestration::ORGANIZE_ARTICLES_DESCRIPTION@,
                orchestration::ORGANIZE_ARTICLES_PARAMETERS@,
            )
            &&& shows(
                tools[4],
                "dispatch_writer"@,
                orchestration::DISPATCH_WRITER_DESCRIPTION@,
                orchestration::DISPATCH_WRITER_PARAMETERS@,
            )
            &&& shows(
                tools[5],
                "list_reports"@,
                orchestration::LIST_REPORTS_DESCRIPTION@,
                orchestration::LIST_REPORTS_PARAMETERS@,
            )
        }),
{
    let views = request::tools_view(registry.tools@);
    assert(views.len() == 6);
    assert(views[0] == registry.tools@[0]@);
    assert(views[1] == registry.tools@[1]@);
    assert(views[2] == registry.tools@[2]@);
    assert(views[3] == registry.tools@[3]@);
    assert(views[4] == registry.tools@[4]@);
    assert(views[5] == registry.tools@[5]@);
}

/// The listed reports are those of the writers so far, in order.
pub proof fn law_reports_are_listed_in_order(
    tool: &ListReports,
    state: &OrchestratorState,
    reply: ReportsReply,
    i: int,
)
    requires
        call_ensures(ListReports::call, (tool, state), reply),
        0 <= i < state.reports@.len(),
    ensures
        reply.count == state.reports@.len(),
        reply.reports@.len() == state.reports@.len(),
        reply.reports@[i].status == state.reports@[i].status,
        reply.reports@[i].summary@ == state.reports@[i].summary@,
        is_field(reply.reports@[i].result, content::option_view(state.reports@[i].result)),
        is_field(reply.reports@[i].needs, content::option_view(state.reports@[i].needs)),
{
    let views = engine::reports_view(reply.reports@);
    assert(views.len() == reply.reports@.len());
    assert(state@.reports[i] == state.reports@[i]@);
    assert(views[i] == reply.reports@[i]@);
}

} // verus!
