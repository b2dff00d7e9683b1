//! The thin orchestration layer: the `Master` / `Slave` role composition.
//!
//! A **slave** is a [`Session`] configured with the writing tools, a writing system
//! prompt, and a target article; it ends in a [`SlaveReport`]. A **master** is a
//! [`Session`] configured with the [`orchestration`] tools. What is here decides
//! what is asked, what is reported and what comes next; threads, files and the
//! network belong to whoever drives it.

pub mod laws;
pub mod master;
pub mod orchestration;

use crate::content;
use crate::json;
use crate::observe::{Event, EventView};
use crate::req::model::Model;
use crate::req::types::request;
use crate::req::types::request::{Message, MessageView, Role};
use crate::session;
use crate::session::{Session, SessionOptions, SessionView, Step};
use crate::skill;
use crate::skill::SkillView;
use crate::text;
use crate::tool::{ToolRegistry, WriterId};
use vstd::prelude::*;
use vstd::string::StringExecFns;

pub use master::{GoalOutcome, Master};

verus! {

// ---------------------------------------------------------------------------
// Prompts
// ---------------------------------------------------------------------------

/// The fixed operational rules every slave runs under, regardless of which writing
/// skill governs its voice.
pub const SLAVE_OPERATIONAL_RULES: &'static str = "Rules you must follow:
- The article already exists. Change it with `write_article`, `edit_article`, or `apply_edits`. Locking and version control are automatic — each edit is one atomic commit, so you never acquire or release a lock yourself.
- Read the current article with `read_article` before editing it so you do not clobber existing work.
- Keep the article as plain text (Markdown is fine). Do not invent files or themes outside the task.
- When the article is complete, call `report` with status `done`, a short `summary`, and the final article path or text in `result`. If you are blocked and need a human, call `report` with status `needs_human` and describe what you need in `needs`.

Always finish by calling `report` exactly once.";

/// The default writing role used when no [`Skill`](crate::skill::Skill) is
/// selected.
pub const DEFAULT_SLAVE_ROLE: &'static str = "You are a focused writing agent working on exactly one article inside a sandboxed workspace. Your job is to research from your own knowledge, write, and revise that article until it is good, then report back.";

/// A slave's system prompt: the voice leads, the operational rules follow.
pub open spec fn slave_prompt(voice: Seq<char>) -> Seq<char> {
    text::trimmed(voice) + "\n\n"@ + SLAVE_OPERATIONAL_RULES@
}

/// The prompt of an ordered stack of skills; the default one, where the stack has
/// no voice.
pub open spec fn stack_prompt(bodies: Seq<Seq<char>>) -> Seq<char> {
    if skill::stacked(bodies).len() == 0 {
        slave_prompt(DEFAULT_SLAVE_ROLE@)
    } else {
        slave_prompt(skill::stacked(bodies))
    }
}

/// Composes a slave's full system prompt from a writing-skill body and the fixed
/// operational rules.
pub fn compose_slave_prompt(skill_body: &str) -> (prompt: String)
    ensures
        prompt@ == slave_prompt(skill_body@),
{
    let mut prompt = text::trim(skill_body);
    prompt.append("\n\n");
    prompt.append(SLAVE_OPERATIONAL_RULES);
    prompt
}

/// Composes a slave's full system prompt from an **ordered stack** of writing
/// skill bodies and the fixed operational rules. An empty stack reproduces the
/// default writer prompt.
pub fn compose_slave_prompt_multi(bodies: &[&str]) -> (prompt: String)
    ensures
        prompt@ == stack_prompt(skill::strs(bodies@)),
{
    let stacked = skill::compose_stack(bodies);
    if stacked.as_str().is_empty() {
        default_slave_prompt()
    } else {
        compose_slave_prompt(stacked.as_str())
    }
}

/// The default composed slave prompt: built-in role and operational rules.
pub fn default_slave_prompt() -> (prompt: String)
    ensures
        prompt@ == slave_prompt(DEFAULT_SLAVE_ROLE@),
{
    compose_slave_prompt(DEFAULT_SLAVE_ROLE)
}

// ---------------------------------------------------------------------------
// Tasks and reports
// ---------------------------------------------------------------------------

/// The outcome status a slave reports back to its master.
#[derive(Debug, Clone, Copy, PartialEq, Eq, Structural)]
#[non_exhaustive]
pub enum SlaveStatus {
    /// The slave self-assessed the article as complete.
    Done,
    /// The slave stopped needing human intervention.
    NeedsHuman,
    /// The slave failed; `result` / `summary` describe why.
    Failed,
}

/// The status that is written so.
pub open spec fn status_of(s: Seq<char>) -> Option<SlaveStatus> {
    if s == "done"@ {
        Some(SlaveStatus::Done)
    } else if s == "needs_human"@ {
        Some(SlaveStatus::NeedsHuman)
    } else if s == "failed"@ {
        Some(SlaveStatus::Failed)
    } else {
        None
    }
}

/// How a status is written.
pub open spec fn status_name(status: SlaveStatus) -> Seq<char> {
    match status {
        SlaveStatus::Done => "done"@,
        SlaveStatus::NeedsHuman => "needs_human"@,
        SlaveStatus::Failed => "failed"@,
    }
}

impl SlaveStatus {
    /// Parses the `status` string of a report; `None` for any other string.
    pub fn from_report_status(status: &str) -> (r: Option<Self>)
        ensures
            r == status_of(status@),
    {
        if text::text_eq(status, "done") {
            Some(SlaveStatus::Done)
        } else if text::text_eq(status, "needs_human") {
            Some(SlaveStatus::NeedsHuman)
        } else if text::text_eq(status, "failed") {
            Some(SlaveStatus::Failed)
        } else {
            None
        }
    }
}

/// How a [`SlaveStatus`] is written, the inverse of
/// [`SlaveStatus::from_report_status`].
pub fn report_status_str(status: &SlaveStatus) -> (name: &'static str)
    ensures
        name@ == status_name(*status),
{
    match status {
        SlaveStatus::Done => "done",
        SlaveStatus::NeedsHuman => "needs_human",
        SlaveStatus::Failed => "failed",
    }
}

/// The structured summary a slave sends to its master on completion.
#[derive(Debug, PartialEq, Eq)]
pub struct SlaveReport {
    /// The terminal status of the slave run.
    pub status: SlaveStatus,
    /// A short human-readable summary of what happened.
    pub summary: String,
    /// The concrete result, when one was produced.
    pub result: Option<String>,
    /// What the slave needs next, when applicable.
    pub needs: Option<String>,
}

/// A report, as contracts see one.
#[verifier::ext_equal]
pub struct ReportView {
    /// The status.
    pub status: SlaveStatus,
    /// The summary.
    pub summary: Seq<char>,
    /// The result.
    pub result: Option<Seq<char>>,
    /// The needs.
    pub needs: Option<Seq<char>>,
}

impl View for SlaveReport {
    type V = ReportView;

    open spec fn view(&self) -> ReportView {
        ReportView {
            status: self.status,
            summary: self.summary@,
            result: content::option_view(self.result),
            needs: content::option_view(self.needs),
        }
    }
}

/// What contracts see of a list of reports.
pub open spec fn reports_view(reports: Seq<SlaveReport>) -> Seq<ReportView> {
    Seq::new(reports.len(), |i: int| reports[i]@)
}

/// A failed run's report.
pub open spec fn failed_report(summary: Seq<char>) -> ReportView {
    ReportView { status: SlaveStatus::Failed, summary, result: None, needs: None }
}

impl Clone for SlaveReport {
    fn clone(&self) -> (copy: Self)
        ensures
            copy@ == self@,
    {
        SlaveReport {
            status: self.status,
            summary: self.summary.clone(),
            result: self.result.clone(),
            needs: self.needs.clone(),
        }
    }
}

impl SlaveReport {
    /// Builds a [`SlaveStatus::Failed`] report carrying `summary` as its message.
    pub fn failed(summary: &str) -> (report: Self)
        ensures
            report@ == failed_report(summary@),
    {
        SlaveReport {
            status: SlaveStatus::Failed,
            summary: summary.to_owned(),
            result: None,
            needs: None,
        }
    }
}

/// A reference to an ordered stack of writing skills on disk, re-read each round
/// to recompose a slave's system prompt.
#[derive(Debug, PartialEq, Eq)]
pub struct SlaveSkill {
    /// The directory the skills live in.
    pub dir: String,
    /// The ordered stack of skill ids, earliest first; on conflict a later id
    /// overrides an earlier one.
    pub ids: Vec<String>,
}

/// A skill stack, as contracts see one.
#[verifier::ext_equal]
pub struct SlaveSkillView {
    /// The directory.
    pub dir: Seq<char>,
    /// The ids.
    pub ids: Seq<Seq<char>>,
}

impl View for SlaveSkill {
    type V = SlaveSkillView;

    open spec fn view(&self) -> SlaveSkillView {
        SlaveSkillView { dir: self.dir@, ids: text::views(self.ids@) }
    }
}

impl Clone for SlaveSkill {
    fn clone(&self) -> (copy: Self)
        ensures
            copy@ == self@,
    {
        let ids = self.ids.clone();
        assert(text::views(ids@) == text::views(self.ids@));
        SlaveSkill { dir: self.dir.clone(), ids }
    }
}

/// What contracts see of an optional skill stack.
pub open spec fn option_skill(skill: Option<SlaveSkill>) -> Option<SlaveSkillView> {
    match skill {
        Some(skill) => Some(skill@),
        None => None,
    }
}

/// A copy of an optional skill stack.
pub(crate) fn copy_skill(skill: &Option<SlaveSkill>) -> (copy: Option<SlaveSkill>)
    ensures
        option_skill(copy) == option_skill(*skill),
{
    match skill {
        Some(skill) => Some(skill.clone()),
        None => None,
    }
}

/// A description of the article a slave should write.
#[derive(Debug, PartialEq, Eq)]
pub struct SlaveTask {
    /// The theme directory the article lives in.
    pub theme: String,
    /// The article file name within the theme.
    pub file_name: String,
    /// The natural-language writing task the slave should carry out.
    pub task: String,
    /// The identity the slave writes under (its model id and agent label).
    pub writer: WriterId,
    /// The composed system prompt the slave runs under; `None` uses the default
    /// writer prompt. Where [`skill`](SlaveTask::skill) is set, this is only the
    /// fallback if a skill fails to load.
    pub system_prompt: Option<String>,
    /// An optional on-disk skill source to **re-read each round**.
    pub skill: Option<SlaveSkill>,
}

/// A task, as contracts see one.
#[verifier::ext_equal]
pub struct TaskView {
    /// The theme.
    pub theme: Seq<char>,
    /// The file.
    pub file_name: Seq<char>,
    /// The task.
    pub task: Seq<char>,
    /// The writer.
    pub writer: WriterId,
    /// The prompt.
    pub system_prompt: Option<Seq<char>>,
    /// The skills.
    pub skill: Option<SlaveSkillView>,
}

impl View for SlaveTask {
    type V = TaskView;

    open spec fn view(&self) -> TaskView {
        TaskView {
            theme: self.theme@,
            file_name: self.file_name@,
            task: self.task@,
            writer: self.writer,
            system_prompt: content::option_view(self.system_prompt),
            skill: option_skill(self.skill),
        }
    }
}

// ---------------------------------------------------------------------------
// The prompt of a round
// ---------------------------------------------------------------------------

/// The bodies of a skill stack, given what each file holds; none, where one of
/// them cannot be loaded.
pub open spec fn stack_bodies(ids: Seq<Seq<char>>, contents: Seq<Option<Seq<char>>>) -> Option<
    Seq<Seq<char>>,
> {
    if skill::loadable(ids, contents) == ids.len() {
        Some(Seq::new(ids.len(), |i: int| (skill::loaded(ids[i], contents[i])->0).body))
    } else {
        None
    }
}

/// The prompt that a skill stack gives a slave now.
pub open spec fn skill_prompt(
    ids: Seq<Seq<char>>,
    contents: Seq<Option<Seq<char>>>,
    fallback: Seq<char>,
) -> Seq<char> {
    match stack_bodies(ids, contents) {
        Some(bodies) => stack_prompt(bodies),
        None => fallback,
    }
}

/// The prompt that a task is dispatched with.
pub open spec fn task_prompt(task: TaskView) -> Seq<char> {
    match task.system_prompt {
        Some(prompt) => prompt,
        None => slave_prompt(DEFAULT_SLAVE_ROLE@),
    }
}

/// Recomposes a slave system prompt from what the skill files hold now, given in
/// the order of [`SlaveSkill::ids`]. If **any** of them cannot be loaded, the
/// prompt is `fallback`, so a read failure never produces a partial prompt.
pub fn compose_slave_prompt_from_skill(
    skill: &SlaveSkill,
    contents: &Vec<Option<String>>,
    fallback: &str,
) -> (prompt: String)
    requires
        contents@.len() == skill.ids@.len(),
    ensures
        prompt@ == skill_prompt(skill@.ids, skill::contents_view(contents@), fallback@),
{
    let ghost ids = text::views(skill.ids@);
    let ghost files = skill::contents_view(contents@);
    match skill::load_skills_ordered(&skill.ids, contents) {
        Err(_) => fallback.to_owned(),
        Ok(loaded) => {
            let mut bodies: Vec<&str> = Vec::new();
            let ghost views = skill::skills_view(loaded@);
            let mut i: usize = 0;
            while i < loaded.len()
                invariant
                    i <= loaded@.len(),
                    bodies@.len() == i,
                    views == skill::skills_view(loaded@),
                    forall|j: int| 0 <= j < i ==> (#[trigger] bodies@[j])@ == views[j].body,
                decreases loaded@.len() - i,
            {
                assert(views[i as int] == loaded@[i as int]@);
                bodies.push(loaded[i].body.as_str());
                i += 1;
            }
            proof {
                assert(views.len() == ids.len());
                assert(skill::strs(bodies@) == Seq::new(
                    ids.len(),
                    |i: int| (skill::loaded(ids[i], files[i])->0).body,
                ));
            }
            compose_slave_prompt_multi(bodies.as_slice())
        },
    }
}

/// The prompt that a task is dispatched with: its own, or the default one.
fn prompt_of(task: &SlaveTask) -> (prompt: String)
    ensures
        prompt@ == task_prompt(task@),
{
    match &task.system_prompt {
        Some(prompt) => prompt.clone(),
        None => default_slave_prompt(),
    }
}

/// Readies a slave session for its next round: where the task names a skill
/// stack, the system prompt is recomposed from what the files hold now; else it
/// stays.
pub fn refresh_prompt(session: &mut Session, task: &SlaveTask, contents: &Vec<Option<String>>)
    requires
        task.skill matches Some(skill) ==> contents@.len() == skill.ids@.len(),
    ensures
        final(session)@ == match task@.skill {
            Some(skill) => SessionView {
                system: skill_prompt(
                    skill.ids,
                    skill::contents_view(contents@),
                    task_prompt(task@),
                ),
                ..old(session)@
            },
            None => old(session)@,
        },
{
    if let Some(skill) = &task.skill {
        let fallback = prompt_of(task);
        session.system = compose_slave_prompt_from_skill(skill, contents, fallback.as_str());
    }
}

// ---------------------------------------------------------------------------
// The slave
// ---------------------------------------------------------------------------

/// The model that a writer runs on: the exact id that an agent signs with.
pub open spec fn runs_on(writer: WriterId, model: Model) -> bool {
    match writer {
        WriterId::Agent { model: id, label: _ } => model@ == id@ && model.normalized(),
        WriterId::Human => model == Model::V4Flash,
    }
}

/// Resolves the request [`Model`] a slave should run under from its writer
/// identity. A human has no model id, so the default model is used.
pub fn model_for_writer(writer: &WriterId) -> (model: Model)
    ensures
        runs_on(*writer, model),
{
    match writer {
        WriterId::Agent { model, label: _ } => Model::pinned(model.as_str()),
        WriterId::Human => SessionOptions::default().model,
    }
}

/// Whether `s` is the fresh session of a slave: its task's prompt, its tools, the
/// default options on its own model, and the workspace under its own identity.
pub open spec fn slave_session(
    s: SessionView,
    workspace_root: Seq<char>,
    task: TaskView,
    tools: Seq<request::ToolView>,
) -> bool {
    &&& s.system == task_prompt(task)
    &&& s.history == Seq::<MessageView>::empty()
    &&& s.tools == tools
    &&& s.usage == session::no_usage()
    &&& runs_on(task.writer, s.options.model)
    &&& s.options == SessionOptions {
        model: s.options.model,
        thinking: None,
        max_tokens: None,
        max_rounds: 20,
        max_retries: 3,
    }
    &&& s.workspace_root == workspace_root
    &&& s.writer == task.writer
    &&& !s.workspace_open
}

/// Builds the slave [`Session`] for `task`, rooted at `workspace_root`, with the
/// writing tools.
pub fn build_slave_session(workspace_root: &str, task: &SlaveTask, tools: ToolRegistry) -> (session:
    Session)
    ensures
        slave_session(session@, workspace_root@, task@, request::tools_view(tools.tools@)),
{
    let system_prompt = prompt_of(task);
    let mut options = SessionOptions::default();
    options.model = model_for_writer(&task.writer);
    let mut session = Session::new(system_prompt.as_str(), tools, options);
    session.set_workspace(workspace_root, task.writer.clone());
    session
}

/// The first user turn of a slave.
pub open spec fn briefing(task: TaskView) -> Seq<char> {
    "Theme: "@ + task.theme + "\nArticle file: "@ + task.file_name + "\n\nTask:\n"@ + task.task
}

/// Pushes the task as the slave's first user turn.
pub fn brief_slave(session: &mut Session, task: &SlaveTask)
    ensures
        final(session)@ == session::told(
            old(session)@,
            seq![request::said(Role::User, briefing(task@))],
        ),
{
    let mut prompt = "Theme: ".to_owned();
    prompt.append(task.theme.as_str());
    prompt.append("\nArticle file: ");
    prompt.append(task.file_name.as_str());
    prompt.append("\n\nTask:\n");
    prompt.append(task.task.as_str());
    session.push_user(prompt.as_str());
}

/// The event that a slave's run starts with.
pub fn spawned_event(task: &SlaveTask) -> (event: Event)
    ensures
        event@ == (EventView::SlaveSpawned {
            theme: task@.theme,
            file: task@.file_name,
            writer: task@.writer@.tag(),
        }),
{
    Event::SlaveSpawned {
        theme: task.theme.clone(),
        file: task.file_name.clone(),
        writer: task.writer.provenance_tag(),
    }
}

/// The event that a slave's run ends with.
pub fn reported_event(report: &SlaveReport) -> (event: Event)
    ensures
        event@ == (EventView::SlaveReported {
            status: status_name(report@.status),
            summary: report@.summary,
        }),
{
    Event::SlaveReported {
        status: report_status_str(&report.status).to_owned(),
        summary: report.summary.clone(),
    }
}

// ---------------------------------------------------------------------------
// The report
// ---------------------------------------------------------------------------

/// A report, given the fields of a reply: it has a status that is one of the three
/// and a summary.
pub open spec fn report_of(
    status: Option<Seq<char>>,
    summary: Option<Seq<char>>,
    result: Option<Seq<char>>,
    needs: Option<Seq<char>>,
) -> Option<ReportView> {
    if status is Some && status_of(status->0) is Some && summary is Some {
        Some(
            ReportView {
                status: status_of(status->0)->0,
                summary: summary->0,
                result,
                needs,
            },
        )
    } else {
        None
    }
}

/// The report that a message carries: a `tool` reply whose content is a JSON
/// object with the fields of one.
pub open spec fn reported(message: MessageView) -> Option<ReportView> {
    if message.role == Role::Tool && message.content is Some {
        let body = message.content->0;
        report_of(
            json::text_field(body, "status"@),
            json::text_field(body, "summary"@),
            json::text_field(body, "result"@),
            json::text_field(body, "needs"@),
        )
    } else {
        None
    }
}

/// The last report in a history.
pub open spec fn last_report(history: Seq<MessageView>) -> Option<ReportView>
    decreases history.len(),
{
    if history.len() == 0 {
        None
    } else if reported(history.last()) is Some {
        reported(history.last())
    } else {
        last_report(history.drop_last())
    }
}

/// What contracts see of an optional report.
pub open spec fn option_report(report: Option<SlaveReport>) -> Option<ReportView> {
    match report {
        Some(report) => Some(report@),
        None => None,
    }
}

/// Makes a report of the fields of a reply, if they are one's.
pub fn read_report(
    status: Option<String>,
    summary: Option<String>,
    result: Option<String>,
    needs: Option<String>,
) -> (report: Option<SlaveReport>)
    ensures
        option_report(report) == report_of(
            content::option_view(status),
            content::option_view(summary),
            content::option_view(result),
            content::option_view(needs),
        ),
{
    match (status, summary) {
        (Some(status), Some(summary)) => match SlaveStatus::from_report_status(status.as_str()) {
            Some(status) => Some(SlaveReport { status, summary, result, needs }),
            None => None,
        },
        _ => None,
    }
}

/// The report that a message carries, if it carries one.
fn report_in(message: &Message) -> (report: Option<SlaveReport>)
    ensures
        option_report(report) == reported(message@),
{
    if message.role != Role::Tool {
        return None;
    }
    match &message.content {
        None => None,
        Some(body) => read_report(
            json::read_text_field(body.as_str(), "status"),
            json::read_text_field(body.as_str(), "summary"),
            json::read_text_field(body.as_str(), "result"),
            json::read_text_field(body.as_str(), "needs"),
        ),
    }
}

/// Reconstructs a [`SlaveReport`] from a finished slave's message `history`: the
/// one in the **most recent** `tool` reply that carries one. `None` if there is no
/// such reply.
pub fn report_from_history(history: &[Message]) -> (report: Option<SlaveReport>)
    ensures
        option_report(report) == last_report(request::messages_view(history@)),
{
    let ghost all = request::messages_view(history@);
    let mut i: usize = history.len();
    assert(all.take(i as int) == all);
    while i > 0
        invariant
            i <= history@.len(),
            all == request::messages_view(history@),
            last_report(all) == last_report(all.take(i as int)),
        decreases i,
    {
        i -= 1;
        proof {
            assert(all.take(i + 1).last() == history@[i as int]@);
            assert(all.take(i + 1).drop_last() == all.take(i as int));
        }
        let report = report_in(&history[i]);
        if report.is_some() {
            return report;
        }
    }
    assert(all.take(0).len() == 0);
    None
}

/// The report of a run that made none itself, from how it ended.
pub open spec fn synthesized(terminal: Step) -> ReportView {
    match terminal {
        Step::Done(text) => ReportView {
            status: SlaveStatus::Done,
            summary: "Slave finished without calling `report`."@,
            result: if text@.len() == 0 {
                None
            } else {
                Some(text@)
            },
            needs: None,
        },
        Step::NeedHuman => ReportView {
            status: SlaveStatus::NeedsHuman,
            summary: "Slave stopped and needs human intervention (round budget exhausted or escalation)."@,
            result: None,
            needs: Some("human intervention"@),
        },
        Step::Failed(e) => failed_report("Slave failed: "@ + e.says()),
        _ => failed_report(
            "Slave returned a non-terminal step from run_until_done (unexpected)."@,
        ),
    }
}

/// A run's report: its own is authoritative; failing that, one is made from how
/// the run ended.
pub fn settle_report(own: Option<SlaveReport>, terminal: Step) -> (report: SlaveReport)
    ensures
        report@ == match own {
            Some(own) => own@,
            None => synthesized(terminal),
        },
{
    if let Some(own) = own {
        return own;
    }
    match terminal {
        Step::Done(text) => {
            let result = if text.as_str().is_empty() {
                None
            } else {
                Some(text)
            };
            SlaveReport {
                status: SlaveStatus::Done,
                summary: "Slave finished without calling `report`.".to_owned(),
                result,
                needs: None,
            }
        },
        Step::NeedHuman => SlaveReport {
            status: SlaveStatus::NeedsHuman,
            summary: "Slave stopped and needs human intervention (round budget exhausted or escalation).".to_owned(),
            result: None,
            needs: Some("human intervention".to_owned()),
        },
        Step::Failed(e) => {
            let mut summary = "Slave failed: ".to_owned();
            summary.append(e.message().as_str());
            SlaveReport::failed(summary.as_str())
        },
        Step::Tool(_) => SlaveReport::failed(
            "Slave returned a non-terminal step from run_until_done (unexpected).",
        ),
        Step::Message(_) => SlaveReport::failed(
            "Slave returned a non-terminal step from run_until_done (unexpected).",
        ),
    }
}

/// Distills the [`SlaveReport`] of a slave [`Session`] that has run to its end.
pub fn conclude_slave(session: &Session, terminal: Step) -> (report: SlaveReport)
    ensures
        report@ == match last_report(session@.history) {
            Some(own) => own,
            None => synthesized(terminal),
        },
{
    settle_report(report_from_history(session.history()), terminal)
}

/// The report of a slave's thread: a thread that panicked has failed.
pub open spec fn joined(report: Option<ReportView>) -> ReportView {
    match report {
        Some(report) => report,
        None => failed_report("Slave thread panicked."@),
    }
}

/// The report of a slave's thread, if it returned one.
pub fn join_slave(report: Option<SlaveReport>) -> (r: SlaveReport)
    ensures
        r@ == joined(option_report(report)),
{
    match report {
        Some(report) => report,
        None => SlaveReport::failed("Slave thread panicked."),
    }
}

} // verus!
