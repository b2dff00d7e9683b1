//! The master: the orchestrating session for one writing goal.

use crate::engine;
use crate::engine::orchestration;
use crate::engine::orchestration::{OrchestratorState, OrchestratorView};
use crate::engine::{ReportView, SlaveReport, SlaveSkill, SlaveTask, TaskView};
use crate::req::error::{Error, Result};
use crate::req::types::request;
use crate::req::types::request::Role;
use crate::session;
use crate::session::{Session, SessionOptions, SessionView, SnapshotView, Step, UsageTotals};
use crate::skill;
use crate::tool::{Refusal, ToolError, WriterId};
use vstd::prelude::*;
use vstd::string::StringExecFns;

verus! {

/// The system prompt the master's orchestration session is configured with.
pub const MASTER_SYSTEM_PROMPT: &'static str = "You are an orchestrator that turns a high-level writing goal into a finished set of articles by planning and delegating. You do NOT write article prose yourself.

Your tools:
- `create_theme` — create the theme directory the articles live in.
- `create_article` — create one empty article file inside a theme.
- `list_articles` — see which article files already exist in a theme.
- `organize_articles` — set the articles' parent/child hierarchy and reading order, so the set reads as a structured whole rather than a flat list.
- `dispatch_writer` — spawn a writing agent to research, write, and revise ONE article, then report back. It blocks and returns the writer's structured report.
- `list_reports` — review every writer's report collected so far.

How to work:
1. Decide on a theme and the set of articles the goal needs (it may be one article, or several). Keep the plan focused; do not invent unrelated articles.
2. Create the theme, then create each planned article file.
3. If the goal has more than one article, call `organize_articles` to set their parent/child structure and the reading order.
4. Dispatch exactly one writer per article, giving each a clear, self-contained task. Read each report as it comes back.
5. If a writer reports `needs_human` or `failed`, note it; do not loop forever re-dispatching the same article.
6. When every planned article has a writer report, finish with a short final message summarizing what was produced. Do not keep calling tools once the goal is met.

Stay within the workspace and the tools provided. If a tool returns an error, read it and adapt rather than repeating the same call.";

/// The result of a completed orchestration.
#[derive(Debug, PartialEq, Eq)]
pub struct GoalOutcome {
    /// The master run's terminal outcome label: `"done"` when the model finished
    /// cleanly, or `"need_human"` when it stopped early.
    pub outcome: String,
    /// The master's final assistant message, empty when the run ended without one.
    pub message: String,
    /// Every [`SlaveReport`] collected during the run, in dispatch order.
    pub reports: Vec<SlaveReport>,
}

/// A goal that has been planned: the session to run, and the state that its tools
/// share.
#[derive(Debug)]
pub struct Goal {
    /// The orchestration session.
    pub session: Session,
    /// What the dispatch and report tools share.
    pub state: OrchestratorState,
}

/// The master: an orchestrating [`Session`] and the workspace it governs.
#[derive(Debug)]
pub struct Master {
    /// The orchestrating session.
    pub session: Session,
    /// The workspace root, handed to spawned slaves.
    pub workspace_root: String,
    /// Whether the coordinator that the master and its slaves share is open. It is
    /// opened on first use and kept.
    pub coordinator_open: bool,
}

/// What has just happened while one slave is set up and run.
#[derive(Debug, PartialEq, Eq)]
pub enum SetupEvent {
    /// Nothing yet.
    Begin,
    /// The theme was created, or that was refused.
    Theme(std::result::Result<(), Refusal>),
    /// The article was created, or that was refused.
    Article(std::result::Result<(), Refusal>),
    /// The coordinator was opened, or what the error says.
    Coordinator(std::result::Result<(), String>),
    /// The slave's thread has ended; without a report, if it panicked.
    Joined(Option<SlaveReport>),
}

/// What is to be done next while one slave is set up and run.
#[derive(Debug, PartialEq, Eq)]
pub enum SetupAction {
    /// Create the theme.
    CreateTheme {
        /// Its name.
        theme: String,
    },
    /// Create the article.
    CreateArticle {
        /// Its theme.
        theme: String,
        /// Its file.
        file_name: String,
        /// Its title.
        title: String,
        /// What it should cover.
        notes: Option<String>,
    },
    /// Open the shared coordinator.
    OpenCoordinator,
    /// Run the slave on its own thread, and join it.
    Spawn,
    /// This is the outcome.
    Finish(Result<SlaveReport>),
}

/// An error of the engine itself.
pub open spec fn engine_error(e: Error, message: Seq<char>) -> bool {
    e matches Error::Decode { context, source } && context@ == "engine"@ && source@ == message
}

/// What a failed setup says.
pub open spec fn setup_message(stage: Seq<char>, message: Seq<char>) -> Seq<char> {
    "workspace setup failed at "@ + stage + ": "@ + message
}

/// What a coordinator that cannot be opened says.
pub open spec fn open_message(message: Seq<char>) -> Seq<char> {
    "coordinator open failed: "@ + message
}

/// Whether a creation leaves the thing in place: it was created, or it was there
/// already.
pub open spec fn in_place(made: std::result::Result<(), Refusal>) -> bool {
    match made {
        Ok(_) => true,
        Err(refusal) => refusal.error is Lock,
    }
}

/// Whether an action creates a task's article, under its file name and with the
/// task as its notes.
pub open spec fn creates_article(action: SetupAction, task: TaskView) -> bool {
    action matches SetupAction::CreateArticle { theme, file_name, title, notes } && theme@
        == task.theme && file_name@ == task.file_name && title@ == task.file_name
        && crate::content::option_view(notes) == Some(task.task)
}

/// Whether an action ends the setup with a workspace error.
pub open spec fn setup_failed(action: SetupAction, stage: Seq<char>, refusal: Refusal) -> bool {
    action matches SetupAction::Finish(Err(e)) && engine_error(
        e,
        setup_message(stage, refusal.message@),
    )
}

/// What becomes of the coordinator, and what is to be done next, while one slave
/// is set up and run.
pub open spec fn setup(
    before: bool,
    task: TaskView,
    event: SetupEvent,
    after: bool,
    action: SetupAction,
) -> bool {
    match event {
        SetupEvent::Begin => {
            &&& after == before
            &&& action matches SetupAction::CreateTheme { theme } && theme@ == task.theme
        },
        SetupEvent::Theme(made) => {
            &&& after == before
            &&& if in_place(made) {
                creates_article(action, task)
            } else {
                setup_failed(action, "create theme"@, made->Err_0)
            }
        },
        SetupEvent::Article(made) => {
            &&& after == before
            &&& if in_place(made) {
                action == if before {
                    SetupAction::Spawn
                } else {
                    SetupAction::OpenCoordinator
                }
            } else {
                setup_failed(action, "create article"@, made->Err_0)
            }
        },
        SetupEvent::Coordinator(opened) => match opened {
            Ok(_) => after && action == SetupAction::Spawn,
            Err(message) => {
                &&& after == before
                &&& action matches SetupAction::Finish(Err(e)) && engine_error(
                    e,
                    open_message(message@),
                )
            },
        },
        SetupEvent::Joined(report) => {
            &&& after == before
            &&& action matches SetupAction::Finish(Ok(r)) && r@ == engine::joined(
                engine::option_report(report),
            )
        },
    }
}

/// An error of the engine itself.
fn decode_error(message: String) -> (e: Error)
    ensures
        engine_error(e, message@),
{
    Error::Decode { context: "engine".to_owned(), source: message }
}

/// Wraps a workspace-setup error for [`Master::run_one`].
fn setup_error(stage: &str, refusal: &Refusal) -> (e: Error)
    ensures
        engine_error(e, setup_message(stage@, refusal.message@)),
{
    let mut message = "workspace setup failed at ".to_owned();
    message.append(stage);
    message.append(": ");
    message.append(refusal.message.as_str());
    decode_error(message)
}

/// Wraps the error of a coordinator that cannot be opened.
fn open_error(message: &str) -> (e: Error)
    ensures
        engine_error(e, open_message(message@)),
{
    let mut text = "coordinator open failed: ".to_owned();
    text.append(message);
    decode_error(text)
}

/// The master's session for a goal: the orchestrator prompt and tools, the goal as
/// the first user turn, and the workspace under the human's identity.
pub open spec fn goal_session(
    workspace_root: Seq<char>,
    goal: Seq<char>,
    options: SessionOptions,
) -> SessionView {
    SessionView {
        history: seq![request::said(Role::User, goal)],
        workspace_root,
        ..session::restored(
            SnapshotView {
                system: MASTER_SYSTEM_PROMPT@,
                history: Seq::empty(),
                usage: session::no_usage(),
                options,
            },
            orchestration::tool_set(),
        )
    }
}

/// The state that a goal's tools share before the first dispatch.
pub open spec fn goal_state(
    slave_model: Seq<char>,
    bodies: Seq<Seq<char>>,
    slave_skill: Option<engine::SlaveSkillView>,
) -> OrchestratorView {
    OrchestratorView {
        slave_model,
        slave_prompt: engine::stack_prompt(bodies),
        slave_skill,
        reports: Seq::empty(),
    }
}

/// Whether a goal could be planned: not without the coordinator. Planning changes
/// nothing of the master but that the coordinator is open.
pub open spec fn planned(
    before: Master,
    opened: std::result::Result<(), String>,
    session: SessionView,
    state: OrchestratorView,
    after: Master,
    r: Result<Goal>,
) -> bool {
    if !before.coordinator_open && opened is Err {
        &&& after == before
        &&& r matches Err(e) && engine_error(e, open_message(opened->Err_0@))
    } else {
        &&& after == (Master { coordinator_open: true, ..before })
        &&& r matches Ok(goal) && goal.session@ == session && goal.state@ == state
    }
}

/// The bodies of an optional skill.
pub open spec fn one_body(body: Option<&str>) -> Seq<Seq<char>> {
    match body {
        Some(body) => seq![body@],
        None => Seq::empty(),
    }
}

/// What the caller is told of a run that ended in `terminal`.
pub open spec fn goal_outcome(
    terminal: Step,
    reports: Seq<ReportView>,
    r: Result<GoalOutcome>,
) -> bool {
    match terminal {
        Step::Failed(e) => r == Result::<GoalOutcome>::Err(e),
        Step::Done(text) => r matches Ok(goal) && goal.outcome@ == "done"@ && goal.message@ == text@
            && engine::reports_view(goal.reports@) == reports,
        _ => r matches Ok(goal) && goal.outcome@ == "need_human"@ && goal.message@ == Seq::<
            char,
        >::empty() && engine::reports_view(goal.reports@) == reports,
    }
}

impl Master {
    /// Creates a master governing the workspace at `workspace_root`, driven by
    /// `session`.
    pub fn new(session: Session, workspace_root: &str) -> (master: Self)
        ensures
            master.session == session,
            master.workspace_root@ == workspace_root@,
            !master.coordinator_open,
    {
        Master { session, workspace_root: workspace_root.to_owned(), coordinator_open: false }
    }

    /// Takes note of the shared coordinator's opening; one that is open already
    /// is kept.
    fn coordinator(&mut self, opened: std::result::Result<(), String>) -> (r: Result<()>)
        ensures
            if !old(self).coordinator_open && opened is Err {
                &&& *final(self) == *old(self)
                &&& r matches Err(e) && engine_error(e, open_message(opened->Err_0@))
            } else {
                &&& *final(self) == (Master { coordinator_open: true, ..*old(self) })
                &&& r is Ok
            },
    {
        if self.coordinator_open {
            return Ok(());
        }
        match opened {
            Err(message) => Err(open_error(message.as_str())),
            Ok(()) => {
                self.coordinator_open = true;
                Ok(())
            },
        }
    }

    /// Runs one slave, a piece at a time: ensures that the theme and the target
    /// article exist, has one slave dispatched, and collects its [`SlaveReport`].
    ///
    /// A theme or an article that exists already is fine. A slave that fails is no
    /// error: its failure is carried inside the report.
    pub fn run_one(&mut self, task: &SlaveTask, event: SetupEvent) -> (action: SetupAction)
        ensures
            setup(
                old(self).coordinator_open,
                task@,
                event,
                final(self).coordinator_open,
                action,
            ),
            final(self).session == old(self).session,
            final(self).workspace_root == old(self).workspace_root,
    {
        match event {
            SetupEvent::Begin => SetupAction::CreateTheme { theme: task.theme.clone() },
            SetupEvent::Theme(made) => {
                if let Err(refusal) = &made {
                    if !matches!(refusal.error, ToolError::Lock(_)) {
                        return SetupAction::Finish(Err(setup_error("create theme", refusal)));
                    }
                }
                SetupAction::CreateArticle {
                    theme: task.theme.clone(),
                    file_name: task.file_name.clone(),
                    title: task.file_name.clone(),
                    notes: Some(task.task.clone()),
                }
            },
            SetupEvent::Article(made) => {
                if let Err(refusal) = &made {
                    if !matches!(refusal.error, ToolError::Lock(_)) {
                        return SetupAction::Finish(Err(setup_error("create article", refusal)));
                    }
                }
                if self.coordinator_open {
                    SetupAction::Spawn
                } else {
                    SetupAction::OpenCoordinator
                }
            },
            SetupEvent::Coordinator(opened) => match opened {
                Ok(()) => {
                    self.coordinator_open = true;
                    SetupAction::Spawn
                },
                Err(message) => SetupAction::Finish(Err(open_error(message.as_str()))),
            },
            SetupEvent::Joined(report) => SetupAction::Finish(Ok(engine::join_slave(report))),
        }
    }

    /// Plans a high-level `goal`: the session to run it with, and the state that
    /// its tools share. `opened` is what came of opening the shared coordinator,
    /// if it was not open.
    ///
    /// `slave_skill_body`, when `Some`, sets the writing skill every dispatched
    /// slave runs under.
    pub fn run_goal(
        &mut self,
        opened: std::result::Result<(), String>,
        goal: &str,
        options: SessionOptions,
        slave_model: &str,
        slave_skill_body: Option<&str>,
    ) -> (r: Result<Goal>)
        ensures
            planned(
                *old(self),
                opened,
                goal_session(old(self).workspace_root@, goal@, options),
                goal_state(slave_model@, one_body(slave_skill_body), None),
                *final(self),
                r,
            ),
    {
        self.run_goal_with_skill(opened, goal, options, slave_model, slave_skill_body, None)
    }

    /// Like [`run_goal`](Master::run_goal), with an on-disk [`SlaveSkill`] source
    /// that every dispatched slave re-reads each round.
    pub fn run_goal_with_skill(
        &mut self,
        opened: std::result::Result<(), String>,
        goal: &str,
        options: SessionOptions,
        slave_model: &str,
        slave_skill_body: Option<&str>,
        slave_skill: Option<SlaveSkill>,
    ) -> (r: Result<Goal>)
        ensures
            planned(
                *old(self),
                opened,
                goal_session(old(self).workspace_root@, goal@, options),
                goal_state(
                    slave_model@,
                    one_body(slave_skill_body),
                    engine::option_skill(slave_skill),
                ),
                *final(self),
                r,
            ),
    {
        let mut bodies: Vec<&str> = Vec::new();
        if let Some(body) = slave_skill_body {
            bodies.push(body);
        }
        assert(skill::strs(bodies@) == one_body(slave_skill_body));
        self.run_goal_with_skills(
            opened,
            goal,
            options,
            slave_model,
            bodies.as_slice(),
            slave_skill,
        )
    }

    /// Like [`run_goal_with_skill`](Master::run_goal_with_skill), with an **ordered
    /// stack** of writing-skill bodies: a later skill overrides an earlier one.
    pub fn run_goal_with_skills(
        &mut self,
        opened: std::result::Result<(), String>,
        goal: &str,
        options: SessionOptions,
        slave_model: &str,
        slave_skill_bodies: &[&str],
        slave_skill: Option<SlaveSkill>,
    ) -> (r: Result<Goal>)
        ensures
            planned(
                *old(self),
                opened,
                goal_session(old(self).workspace_root@, goal@, options),
                goal_state(
                    slave_model@,
                    skill::strs(slave_skill_bodies@),
                    engine::option_skill(slave_skill),
                ),
                *final(self),
                r,
            ),
    {
        if let Err(e) = self.coordinator(opened) {
            return Err(e);
        }
        let slave_prompt = engine::compose_slave_prompt_multi(slave_skill_bodies);
        let state = OrchestratorState::new(slave_model, slave_prompt.as_str()).with_slave_skill(
            slave_skill,
        );
        let mut session = Session::new(
            MASTER_SYSTEM_PROMPT,
            orchestration::orchestration_tools(),
            options,
        );
        session.set_workspace(self.workspace_root.as_str(), WriterId::Human);
        session.push_user(goal);
        assert(session@.history == seq![request::said(Role::User, goal@)]);
        Ok(Goal { session, state })
    }

    /// Takes a goal's run back: adopts its session, so that
    /// [`usage`](Master::usage) reflects it, and bundles how it ended with every
    /// report it collected. A fatal error of the master's own rounds is an `Err`.
    pub fn finish_goal(&mut self, goal: Goal, terminal: Step) -> (r: Result<GoalOutcome>)
        ensures
            *final(self) == (Master { session: goal.session, ..*old(self) }),
            goal_outcome(terminal, goal.state@.reports, r),
    {
        let reports = goal.state.reports();
        self.session = goal.session;
        match terminal {
            Step::Failed(e) => Err(e),
            Step::Done(text) => Ok(
                GoalOutcome { outcome: "done".to_owned(), message: text, reports },
            ),
            _ => Ok(
                GoalOutcome {
                    outcome: "need_human".to_owned(),
                    message: String::new(),
                    reports,
                },
            ),
        }
    }

    /// The cumulative token usage of the master's orchestration [`Session`].
    pub fn usage(&self) -> (usage: &UsageTotals)
        ensures
            *usage == self.session@.usage,
    {
        self.session.usage()
    }
}

} // verus!
