//! The master's orchestration tools and their shared state.
//!
//! Each tool says what it is called and what it takes, and decides what to ask of
//! the workspace and what to tell the model. The workspace operations themselves,
//! and the threads that writers run on, belong to whoever drives the tools.

use crate::content;
use crate::engine;
use crate::engine::{ReportView, SlaveReport, SlaveSkill, SlaveSkillView, SlaveTask, TaskView};
use crate::req::types::request;
use crate::req::types::request::{FunctionDef, Tool, ToolView};
use crate::text;
use crate::tool::{ToolError, ToolRegistry, WriterId};
use vstd::prelude::*;
use vstd::string::StringExecFns;

verus! {

// ---------------------------------------------------------------------------
// Definitions
// ---------------------------------------------------------------------------

/// What `create_theme` is for.
pub const CREATE_THEME_DESCRIPTION: &'static str = "Create a theme (a top-level directory grouping related articles) for this writing goal. If the theme already exists this is a no-op. Create the theme before creating articles or dispatching writers into it.";

/// The parameters of `create_theme`, as a JSON Schema.
pub const CREATE_THEME_PARAMETERS: &'static str = r#"{"properties":{"theme":{"description":"The theme name (a single path segment).","type":"string"}},"required":["theme"],"type":"object"}"#;

/// What `create_article` is for.
pub const CREATE_ARTICLE_DESCRIPTION: &'static str = "Create an empty article file inside a theme and add it to the reading-order index, so a writer can later be dispatched to fill it in. If the article already exists this is a no-op.";

/// The parameters of `create_article`, as a JSON Schema.
pub const CREATE_ARTICLE_PARAMETERS: &'static str = r#"{"properties":{"file_name":{"description":"The article file name (a single path segment, e.g. `intro.md`).","type":"string"},"notes":{"description":"Optional notes, e.g. what this article should cover.","type":"string"},"theme":{"description":"The theme the article belongs to.","type":"string"},"title":{"description":"A human-readable title for the article.","type":"string"}},"required":["theme","file_name"],"type":"object"}"#;

/// What `list_articles` is for.
pub const LIST_ARTICLES_DESCRIPTION: &'static str = "List the article file names that currently exist in a theme, in reading order. Use this to see what you have already created before planning more.";

/// The parameters of `list_articles`, as a JSON Schema.
pub const LIST_ARTICLES_PARAMETERS: &'static str = r#"{"properties":{"theme":{"description":"The theme to list.","type":"string"}},"required":["theme"],"type":"object"}"#;

/// What `organize_articles` is for.
pub const ORGANIZE_ARTICLES_DESCRIPTION: &'static str = "Organize a theme's articles into a logical hierarchy and reading order. Provide `relations` to set each article's parent (use a null or omitted parent for a top-level article), and/or `order` to set the full reading order (must list every article in the theme exactly once). Articles and parents must already exist; a parent may not form a cycle. Use this after creating the articles to express how they relate and the sequence a reader should follow.";

/// The parameters of `organize_articles`, as a JSON Schema.
pub const ORGANIZE_ARTICLES_PARAMETERS: &'static str = r#"{"properties":{"order":{"description":"Optional full reading order: every article file name in the theme, exactly once.","items":{"type":"string"},"type":"array"},"relations":{"description":"Parent assignments; each sets one article's parent.","items":{"properties":{"file_name":{"description":"The article whose parent to set.","type":"string"},"parent":{"description":"The parent article's file name; null or omitted for top-level.","type":"string"}},"required":["file_name"],"type":"object"},"type":"array"},"theme":{"description":"The theme whose articles to organize.","type":"string"}},"required":["theme"],"type":"object"}"#;

/// What `dispatch_writer` is for.
pub const DISPATCH_WRITER_DESCRIPTION: &'static str = "Dispatch a writing agent (a slave) to research, write, and revise ONE article, then report back. The article and its theme must already exist (call create_theme / create_article first). This blocks until the writer finishes and returns its structured report (status, summary, result, needs). Dispatch one writer per article; inspect each report and decide whether to dispatch more, then finish.";

/// The parameters of `dispatch_writer`, as a JSON Schema.
pub const DISPATCH_WRITER_PARAMETERS: &'static str = r#"{"properties":{"file_name":{"description":"The article file the writer should fill in.","type":"string"},"label":{"description":"Optional short label distinguishing this writer (e.g. `intro-writer`). Defaults to the file name.","type":"string"},"task":{"description":"The writing task: what this article should cover, in natural language.","type":"string"},"theme":{"description":"The theme the article belongs to.","type":"string"}},"required":["theme","file_name","task"],"type":"object"}"#;

/// What `list_reports` is for.
pub const LIST_REPORTS_DESCRIPTION: &'static str = "List the structured reports of every writer dispatched so far, in dispatch order. Use this to review progress before deciding whether the goal is complete.";

/// The parameters of `list_reports`, as a JSON Schema.
pub const LIST_REPORTS_PARAMETERS: &'static str = r#"{"properties":{},"type":"object"}"#;

/// A tool, as it is advertised.
pub open spec fn advertised(
    name: Seq<char>,
    description: Seq<char>,
    parameters: Seq<char>,
) -> ToolView {
    ToolView { name, description: Some(description), parameters: Some(parameters) }
}

/// Builds a [`Tool`] from a name, a description, and a JSON Schema parameter
/// object.
fn def(name: &str, description: &str, parameters: &str) -> (tool: Tool)
    ensures
        tool@ == advertised(name@, description@, parameters@),
{
    Tool::function(
        FunctionDef {
            name: name.to_owned(),
            description: Some(description.to_owned()),
            parameters: Some(parameters.to_owned()),
        },
    )
}

/// The tools of an orchestration session, in the order in which they are
/// advertised.
pub open spec fn tool_set() -> Seq<ToolView> {
    seq![
        advertised("create_theme"@, CREATE_THEME_DESCRIPTION@, CREATE_THEME_PARAMETERS@),
        advertised("create_article"@, CREATE_ARTICLE_DESCRIPTION@, CREATE_ARTICLE_PARAMETERS@),
        advertised("list_articles"@, LIST_ARTICLES_DESCRIPTION@, LIST_ARTICLES_PARAMETERS@),
        advertised(
            "organize_articles"@,
            ORGANIZE_ARTICLES_DESCRIPTION@,
            ORGANIZE_ARTICLES_PARAMETERS@,
        ),
        advertised("dispatch_writer"@, DISPATCH_WRITER_DESCRIPTION@, DISPATCH_WRITER_PARAMETERS@),
        advertised("list_reports"@, LIST_REPORTS_DESCRIPTION@, LIST_REPORTS_PARAMETERS@),
    ]
}

/// Builds the master's orchestration [`ToolRegistry`].
pub fn orchestration_tools() -> (registry: ToolRegistry)
    ensures
        request::tools_view(registry.tools@) == tool_set(),
{
    let mut registry = ToolRegistry::new();
    registry.register(CreateTheme.schema());
    registry.register(CreateArticle.schema());
    registry.register(ListArticles.schema());
    registry.register(OrganizeArticles.schema());
    registry.register(DispatchWriter.schema());
    registry.register(ListReports.schema());
    registry
}

/// The path of an article within the workspace.
pub open spec fn article_path(theme: Seq<char>, file_name: Seq<char>) -> Seq<char> {
    theme + "/"@ + file_name
}

fn path_of(theme: &str, file_name: &str) -> (path: String)
    ensures
        path@ == article_path(theme@, file_name@),
{
    let mut path = theme.to_owned();
    path.append("/");
    path.append(file_name);
    path
}

// ---------------------------------------------------------------------------
// Theme / article structure
// ---------------------------------------------------------------------------

/// Creates a theme directory the master's articles will live in.
pub struct CreateTheme;

/// What the model is told of a theme that it asked for.
#[derive(Debug, PartialEq, Eq)]
pub struct ThemeReply {
    /// The theme.
    pub theme: String,
    /// Whether it was created; else it was there already.
    pub created: bool,
}

impl CreateTheme {
    /// The tool's name.
    pub fn name(&self) -> (name: &'static str)
        ensures
            name@ == "create_theme"@,
    {
        "create_theme"
    }

    /// The tool's definition.
    pub fn schema(&self) -> (tool: Tool)
        ensures
            tool@ == tool_set()[0],
    {
        def("create_theme", CREATE_THEME_DESCRIPTION, CREATE_THEME_PARAMETERS)
    }

    /// What the model is told, given the workspace's reply: an already-existing
    /// theme is a benign no-op.
    pub fn call(&self, theme: String, made: Result<String, ToolError>) -> (r: Result<
        ThemeReply,
        ToolError,
    >)
        ensures
            match made {
                Ok(name) => r == Result::<ThemeReply, ToolError>::Ok(
                    ThemeReply { theme: name, created: true },
                ),
                Err(ToolError::Lock(_)) => r == Result::<ThemeReply, ToolError>::Ok(
                    ThemeReply { theme, created: false },
                ),
                Err(e) => r == Result::<ThemeReply, ToolError>::Err(e),
            },
    {
        match made {
            Ok(name) => Ok(ThemeReply { theme: name, created: true }),
            Err(ToolError::Lock(_)) => Ok(ThemeReply { theme, created: false }),
            Err(e) => Err(e),
        }
    }
}

/// Creates one empty article file inside a theme and records it in the index.
pub struct CreateArticle;

/// What the model asks for with `create_article`.
#[derive(Debug, PartialEq, Eq)]
pub struct CreateArticleArgs {
    /// The theme.
    pub theme: String,
    /// The file.
    pub file_name: String,
    /// The title; empty, where the model gave none.
    pub title: String,
    /// Notes.
    pub notes: Option<String>,
}

/// What the model is told of an article that it asked for.
#[derive(Debug, PartialEq, Eq)]
pub struct ArticleReply {
    /// The article, as `"<theme>/<file_name>"`.
    pub article: String,
    /// Whether it was created; else it was there already.
    pub created: bool,
}

impl CreateArticle {
    /// The tool's name.
    pub fn name(&self) -> (name: &'static str)
        ensures
            name@ == "create_article"@,
    {
        "create_article"
    }

    /// The tool's definition.
    pub fn schema(&self) -> (tool: Tool)
        ensures
            tool@ == tool_set()[1],
    {
        def("create_article", CREATE_ARTICLE_DESCRIPTION, CREATE_ARTICLE_PARAMETERS)
    }

    /// The title to create the article under: the file name, where the model gave
    /// none.
    pub fn title(&self, args: &CreateArticleArgs) -> (title: String)
        ensures
            title@ == if args.title@.len() == 0 {
                args.file_name@
            } else {
                args.title@
            },
    {
        if args.title.as_str().is_empty() {
            args.file_name.clone()
        } else {
            args.title.clone()
        }
    }

    /// What the model is told, given the workspace's reply: an already-existing
    /// article is a benign no-op.
    pub fn call(&self, args: &CreateArticleArgs, made: Result<(), ToolError>) -> (r: Result<
        ArticleReply,
        ToolError,
    >)
        ensures
            match made {
                Ok(_) => r matches Ok(reply) && reply.article@ == article_path(
                    args.theme@,
                    args.file_name@,
                ) && reply.created,
                Err(ToolError::Lock(_)) => r matches Ok(reply) && reply.article@ == article_path(
                    args.theme@,
                    args.file_name@,
                ) && !reply.created,
                Err(e) => r == Result::<ArticleReply, ToolError>::Err(e),
            },
    {
        let article = path_of(args.theme.as_str(), args.file_name.as_str());
        match made {
            Ok(()) => Ok(ArticleReply { article, created: true }),
            Err(ToolError::Lock(_)) => Ok(ArticleReply { article, created: false }),
            Err(e) => Err(e),
        }
    }
}

/// Lists the article file names currently in a theme, in reading order.
pub struct ListArticles;

impl ListArticles {
    /// The tool's name.
    pub fn name(&self) -> (name: &'static str)
        ensures
            name@ == "list_articles"@,
    {
        "list_articles"
    }

    /// The tool's definition.
    pub fn schema(&self) -> (tool: Tool)
        ensures
            tool@ == tool_set()[2],
    {
        def("list_articles", LIST_ARTICLES_DESCRIPTION, LIST_ARTICLES_PARAMETERS)
    }
}

/// Organizes a theme's articles into a logical hierarchy (parent/child) and an
/// optional reading order, in one call.
pub struct OrganizeArticles;

/// One parent assignment in an [`OrganizeArticles`] call.
#[derive(Debug, PartialEq, Eq)]
pub struct Relation {
    /// The article.
    pub file_name: String,
    /// Its parent; none for a top-level article.
    pub parent: Option<String>,
}

/// What the model asks for with `organize_articles`.
#[derive(Debug, PartialEq, Eq)]
pub struct OrganizeArgs {
    /// The theme.
    pub theme: String,
    /// The parents to set.
    pub relations: Vec<Relation>,
    /// The reading order to set, if one is.
    pub order: Option<Vec<String>>,
}

/// What the model is told when the articles are organized.
#[derive(Debug, PartialEq, Eq)]
pub struct OrganizeReply {
    /// The theme.
    pub theme: String,
    /// How many parents were set.
    pub relations_set: usize,
    /// Whether a reading order was set.
    pub reordered: bool,
}

/// What is to be done next to organize a theme's articles.
#[derive(Debug, PartialEq, Eq)]
pub enum OrganizeAction {
    /// Set an article's parent.
    SetParent {
        /// The theme.
        theme: String,
        /// The article.
        file_name: String,
        /// Its parent.
        parent: Option<String>,
    },
    /// Set the reading order.
    Reorder {
        /// The theme.
        theme: String,
        /// The order.
        order: Vec<String>,
    },
    /// This is what the model is told.
    Finish(Result<OrganizeReply, ToolError>),
}

/// What is to be done after `done` operations, the last of which came out as
/// `last`: the parents are set one by one, then the order; the first error ends
/// it.
pub open spec fn organizes(
    args: OrganizeArgs,
    done: usize,
    last: Result<(), ToolError>,
    action: OrganizeAction,
) -> bool {
    match last {
        Err(e) => action == OrganizeAction::Finish(Err(e)),
        Ok(_) => if done < args.relations@.len() {
            action matches OrganizeAction::SetParent { theme, file_name, parent } && theme@
                == args.theme@ && file_name@ == args.relations@[done as int].file_name@
                && content::option_view(parent) == content::option_view(
                args.relations@[done as int].parent,
            )
        } else if done == args.relations@.len() && args.order is Some {
            action matches OrganizeAction::Reorder { theme, order } && theme@ == args.theme@
                && text::views(order@) == text::views(args.order->0@)
        } else {
            action matches OrganizeAction::Finish(Ok(reply)) && reply.theme@ == args.theme@
                && reply.relations_set == args.relations@.len() && reply.reordered == (args.order
                is Some)
        },
    }
}

impl OrganizeArticles {
    /// The tool's name.
    pub fn name(&self) -> (name: &'static str)
        ensures
            name@ == "organize_articles"@,
    {
        "organize_articles"
    }

    /// The tool's definition.
    pub fn schema(&self) -> (tool: Tool)
        ensures
            tool@ == tool_set()[3],
    {
        def("organize_articles", ORGANIZE_ARTICLES_DESCRIPTION, ORGANIZE_ARTICLES_PARAMETERS)
    }

    /// Organizes the articles, a workspace operation at a time: says what is to be
    /// done after `done` operations, the last of which came out as `last` (before
    /// the first, `Ok`).
    pub fn call(&self, args: &OrganizeArgs, done: usize, last: Result<(), ToolError>) -> (action:
        OrganizeAction)
        ensures
            organizes(*args, done, last, action),
    {
        if let Err(e) = last {
            return OrganizeAction::Finish(Err(e));
        }
        if done < args.relations.len() {
            let relation = &args.relations[done];
            return OrganizeAction::SetParent {
                theme: args.theme.clone(),
                file_name: relation.file_name.clone(),
                parent: relation.parent.clone(),
            };
        }
        match &args.order {
            Some(order) => {
                if done == args.relations.len() {
                    let copy = order.clone();
                    assert(text::views(copy@) == text::views(order@));
                    return OrganizeAction::Reorder { theme: args.theme.clone(), order: copy };
                }
            },
            None => {},
        }
        OrganizeAction::Finish(
            Ok(
                OrganizeReply {
                    theme: args.theme.clone(),
                    relations_set: args.relations.len(),
                    reordered: args.order.is_some(),
                },
            ),
        )
    }
}

// ---------------------------------------------------------------------------
// Dispatch / report
// ---------------------------------------------------------------------------

/// The state behind the master's dispatch and report tools.
#[derive(Debug)]
pub struct OrchestratorState {
    /// The model id slaves run under, recorded as their writer identity.
    pub slave_model: String,
    /// The composed system prompt every dispatched slave runs under; the fallback,
    /// where a skill source is set.
    pub slave_prompt: String,
    /// An optional on-disk skill source each dispatched slave re-reads per round.
    pub slave_skill: Option<SlaveSkill>,
    /// Every report collected so far, in dispatch order.
    pub reports: Vec<SlaveReport>,
}

/// The orchestration state, as contracts see it.
#[verifier::ext_equal]
pub struct OrchestratorView {
    /// The model.
    pub slave_model: Seq<char>,
    /// The prompt.
    pub slave_prompt: Seq<char>,
    /// The skills.
    pub slave_skill: Option<SlaveSkillView>,
    /// The reports.
    pub reports: Seq<ReportView>,
}

impl View for OrchestratorState {
    type V = OrchestratorView;

    open spec fn view(&self) -> OrchestratorView {
        OrchestratorView {
            slave_model: self.slave_model@,
            slave_prompt: self.slave_prompt@,
            slave_skill: engine::option_skill(self.slave_skill),
            reports: engine::reports_view(self.reports@),
        }
    }
}

/// Whether a task is one that this state dispatches: under its own model, prompt
/// and skills, whatever the model asked for.
pub open spec fn dispatches(
    state: OrchestratorView,
    theme: Seq<char>,
    file_name: Seq<char>,
    task: Seq<char>,
    label: Seq<char>,
    dispatched: TaskView,
) -> bool {
    &&& dispatched.theme == theme
    &&& dispatched.file_name == file_name
    &&& dispatched.task == task
    &&& dispatched.writer@ == content::Author::Agent { model: state.slave_model, label }
    &&& dispatched.system_prompt == Some(state.slave_prompt)
    &&& dispatched.skill == state.slave_skill
}

impl OrchestratorState {
    /// Creates orchestration state with no reports collected yet.
    pub fn new(slave_model: &str, slave_prompt: &str) -> (state: Self)
        ensures
            state@ == (OrchestratorView {
                slave_model: slave_model@,
                slave_prompt: slave_prompt@,
                slave_skill: None,
                reports: Seq::empty(),
            }),
    {
        OrchestratorState {
            slave_model: slave_model.to_owned(),
            slave_prompt: slave_prompt.to_owned(),
            slave_skill: None,
            reports: Vec::new(),
        }
    }

    /// Sets the on-disk skill source every dispatched slave re-reads per round.
    pub fn with_slave_skill(self, skill: Option<SlaveSkill>) -> (state: Self)
        ensures
            state@ == (OrchestratorView { slave_skill: engine::option_skill(skill), ..self@ }),
    {
        let mut state = self;
        state.slave_skill = skill;
        state
    }

    /// Every [`SlaveReport`] collected so far, in dispatch order.
    pub fn reports(&self) -> (reports: Vec<SlaveReport>)
        ensures
            engine::reports_view(reports@) == self@.reports,
    {
        let reports = self.reports.clone();
        assert(engine::reports_view(reports@) == engine::reports_view(self.reports@));
        reports
    }

    /// The task to spawn a slave with.
    pub fn task(&self, theme: &str, file_name: &str, task: &str, label: &str) -> (dispatched:
        SlaveTask)
        ensures
            dispatches(self@, theme@, file_name@, task@, label@, dispatched@),
    {
        SlaveTask {
            theme: theme.to_owned(),
            file_name: file_name.to_owned(),
            task: task.to_owned(),
            writer: WriterId::Agent {
                model: self.slave_model.clone(),
                label: label.to_owned(),
            },
            system_prompt: Some(self.slave_prompt.clone()),
            skill: engine::copy_skill(&self.slave_skill),
        }
    }

    /// Records the report of a dispatched slave, given what its thread returned,
    /// if it did not panic, and hands the report on.
    pub fn dispatch(&mut self, joined: Option<SlaveReport>) -> (report: SlaveReport)
        ensures
            report@ == engine::joined(engine::option_report(joined)),
            final(self)@ == (OrchestratorView {
                reports: old(self)@.reports.push(report@),
                ..old(self)@
            }),
    {
        let report = engine::join_slave(joined);
        self.reports.push(report.clone());
        assert(self@.reports == old(self)@.reports.push(report@));
        report
    }
}

/// Spawns a slave to write one article and records its [`SlaveReport`].
pub struct DispatchWriter;

/// What the model asks for with `dispatch_writer`.
#[derive(Debug, PartialEq, Eq)]
pub struct DispatchWriterArgs {
    /// The theme.
    pub theme: String,
    /// The file.
    pub file_name: String,
    /// The task.
    pub task: String,
    /// A label for the writer; the file name, where the model gave none.
    pub label: Option<String>,
}

/// What the model is told of a writer that it dispatched.
#[derive(Debug, PartialEq, Eq)]
pub struct DispatchReply {
    /// The article, as `"<theme>/<file_name>"`.
    pub article: String,
    /// The writer's report.
    pub report: SlaveReport,
}

/// What an empty task is rejected with.
pub const EMPTY_TASK: &'static str = "`task` must not be empty";

/// The label that a writer is dispatched under.
pub open spec fn writer_label(args: DispatchWriterArgs) -> Seq<char> {
    match args.label {
        Some(label) => label@,
        None => args.file_name@,
    }
}

impl DispatchWriter {
    /// The tool's name.
    pub fn name(&self) -> (name: &'static str)
        ensures
            name@ == "dispatch_writer"@,
    {
        "dispatch_writer"
    }

    /// The tool's definition.
    pub fn schema(&self) -> (tool: Tool)
        ensures
            tool@ == tool_set()[4],
    {
        def("dispatch_writer", DISPATCH_WRITER_DESCRIPTION, DISPATCH_WRITER_PARAMETERS)
    }

    /// The task to spawn a slave with; a blank task is rejected.
    pub fn prepare(&self, state: &OrchestratorState, args: &DispatchWriterArgs) -> (r: Result<
        SlaveTask,
        ToolError,
    >)
        ensures
            if text::trimmed(args.task@).len() == 0 {
                r matches Err(ToolError::InvalidArgs(m)) && m@ == EMPTY_TASK@
            } else {
                r matches Ok(task) && dispatches(
                    state@,
                    args.theme@,
                    args.file_name@,
                    args.task@,
                    writer_label(*args),
                    task@,
                )
            },
    {
        if text::trim(args.task.as_str()).as_str().is_empty() {
            return Err(ToolError::InvalidArgs(EMPTY_TASK.to_owned()));
        }
        let label = match &args.label {
            Some(label) => label.as_str(),
            None => args.file_name.as_str(),
        };
        Ok(state.task(args.theme.as_str(), args.file_name.as_str(), args.task.as_str(), label))
    }

    /// Records the report of the slave and tells the model of it.
    pub fn call(
        &self,
        state: &mut OrchestratorState,
        args: &DispatchWriterArgs,
        joined: Option<SlaveReport>,
    ) -> (reply: DispatchReply)
        ensures
            reply.article@ == article_path(args.theme@, args.file_name@),
            reply.report@ == engine::joined(engine::option_report(joined)),
            final(state)@ == (OrchestratorView {
                reports: old(state)@.reports.push(reply.report@),
                ..old(state)@
            }),
    {
        let report = state.dispatch(joined);
        DispatchReply { article: path_of(args.theme.as_str(), args.file_name.as_str()), report }
    }
}

/// Surfaces every [`SlaveReport`] collected so far back to the model.
pub struct ListReports;

/// What the model is told of the reports so far.
#[derive(Debug, PartialEq, Eq)]
pub struct ReportsReply {
    /// How many there are.
    pub count: usize,
    /// The reports, in dispatch order.
    pub reports: Vec<SlaveReport>,
}

impl ListReports {
    /// The tool's name.
    pub fn name(&self) -> (name: &'static str)
        ensures
            name@ == "list_reports"@,
    {
        "list_reports"
    }

    /// The tool's definition.
    pub fn schema(&self) -> (tool: Tool)
        ensures
            tool@ == tool_set()[5],
    {
        def("list_reports", LIST_REPORTS_DESCRIPTION, LIST_REPORTS_PARAMETERS)
    }

    /// What the model is told: every report so far.
    pub fn call(&self, state: &OrchestratorState) -> (reply: ReportsReply)
        ensures
            reply.count == state@.reports.len(),
            engine::reports_view(reply.reports@) == state@.reports,
    {
        let reports = state.reports();
        assert(engine::reports_view(reports@).len() == reports@.len());
        ReportsReply { count: reports.len(), reports }
    }
}

} // verus!
