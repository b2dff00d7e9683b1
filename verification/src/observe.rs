//! The events that the writing layers emit, and the sinks that consume them.

use vstd::prelude::*;

verus! {

/// One observable step in the AI writing process.
#[derive(Debug, Clone, PartialEq, Eq)]
#[non_exhaustive]
pub enum Event {
    /// A session began a run.
    SessionStarted {
        /// A short role label for the session (e.g. `"slave"` / `"master"`).
        role: String,
        /// The leading characters of the system prompt, truncated for display.
        system_excerpt: String,
    },
    /// A new round started.
    RoundStarted {
        /// The 1-based round number within the current run.
        round: u32,
    },
    /// The model produced assistant text.
    ModelMessage {
        /// The assistant text the model returned this round.
        text: String,
    },
    /// A tool is about to be dispatched.
    ToolCalled {
        /// The name of the tool being dispatched.
        name: String,
        /// The arguments the model passed, as JSON text.
        args: String,
    },
    /// A tool finished.
    ToolResult {
        /// The name of the tool that ran.
        name: String,
        /// `true` if the tool returned `Ok`.
        ok: bool,
        /// A short, display-oriented summary of the result or error.
        summary: String,
    },
    /// A tool call produced a version-control commit.
    EditCommitted {
        /// The edited article, as `"<theme>/<file_name>"`.
        article: String,
        /// The commit author, rendered as the writer's provenance identity.
        author: String,
        /// The abbreviated commit SHA the edit was recorded under.
        sha: String,
    },
    /// A slave thread was dispatched to write one article.
    SlaveSpawned {
        /// The theme the slave's article lives in.
        theme: String,
        /// The article file the slave will write.
        file: String,
        /// The writer identity the slave operates under.
        writer: String,
    },
    /// A slave finished and its report was collected.
    SlaveReported {
        /// The slave's terminal status (`"done"` / `"needs_human"` / `"failed"`).
        status: String,
        /// The slave's short summary of what happened.
        summary: String,
    },
    /// A run reached a terminal step: `"done"`, `"need_human"`, or `"failed"`.
    Finished {
        /// The terminal outcome of the run.
        outcome: String,
    },
    /// A transaction has to wait.
    TxnQueued {
        /// The tag of the waiting writer.
        writer: String,
        /// How many tickets stand before it.
        ahead: usize,
    },
    /// A transaction holds its locks and runs.
    TxnAcquired {
        /// The tag of the running writer.
        writer: String,
        /// The paths it holds, in canonical order.
        paths: Vec<String>,
    },
    /// A transaction has given its locks back.
    TxnReleased {
        /// The tag of the writer that ran.
        writer: String,
    },
    /// It is the human's turn to edit an article.
    HandoffToHuman {
        /// The theme of the article.
        theme: String,
        /// The file name of the article.
        file: String,
    },
}

/// An event, as contracts see one.
#[verifier::ext_equal]
pub enum EventView {
    /// See [`Event::SessionStarted`].
    SessionStarted {
        /// The role label.
        role: Seq<char>,
        /// The start of the system prompt.
        system_excerpt: Seq<char>,
    },
    /// See [`Event::RoundStarted`].
    RoundStarted {
        /// The round.
        round: u32,
    },
    /// See [`Event::ModelMessage`].
    ModelMessage {
        /// The text.
        text: Seq<char>,
    },
    /// See [`Event::ToolCalled`].
    ToolCalled {
        /// The tool.
        name: Seq<char>,
        /// The arguments.
        args: Seq<char>,
    },
    /// See [`Event::ToolResult`].
    ToolResult {
        /// The tool.
        name: Seq<char>,
        /// Whether it succeeded.
        ok: bool,
        /// What it said.
        summary: Seq<char>,
    },
    /// See [`Event::EditCommitted`].
    EditCommitted {
        /// The article.
        article: Seq<char>,
        /// The author.
        author: Seq<char>,
        /// The commit.
        sha: Seq<char>,
    },
    /// See [`Event::SlaveSpawned`].
    SlaveSpawned {
        /// The theme.
        theme: Seq<char>,
        /// The file.
        file: Seq<char>,
        /// The writer.
        writer: Seq<char>,
    },
    /// See [`Event::SlaveReported`].
    SlaveReported {
        /// The status.
        status: Seq<char>,
        /// The summary.
        summary: Seq<char>,
    },
    /// See [`Event::Finished`].
    Finished {
        /// The outcome.
        outcome: Seq<char>,
    },
    /// See [`Event::TxnQueued`].
    TxnQueued {
        /// The writer.
        writer: Seq<char>,
        /// How many are ahead.
        ahead: usize,
    },
    /// See [`Event::TxnAcquired`].
    TxnAcquired {
        /// The writer.
        writer: Seq<char>,
        /// The paths.
        paths: Seq<Seq<char>>,
    },
    /// See [`Event::TxnReleased`].
    TxnReleased {
        /// The writer.
        writer: Seq<char>,
    },
    /// See [`Event::HandoffToHuman`].
    HandoffToHuman {
        /// The theme.
        theme: Seq<char>,
        /// The file.
        file: Seq<char>,
    },
}

impl View for Event {
    type V = EventView;

    open spec fn view(&self) -> EventView {
        match self {
            Event::SessionStarted { role, system_excerpt } => EventView::SessionStarted {
                role: role@,
                system_excerpt: system_excerpt@,
            },
            Event::RoundStarted { round } => EventView::RoundStarted { round: *round },
            Event::ModelMessage { text } => EventView::ModelMessage { text: text@ },
            Event::ToolCalled { name, args } => EventView::ToolCalled { name: name@, args: args@ },
            Event::ToolResult { name, ok, summary } => EventView::ToolResult {
                name: name@,
                ok: *ok,
                summary: summary@,
            },
            Event::EditCommitted { article, author, sha } => EventView::EditCommitted {
                article: article@,
                author: author@,
                sha: sha@,
            },
            Event::SlaveSpawned { theme, file, writer } => EventView::SlaveSpawned {
                theme: theme@,
                file: file@,
                writer: writer@,
            },
            Event::SlaveReported { status, summary } => EventView::SlaveReported {
                status: status@,
                summary: summary@,
            },
            Event::Finished { outcome } => EventView::Finished { outcome: outcome@ },
            Event::TxnQueued { writer, ahead } => EventView::TxnQueued {
                writer: writer@,
                ahead: *ahead,
            },
            Event::TxnAcquired { writer, paths } => EventView::TxnAcquired {
                writer: writer@,
                paths: crate::text::views(paths@),
            },
            Event::TxnReleased { writer } => EventView::TxnReleased { writer: writer@ },
            Event::HandoffToHuman { theme, file } => EventView::HandoffToHuman {
                theme: theme@,
                file: file@,
            },
        }
    }
}

/// What contracts see of a list of events.
pub open spec fn events_view(events: Seq<Event>) -> Seq<EventView> {
    Seq::new(events.len(), |i: int| events[i]@)
}

/// A consumer of [`Event`]s emitted by the writing layers.
///
/// A sink may be emitted to from multiple threads. Implementations must not block
/// the caller.
pub trait EventSink: Send + Sync {
    /// Consumes one [`Event`].
    fn emit(&self, event: Event);
}

/// An [`EventSink`] that discards every event.
#[derive(Debug, Clone, Copy, Default)]
pub struct NullSink;

impl EventSink for NullSink {
    fn emit(&self, event: Event) {
    }
}

/// The events that tell of transactions are seen as they are.
pub proof fn law_transaction_events_are_seen_as_they_are(event: Event, seen: EventView)
    requires
        event@ == seen,
    ensures
        seen matches EventView::TxnQueued { writer, ahead } ==> (
        event matches Event::TxnQueued { writer: w, ahead: a } && w@ == writer && a == ahead),
        seen matches EventView::TxnAcquired { writer, paths } ==> (
        event matches Event::TxnAcquired { writer: w, paths: p } && w@ == writer && p@.len()
            == paths.len() && (forall|i: int|
            0 <= i < paths.len() ==> (#[trigger] p@[i])@ == paths[i])),
        seen matches EventView::TxnReleased { writer } ==> (event matches Event::TxnReleased {
            writer: w,
        } && w@ == writer),
        seen matches EventView::HandoffToHuman { theme, file } ==> (
        event matches Event::HandoffToHuman { theme: t, file: f } && t@ == theme && f@ == file),
{
}

} // verus!
