//! The operation-level transaction coordinator.
//!
//! Every mutating operation on the workspace is a transaction. It declares the
//! paths it will touch up front, as a [`LockSet`], and is granted **all of them or
//! none**. Humans and agents wait in one queue: a [`Priority::Human`] ticket goes
//! ahead of every waiting agent but never preempts a running transaction. One
//! transaction runs at a time, and what it touched is committed once, before its
//! locks are released.
//!
//! [`Coordinator`] is the state machine of this: each step takes the state to the
//! next one and says which events to emit. Waiting, writing files and committing
//! are its caller's part.

use crate::content::Author;
use crate::path;
use crate::path::Standing;
use crate::text;
use crate::tool::{ToolError, WriterId};
use vstd::prelude::*;
use vstd::string::StringExecFns;

pub mod laws;
pub mod plan;
pub mod state;

pub use self::plan::{ArticleStep, Closing, MergePlan, NewArticle, SplitPlan, Transaction, TxnCtx};
pub use self::state::{Coordinator, RequestEditOutcome, Reservation, Ticket};

verus! {

/// The scheduling priority of a transaction.
#[derive(Debug, Clone, Copy, PartialEq, Eq, Structural)]
pub enum Priority {
    /// A human-initiated transaction: jumps to the queue head, does not preempt.
    Human,
    /// An agent-initiated transaction: ordinary FIFO ordering.
    Agent,
}

/// The priority of a writer.
pub open spec fn priority_of(writer: Author) -> Priority {
    match writer {
        Author::Human => Priority::Human,
        Author::Agent { model: _, label: _ } => Priority::Agent,
    }
}

impl Priority {
    /// Derives the scheduling priority from a [`WriterId`].
    pub fn for_writer(writer: &WriterId) -> (priority: Self)
        ensures
            priority == priority_of(writer@),
    {
        match writer {
            WriterId::Human => Priority::Human,
            WriterId::Agent { model: _, label: _ } => Priority::Agent,
        }
    }
}

// ---------------------------------------------------------------------------
// Lock sets
// ---------------------------------------------------------------------------

/// Whether `paths` stand in canonical order, none of them twice.
pub open spec fn sorted(paths: Seq<Seq<char>>) -> bool {
    forall|i: int, j: int|
        0 <= i < j < paths.len() ==> path::path_before(#[trigger] paths[i], #[trigger] paths[j])
}

/// Whether one of `paths` is the path `p`.
pub open spec fn holds(paths: Seq<Seq<char>>, p: Seq<char>) -> bool {
    exists|i: int| 0 <= i < paths.len() && path::same_path(#[trigger] paths[i], p)
}

/// How many of `paths`, from the front, come before `p`.
pub open spec fn place(paths: Seq<Seq<char>>, p: Seq<char>) -> int
    decreases paths.len(),
{
    if paths.len() > 0 && path::path_before(paths[0], p) {
        1 + place(paths.drop_first(), p)
    } else {
        0
    }
}

/// `paths` with `p` in its place, unless it is there already.
pub open spec fn with_path(paths: Seq<Seq<char>>, p: Seq<char>) -> Seq<Seq<char>> {
    if holds(paths, p) {
        paths
    } else {
        paths.insert(place(paths, p), p)
    }
}

/// The set of workspace-relative paths a transaction declares it will touch, in
/// canonical order. Two sets are equal where their paths are, however they are
/// spelled.
#[derive(Debug)]
pub struct LockSet {
    paths: Vec<String>,
}

impl View for LockSet {
    type V = Seq<Seq<char>>;

    closed spec fn view(&self) -> Seq<Seq<char>> {
        text::views(self.paths@)
    }
}

/// Whether two lists name the same paths, in the same order.
pub open spec fn same_paths(a: Seq<Seq<char>>, b: Seq<Seq<char>>) -> bool {
    &&& a.len() == b.len()
    &&& forall|i: int| 0 <= i < a.len() ==> path::same_path(#[trigger] a[i], b[i])
}

impl PartialEq for LockSet {
    fn eq(&self, other: &Self) -> (same: bool) {
        if self.paths.len() != other.paths.len() {
            return false;
        }
        let mut i: usize = 0;
        while i < self.paths.len()
            invariant
                i <= self.paths@.len(),
                self.paths@.len() == other.paths@.len(),
                forall|k: int| 0 <= k < i ==> path::same_path(#[trigger] self@[k], other@[k]),
            decreases self.paths@.len() - i,
        {
            assert(self@[i as int] == self.paths@[i as int]@);
            assert(other@[i as int] == other.paths@[i as int]@);
            if path::standing(self.paths[i].as_str(), other.paths[i].as_str()) != Standing::Same {
                assert(!same_paths(self@, other@));
                return false;
            }
            i += 1;
        }
        true
    }
}

impl vstd::std_specs::cmp::PartialEqSpecImpl for LockSet {
    open spec fn obeys_eq_spec() -> bool {
        true
    }

    open spec fn eq_spec(&self, other: &Self) -> bool {
        same_paths(self@, other@)
    }
}

impl Eq for LockSet {

}

impl Clone for LockSet {
    fn clone(&self) -> (copy: Self)
        ensures
            copy@ == self@,
    {
        let copy = LockSet { paths: self.paths.clone() };
        assert(copy@ == self@);
        copy
    }
}

impl Default for LockSet {
    fn default() -> (empty: Self)
        ensures
            empty.wf(),
            empty@ == Seq::<Seq<char>>::empty(),
    {
        let empty = LockSet { paths: Vec::new() };
        assert(empty@ == Seq::<Seq<char>>::empty());
        empty
    }
}

impl LockSet {
    /// The paths stand in canonical order, none of them twice.
    pub open spec fn wf(&self) -> bool {
        sorted(self@)
    }

    /// Creates an empty lock set.
    pub fn new() -> (empty: Self)
        ensures
            empty.wf(),
            empty@ == Seq::<Seq<char>>::empty(),
    {
        LockSet::default()
    }

    /// Adds a workspace-relative path to the declared set, returning the set for
    /// chaining. A duplicate path is a no-op.
    pub fn with(self, path: &str) -> (more: Self)
        requires
            self.wf(),
        ensures
            more.wf(),
            more@ == with_path(self@, path@),
    {
        let mut more = self;
        more.insert(path);
        more
    }

    /// Inserts a workspace-relative path into the declared set, returning `true`
    /// if it was newly added.
    pub fn insert(&mut self, path: &str) -> (added: bool)
        requires
            old(self).wf(),
        ensures
            final(self).wf(),
            added == !holds(old(self)@, path@),
            final(self)@ == with_path(old(self)@, path@),
    {
        let ghost before = self@;
        let mut i: usize = 0;
        assert(before.skip(0) == before);
        while i < self.paths.len()
            invariant
                i <= self.paths@.len(),
                self@ == before,
                sorted(before),
                forall|k: int| 0 <= k < i ==> path::path_before(#[trigger] before[k], path@),
                place(before, path@) == i + place(before.skip(i as int), path@),
            ensures
                i <= self.paths@.len(),
                self@ == before,
                forall|k: int| 0 <= k < i ==> path::path_before(#[trigger] before[k], path@),
                forall|k: int|
                    i <= k < before.len() ==> path::path_before(path@, #[trigger] before[k]),
                place(before, path@) == i,
            decreases self.paths@.len() - i,
        {
            assert(before[i as int] == self.paths@[i as int]@);
            assert(before.skip(i as int)[0] == before[i as int]);
            match path::standing(self.paths[i].as_str(), path) {
                Standing::Before => {
                    assert(before.skip(i as int).drop_first() == before.skip(i + 1));
                    i += 1;
                },
                Standing::Same => {
                    return false;
                },
                Standing::After => {
                    proof {
                        let p = path::parts(path@);
                        let here = path::parts(before[i as int]);
                        path::lemma_parts_total(p, here);
                        assert forall|k: int| i <= k < before.len() implies path::path_before(
                            path@,
                            #[trigger] before[k],
                        ) by {
                            if i < k {
                                assert(path::path_before(before[i as int], before[k]));
                                path::lemma_parts_transitive(p, here, path::parts(before[k]));
                            }
                        }
                    }
                    break ;
                },
            }
        }
        self.paths.insert(i, path.to_owned());
        proof {
            assert(self@ == before.insert(i as int, path@));
            if holds(before, path@) {
                let k = choose|k: int|
                    0 <= k < before.len() && path::same_path(#[trigger] before[k], path@);
                path::lemma_parts_total(path::parts(before[k]), path::parts(path@));
            }
            let now = self@;
            assert forall|a: int, b: int| 0 <= a < b < now.len() implies path::path_before(
                #[trigger] now[a],
                #[trigger] now[b],
            ) by {
                if a < i && b > i {
                    assert(path::path_before(before[a], before[b - 1]));
                }
                if b < i {
                    assert(path::path_before(before[a], before[b]));
                }
                if a > i {
                    assert(path::path_before(before[a - 1], before[b - 1]));
                }
            }
        }
        true
    }

    /// Returns `true` if the set declares `path`.
    pub fn contains(&self, path: &str) -> (yes: bool)
        ensures
            yes == holds(self@, path@),
    {
        let mut i: usize = 0;
        while i < self.paths.len()
            invariant
                i <= self.paths@.len(),
                forall|k: int| 0 <= k < i ==> !path::same_path(#[trigger] self@[k], path@),
            decreases self.paths@.len() - i,
        {
            assert(self@[i as int] == self.paths@[i as int]@);
            if path::standing(self.paths[i].as_str(), path) == Standing::Same {
                return true;
            }
            i += 1;
        }
        false
    }

    /// The number of declared paths.
    pub fn len(&self) -> (n: usize)
        ensures
            n == self@.len(),
    {
        self.paths.len()
    }

    /// Returns `true` if no paths are declared.
    pub fn is_empty(&self) -> (empty: bool)
        ensures
            empty == (self@.len() == 0),
    {
        self.paths.is_empty()
    }

    /// The declared paths in canonical (sorted) order.
    pub fn iter(&self) -> (paths: &Vec<String>)
        ensures
            text::views(paths@) == self@,
    {
        &self.paths
    }
}

// ---------------------------------------------------------------------------
// Requests and outcomes
// ---------------------------------------------------------------------------

/// A transaction request: who runs it, at what priority, which paths it may
/// touch, and a short label for the commit message / observability.
#[derive(Debug, Clone)]
pub struct TxnRequest {
    /// The identity running the transaction.
    pub writer: WriterId,
    /// The scheduling priority (queue-head for a human, FIFO for an agent).
    pub priority: Priority,
    /// The paths declared up front: the body may write only these.
    pub locks: LockSet,
    /// A short label carried into observability and (by convention) the commit
    /// message.
    pub label: String,
}

impl TxnRequest {
    /// Builds a request, deriving [`priority`](TxnRequest::priority) from `writer`
    /// via [`Priority::for_writer`].
    pub fn new(writer: WriterId, locks: LockSet, label: &str) -> (req: Self)
        ensures
            req.writer == writer,
            req.priority == priority_of(writer@),
            req.locks == locks,
            req.label@ == label@,
    {
        let priority = Priority::for_writer(&writer);
        TxnRequest { writer, priority, locks, label: label.to_owned() }
    }
}

/// The outcome of a committed transaction: the single commit's short SHA (when
/// version control recorded one) and the paths it actually changed.
#[derive(Debug, Clone, PartialEq, Eq)]
pub struct TxnOutcome {
    /// The abbreviated SHA of the one commit this transaction produced, or `None`
    /// when the transaction touched no path.
    pub sha: Option<String>,
    /// The workspace-relative paths the transaction touched, in canonical order.
    pub paths: Vec<String>,
}

/// An error from a transaction.
#[derive(Debug, PartialEq, Eq)]
#[non_exhaustive]
pub enum CoordError {
    /// The transaction body wrote a path it did not declare in its [`LockSet`].
    Undeclared(String),
    /// A workspace operation inside the transaction failed.
    Workspace(ToolError),
    /// The single commit (or another version-control step) failed.
    Vcs(String),
    /// The transaction body returned an error of its own, or the coordinator
    /// aborted the transaction for a stated reason.
    Aborted(String),
}

impl CoordError {
    /// What the error says, where `inner` is what a workspace error inside it says.
    pub open spec fn says(self, inner: Seq<char>) -> Seq<char> {
        match self {
            CoordError::Undeclared(path) => "transaction wrote undeclared path: "@ + path@,
            CoordError::Workspace(_) => "workspace error: "@ + inner,
            CoordError::Vcs(e) => "version control error: "@ + e@,
            CoordError::Aborted(why) => "transaction aborted: "@ + why@,
        }
    }

    /// What the error says, where `inner` is what a workspace error inside it says.
    pub fn message(&self, inner: &str) -> (s: String)
        ensures
            s@ == self.says(inner@),
    {
        let (front, back) = match self {
            CoordError::Undeclared(path) => ("transaction wrote undeclared path: ", path.as_str()),
            CoordError::Workspace(_) => ("workspace error: ", inner),
            CoordError::Vcs(e) => ("version control error: ", e.as_str()),
            CoordError::Aborted(why) => ("transaction aborted: ", why.as_str()),
        };
        let mut s = front.to_owned();
        s.append(back);
        s
    }
}

} // verus!
