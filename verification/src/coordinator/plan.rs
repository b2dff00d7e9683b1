//! Cross-file transactions, and the boundary of a transaction body.

use crate::content;
use crate::coordinator;
use crate::coordinator::{CoordError, Coordinator, LockSet, TxnOutcome, TxnRequest};
use crate::path;
use crate::text;
use crate::tool::{ToolError, WriterId};
use vstd::prelude::*;
use vstd::string::StringExecFns;

verus! {

// ---------------------------------------------------------------------------
// Plans
// ---------------------------------------------------------------------------

/// A new article to be produced by a [`SplitPlan`] or a [`MergePlan`].
#[derive(Debug, Clone, PartialEq, Eq)]
pub struct NewArticle {
    /// The output article file name (a single path segment).
    pub file_name: String,
    /// The article's human-readable title.
    pub title: String,
    /// The full body to write into the new article.
    pub content: String,
    /// The parent article's file name in the theme hierarchy, or `None` for a
    /// top-level article.
    pub parent: Option<String>,
}

/// A declarative plan for splitting one source article into several.
///
/// The source article is **rewritten** to `source_content`, and each entry in
/// `outputs` is created as a brand-new article.
#[derive(Debug, Clone, PartialEq, Eq)]
pub struct SplitPlan {
    /// The theme the source and all outputs live in.
    pub theme: String,
    /// The source article file name.
    pub source_file: String,
    /// The new body the source article is rewritten to (its retained portion).
    pub source_content: String,
    /// The new articles to carve out, in creation (and reading) order.
    pub outputs: Vec<NewArticle>,
}

/// A declarative plan for merging several source articles into one target.
///
/// Every entry in `sources` is deleted, and the `target` article is created with
/// the merged body.
#[derive(Debug, Clone, PartialEq, Eq)]
pub struct MergePlan {
    /// The theme the sources and the target live in.
    pub theme: String,
    /// The source article file names to merge and then delete.
    pub sources: Vec<String>,
    /// The new article the merged content is written into.
    pub target: NewArticle,
}

/// One thing that a transaction body does to the workspace.
#[derive(Debug, PartialEq, Eq)]
pub enum ArticleStep {
    /// Overwrite an article.
    Write {
        /// Its theme.
        theme: String,
        /// Its file name.
        file: String,
        /// Its new body.
        content: String,
    },
    /// Create an article.
    Create {
        /// Its theme.
        theme: String,
        /// Its file name.
        file: String,
        /// Its body.
        content: String,
        /// Its title.
        title: String,
        /// Its parent, if any.
        parent: Option<String>,
    },
    /// Delete an article.
    Delete {
        /// Its theme.
        theme: String,
        /// Its file name.
        file: String,
    },
}

/// A step, as contracts see one.
#[verifier::ext_equal]
pub enum StepView {
    /// See [`ArticleStep::Write`].
    Write {
        /// The theme.
        theme: Seq<char>,
        /// The file.
        file: Seq<char>,
        /// The body.
        content: Seq<char>,
    },
    /// See [`ArticleStep::Create`].
    Create {
        /// The theme.
        theme: Seq<char>,
        /// The file.
        file: Seq<char>,
        /// The body.
        content: Seq<char>,
        /// The title.
        title: Seq<char>,
        /// The parent.
        parent: Option<Seq<char>>,
    },
    /// See [`ArticleStep::Delete`].
    Delete {
        /// The theme.
        theme: Seq<char>,
        /// The file.
        file: Seq<char>,
    },
}

impl View for ArticleStep {
    type V = StepView;

    open spec fn view(&self) -> StepView {
        match self {
            ArticleStep::Write { theme, file, content } => StepView::Write {
                theme: theme@,
                file: file@,
                content: content@,
            },
            ArticleStep::Create { theme, file, content, title, parent } => StepView::Create {
                theme: theme@,
                file: file@,
                content: content@,
                title: title@,
                parent: content::option_view(*parent),
            },
            ArticleStep::Delete { theme, file } => StepView::Delete { theme: theme@, file: file@ },
        }
    }
}

/// What contracts see of a list of steps.
pub open spec fn steps_view(steps: Seq<ArticleStep>) -> Seq<StepView> {
    Seq::new(steps.len(), |i: int| steps[i]@)
}

/// A transaction that is ready to be submitted: what it requests, what its body
/// does, in order, and the message of its one commit.
#[derive(Debug)]
pub struct Transaction {
    /// The request.
    pub request: TxnRequest,
    /// What the body does.
    pub steps: Vec<ArticleStep>,
    /// The commit message.
    pub message: String,
}

/// The file name of each new article.
pub open spec fn file_names(articles: Seq<NewArticle>) -> Seq<Seq<char>> {
    Seq::new(articles.len(), |i: int| articles[i].file_name@)
}

/// Why one of the first `n` outputs cannot be made, if so: it has the name of the
/// source, or of an output before it.
pub open spec fn split_problem(names: Seq<Seq<char>>, source: Seq<char>, n: int) -> Option<Seq<char>>
    decreases n,
{
    if n <= 0 {
        None
    } else if split_problem(names, source, n - 1) is Some {
        split_problem(names, source, n - 1)
    } else if names[n - 1] == source {
        Some("output `"@ + names[n - 1] + "` collides with the source article"@)
    } else if names.take(n - 1).contains(names[n - 1]) {
        Some("duplicate output article `"@ + names[n - 1] + "`"@)
    } else {
        None
    }
}

/// Why one of the first `n` sources cannot be merged, if so: it is named twice.
pub open spec fn merge_problem(names: Seq<Seq<char>>, n: int) -> Option<Seq<char>>
    decreases n,
{
    if n <= 0 {
        None
    } else if merge_problem(names, n - 1) is Some {
        merge_problem(names, n - 1)
    } else if names.take(n - 1).contains(names[n - 1]) {
        Some("duplicate source article `"@ + names[n - 1] + "`"@)
    } else {
        None
    }
}

/// `paths` and, in their places, the articles `names` of `theme`.
pub open spec fn with_articles(
    paths: Seq<Seq<char>>,
    theme: Seq<char>,
    names: Seq<Seq<char>>,
) -> Seq<Seq<char>>
    decreases names.len(),
{
    if names.len() == 0 {
        paths
    } else {
        coordinator::with_path(
            with_articles(paths, theme, names.drop_last()),
            path::joined_path(theme, names.last()),
        )
    }
}

/// The paths that a transaction on one main article, the theme's manifest and
/// further articles declares.
pub open spec fn declared_paths(
    theme: Seq<char>,
    main: Seq<char>,
    names: Seq<Seq<char>>,
) -> Seq<Seq<char>> {
    with_articles(
        coordinator::with_path(
            coordinator::with_path(Seq::empty(), path::joined_path(theme, main)),
            path::joined_path(theme, "index.json"@),
        ),
        theme,
        names,
    )
}

/// Creating each of `articles`, in order.
pub open spec fn creations(theme: Seq<char>, articles: Seq<NewArticle>) -> Seq<StepView> {
    Seq::new(
        articles.len(),
        |i: int|
            StepView::Create {
                theme,
                file: articles[i].file_name@,
                content: articles[i].content@,
                title: articles[i].title@,
                parent: content::option_view(articles[i].parent),
            },
    )
}

/// Deleting each of `names`, in order.
pub open spec fn deletions(theme: Seq<char>, names: Seq<Seq<char>>) -> Seq<StepView> {
    Seq::new(names.len(), |i: int| StepView::Delete { theme, file: names[i] })
}

/// The lock set of one main article, the theme's manifest and further articles.
fn declare(theme: &str, main: &str, names: &Vec<String>) -> (locks: LockSet)
    ensures
        locks.wf(),
        locks@ == declared_paths(theme@, main@, text::views(names@)),
{
    let mut locks = LockSet::new().with(path::join_path(theme, main).as_str()).with(
        path::join_path(theme, "index.json").as_str(),
    );
    let ghost base = locks@;
    let ghost all = text::views(names@);
    let mut i: usize = 0;
    while i < names.len()
        invariant
            i <= names@.len(),
            all == text::views(names@),
            locks.wf(),
            locks@ == with_articles(base, theme@, all.take(i as int)),
        decreases names@.len() - i,
    {
        locks.insert(path::join_path(theme, names[i].as_str()).as_str());
        proof {
            assert(all.take(i + 1).drop_last() == all.take(i as int));
            assert(all.take(i + 1).last() == names@[i as int]@);
        }
        i += 1;
    }
    assert(all.take(i as int) == all);
    locks
}

/// Whether one of the first `n` names is `name`.
fn named_before(names: &Vec<String>, n: usize, name: &str) -> (yes: bool)
    requires
        n <= names@.len(),
    ensures
        yes == text::views(names@).take(n as int).contains(name@),
{
    let ghost all = text::views(names@);
    let mut i: usize = 0;
    while i < n
        invariant
            i <= n <= names@.len(),
            all == text::views(names@),
            forall|k: int| 0 <= k < i ==> all[k] != name@,
        decreases n - i,
    {
        if text::text_eq(names[i].as_str(), name) {
            assert(all.take(n as int)[i as int] == name@);
            return true;
        }
        assert(all[i as int] == names@[i as int]@);
        i += 1;
    }
    false
}

/// `front`, `name` and `back` in a row.
fn framed(front: &str, name: &str, back: &str) -> (s: String)
    ensures
        s@ == front@ + name@ + back@,
{
    let mut s = front.to_owned();
    s.append(name);
    s.append(back);
    s
}

impl Coordinator {
    /// Plans the split of one source article into several, as a single cross-file
    /// transaction.
    ///
    /// The plan is malformed where it has no outputs, where an output has the
    /// source's name, or where two outputs have the same name. The body rewrites
    /// the source first, so a parent that points at it exists, and then creates the
    /// outputs in order.
    pub fn split_article(&self, writer: WriterId, plan: SplitPlan) -> (r: Result<
        Transaction,
        CoordError,
    >)
        ensures
            ({
                let names = file_names(plan.outputs@);
                let problem = if names.len() == 0 {
                    Some("split requires at least one output article"@)
                } else {
                    split_problem(names, plan.source_file@, names.len() as int)
                };
                match problem {
                    Some(reason) => r matches Err(CoordError::Aborted(why)) && why@ == reason,
                    None => {
                        &&& r matches Ok(txn)
                        &&& txn.request.writer == writer
                        &&& txn.request.priority == coordinator::priority_of(writer@)
                        &&& txn.request.locks.wf()
                        &&& txn.request.locks@ == declared_paths(
                            plan.theme@,
                            plan.source_file@,
                            names,
                        )
                        &&& txn.request.label@ == "split("@ + plan.theme@ + "/"@
                            + plan.source_file@ + "): "@ + text::decimal(names.len()) + " parts"@
                        &&& txn.message@ == "split("@ + plan.theme@ + "/"@ + plan.source_file@
                            + "): into "@ + text::decimal(names.len()) + " new articles"@
                        &&& steps_view(txn.steps@) == seq![
                            StepView::Write {
                                theme: plan.theme@,
                                file: plan.source_file@,
                                content: plan.source_content@,
                            },
                        ] + creations(plan.theme@, plan.outputs@)
                    },
                }
            }),
    {
        let ghost all = file_names(plan.outputs@);
        if plan.outputs.is_empty() {
            return Err(
                CoordError::Aborted("split requires at least one output article".to_owned()),
            );
        }
        let mut names: Vec<String> = Vec::new();
        let mut steps: Vec<ArticleStep> = Vec::new();
        steps.push(
            ArticleStep::Write {
                theme: plan.theme.clone(),
                file: plan.source_file.clone(),
                content: plan.source_content.clone(),
            },
        );
        let ghost first = seq![
            StepView::Write {
                theme: plan.theme@,
                file: plan.source_file@,
                content: plan.source_content@,
            },
        ];
        let mut i: usize = 0;
        proof {
            assert(text::views(names@) == all.take(0));
            assert(steps_view(steps@) == first + creations(plan.theme@, plan.outputs@.take(0)));
        }
        while i < plan.outputs.len()
            invariant
                i <= plan.outputs@.len(),
                all == file_names(plan.outputs@),
                all.len() > 0,
                text::views(names@) == all.take(i as int),
                split_problem(all, plan.source_file@, i as int) is None,
                steps_view(steps@) == first + creations(
                    plan.theme@,
                    plan.outputs@.take(i as int),
                ),
            decreases plan.outputs@.len() - i,
        {
            let out = &plan.outputs[i];
            assert(all[i as int] == out.file_name@);
            if text::text_eq(out.file_name.as_str(), plan.source_file.as_str()) {
                proof {
                    lemma_split_problem(all, plan.source_file@, i + 1, all.len() as int);
                }
                return Err(
                    CoordError::Aborted(
                        framed(
                            "output `",
                            out.file_name.as_str(),
                            "` collides with the source article",
                        ),
                    ),
                );
            }
            assert(text::views(names@).take(i as int) == all.take(i as int));
            if named_before(&names, i, out.file_name.as_str()) {
                proof {
                    lemma_split_problem(all, plan.source_file@, i + 1, all.len() as int);
                }
                return Err(
                    CoordError::Aborted(
                        framed("duplicate output article `", out.file_name.as_str(), "`"),
                    ),
                );
            }
            let ghost names_before = text::views(names@);
            let ghost steps_before = steps_view(steps@);
            names.push(out.file_name.clone());
            steps.push(
                ArticleStep::Create {
                    theme: plan.theme.clone(),
                    file: out.file_name.clone(),
                    content: out.content.clone(),
                    title: out.title.clone(),
                    parent: out.parent.clone(),
                },
            );
            proof {
                assert(text::views(names@) == names_before.push(out.file_name@));
                let step = creations(plan.theme@, plan.outputs@)[i as int];
                assert(steps_view(steps@) == steps_before.push(step));
                assert(creations(plan.theme@, plan.outputs@.take(i + 1)) == creations(
                    plan.theme@,
                    plan.outputs@.take(i as int),
                ).push(step));
            }
            i += 1;
        }
        proof {
            assert(all.take(i as int) == all);
            assert(plan.outputs@.take(i as int) == plan.outputs@);
        }
        let locks = declare(plan.theme.as_str(), plan.source_file.as_str(), &names);
        let count = text::decimal_string(plan.outputs.len() as u64);
        let mut label = "split(".to_owned();
        label.append(plan.theme.as_str());
        label.append("/");
        label.append(plan.source_file.as_str());
        let mut message = label.clone();
        label.append("): ");
        label.append(count.as_str());
        label.append(" parts");
        message.append("): into ");
        message.append(count.as_str());
        message.append(" new articles");
        let request = TxnRequest::new(writer, locks, label.as_str());
        Ok(Transaction { request, steps, message })
    }

    /// Plans the merge of several source articles into one target, as a single
    /// cross-file transaction. `target_exists` says whether an article has the
    /// target's name now.
    ///
    /// The plan is malformed where it has fewer than two sources, where a source is
    /// named twice, or where the target has the name of an article that survives.
    /// The body deletes the sources first, as the target may reuse the name of one,
    /// and then creates the target, without a parent that is deleted itself.
    pub fn merge_articles(&self, writer: WriterId, plan: MergePlan, target_exists: bool) -> (r: Result<
        Transaction,
        CoordError,
    >)
        ensures
            ({
                let names = text::views(plan.sources@);
                let target = plan.target.file_name@;
                let problem = if names.len() < 2 {
                    Some("merge requires at least two source articles"@)
                } else if merge_problem(names, names.len() as int) is Some {
                    merge_problem(names, names.len() as int)
                } else if !names.contains(target) && target_exists {
                    Some("target `"@ + target + "` collides with an existing article"@)
                } else {
                    None
                };
                match problem {
                    Some(reason) => r matches Err(CoordError::Aborted(why)) && why@ == reason,
                    None => {
                        &&& r matches Ok(txn)
                        &&& txn.request.writer == writer
                        &&& txn.request.priority == coordinator::priority_of(writer@)
                        &&& txn.request.locks.wf()
                        &&& txn.request.locks@ == declared_paths(plan.theme@, target, names)
                        &&& txn.request.label@ == "merge("@ + plan.theme@ + "): "@ + text::decimal(
                            names.len(),
                        ) + " -> "@ + target
                        &&& txn.message@ == "merge("@ + plan.theme@ + "): "@ + text::decimal(
                            names.len(),
                        ) + " articles into "@ + target
                        &&& steps_view(txn.steps@) == deletions(plan.theme@, names).push(
                            StepView::Create {
                                theme: plan.theme@,
                                file: target,
                                content: plan.target.content@,
                                title: plan.target.title@,
                                parent: surviving_parent(
                                    content::option_view(plan.target.parent),
                                    names,
                                ),
                            },
                        )
                    },
                }
            }),
    {
        let ghost all = text::views(plan.sources@);
        if plan.sources.len() < 2 {
            return Err(
                CoordError::Aborted("merge requires at least two source articles".to_owned()),
            );
        }
        let mut steps: Vec<ArticleStep> = Vec::new();
        let mut i: usize = 0;
        assert(steps_view(steps@) == deletions(plan.theme@, all.take(0)));
        while i < plan.sources.len()
            invariant
                i <= plan.sources@.len(),
                all == text::views(plan.sources@),
                all.len() >= 2,
                merge_problem(all, i as int) is None,
                steps_view(steps@) == deletions(plan.theme@, all.take(i as int)),
            decreases plan.sources@.len() - i,
        {
            let src = &plan.sources[i];
            assert(all[i as int] == src@);
            if named_before(&plan.sources, i, src.as_str()) {
                proof {
                    lemma_merge_problem(all, i + 1, all.len() as int);
                }
                return Err(
                    CoordError::Aborted(framed("duplicate source article `", src.as_str(), "`")),
                );
            }
            let ghost before = steps_view(steps@);
            steps.push(ArticleStep::Delete { theme: plan.theme.clone(), file: src.clone() });
            proof {
                let step = StepView::Delete { theme: plan.theme@, file: src@ };
                assert(steps_view(steps@) == before.push(step));
                assert(deletions(plan.theme@, all.take(i + 1)) == deletions(
                    plan.theme@,
                    all.take(i as int),
                ).push(step));
            }
            i += 1;
        }
        assert(all.take(i as int) == all);
        let consumed = named_before(
            &plan.sources,
            plan.sources.len(),
            plan.target.file_name.as_str(),
        );
        if !consumed && target_exists {
            return Err(
                CoordError::Aborted(
                    framed(
                        "target `",
                        plan.target.file_name.as_str(),
                        "` collides with an existing article",
                    ),
                ),
            );
        }
        let locks = declare(
            plan.theme.as_str(),
            plan.target.file_name.as_str(),
            &plan.sources,
        );
        let parent = match &plan.target.parent {
            Some(p) => if named_before(&plan.sources, plan.sources.len(), p.as_str()) {
                None
            } else {
                Some(p.clone())
            },
            None => None,
        };
        let ghost before = steps_view(steps@);
        steps.push(
            ArticleStep::Create {
                theme: plan.theme.clone(),
                file: plan.target.file_name.clone(),
                content: plan.target.content.clone(),
                title: plan.target.title.clone(),
                parent,
            },
        );
        assert(steps_view(steps@) == before.push(
            StepView::Create {
                theme: plan.theme@,
                file: plan.target.file_name@,
                content: plan.target.content@,
                title: plan.target.title@,
                parent: surviving_parent(content::option_view(plan.target.parent), all),
            },
        ));
        let count = text::decimal_string(plan.sources.len() as u64);
        let mut label = "merge(".to_owned();
        label.append(plan.theme.as_str());
        label.append("): ");
        label.append(count.as_str());
        let mut message = label.clone();
        label.append(" -> ");
        label.append(plan.target.file_name.as_str());
        message.append(" articles into ");
        message.append(plan.target.file_name.as_str());
        let request = TxnRequest::new(writer, locks, label.as_str());
        Ok(Transaction { request, steps, message })
    }

    /// The request under which an article's last edit is undone: it declares the
    /// article alone.
    pub fn undo_article(&self, writer: WriterId, theme: &str, file: &str) -> (req: TxnRequest)
        ensures
            req.writer == writer,
            req.priority == coordinator::priority_of(writer@),
            req.locks.wf(),
            req.locks@ == seq![path::joined_path(theme@, file@)],
            req.label@ == "undo("@ + theme@ + "/"@ + file@ + ")"@,
    {
        let locks = LockSet::new().with(path::join_path(theme, file).as_str());
        proof {
            let p = path::joined_path(theme@, file@);
            assert(locks@ == Seq::<Seq<char>>::empty().insert(0, p));
            assert(locks@ == seq![p]);
        }
        let mut label = "undo(".to_owned();
        label.append(theme);
        label.append("/");
        label.append(file);
        label.append(")");
        TxnRequest::new(writer, locks, label.as_str())
    }
}

/// A parent that is not deleted itself.
pub open spec fn surviving_parent(parent: Option<Seq<char>>, deleted: Seq<Seq<char>>) -> Option<
    Seq<char>,
> {
    match parent {
        Some(p) => if deleted.contains(p) {
            None
        } else {
            Some(p)
        },
        None => None,
    }
}

/// The first problem stays the problem.
proof fn lemma_split_problem(names: Seq<Seq<char>>, source: Seq<char>, m: int, n: int)
    requires
        0 <= m <= n,
        split_problem(names, source, m) is Some,
    ensures
        split_problem(names, source, n) == split_problem(names, source, m),
    decreases n - m,
{
    if m < n {
        lemma_split_problem(names, source, m, n - 1);
    }
}

/// The first problem stays the problem.
proof fn lemma_merge_problem(names: Seq<Seq<char>>, m: int, n: int)
    requires
        0 <= m <= n,
        merge_problem(names, m) is Some,
    ensures
        merge_problem(names, n) == merge_problem(names, m),
    decreases n - m,
{
    if m < n {
        lemma_merge_problem(names, m, n - 1);
    }
}

// ---------------------------------------------------------------------------
// The boundary of a transaction body
// ---------------------------------------------------------------------------

/// Which path of an article operation was not declared, if so: the article's own,
/// or the theme's manifest, which such an operation rewrites.
pub open spec fn undeclared(declared: Seq<Seq<char>>, theme: Seq<char>, file: Seq<char>) -> Option<
    Seq<char>,
> {
    let article = path::joined_path(theme, file);
    let index = path::joined_path(theme, "index.json"@);
    if !coordinator::holds(declared, article) {
        Some(article)
    } else if !coordinator::holds(declared, index) {
        Some(index)
    } else {
        None
    }
}

/// What is left to do once a transaction body has run.
#[derive(Debug, PartialEq, Eq)]
pub enum Closing {
    /// Nothing was touched, so there is nothing to commit.
    Empty(TxnOutcome),
    /// Every touched path goes into one commit.
    Commit {
        /// The touched paths, in canonical order.
        paths: Vec<String>,
        /// The commit message.
        message: String,
    },
}

/// The bounded context of a transaction body inside the critical section.
///
/// Before an article operation is performed on the workspace,
/// [`check_article`](TxnCtx::check_article) says whether it stays within the
/// declared paths; what the workspace answered is then recorded.
#[derive(Debug)]
pub struct TxnCtx<'a> {
    /// The writer the transaction runs under.
    writer: &'a WriterId,
    /// The paths declared up front.
    declared: &'a LockSet,
    /// The paths the body has written so far.
    touched: LockSet,
}

impl<'a> TxnCtx<'a> {
    /// The paths written so far, in canonical order.
    pub closed spec fn touched(&self) -> Seq<Seq<char>> {
        self.touched@
    }

    /// The paths that may be written.
    pub closed spec fn allowed(&self) -> Seq<Seq<char>> {
        self.declared@
    }

    /// The writer.
    pub closed spec fn runs_as(&self) -> WriterId {
        *self.writer
    }

    /// The touched paths are in canonical order, and every one was declared.
    pub open spec fn wf(&self) -> bool {
        &&& coordinator::sorted(self.touched())
        &&& forall|i: int|
            0 <= i < self.touched().len() ==> coordinator::holds(
                self.allowed(),
                #[trigger] self.touched()[i],
            )
    }

    /// A context in which nothing was touched yet.
    pub fn new(req: &'a TxnRequest) -> (ctx: Self)
        ensures
            ctx.wf(),
            ctx.touched() == Seq::<Seq<char>>::empty(),
            ctx.allowed() == req.locks@,
            ctx.runs_as() == req.writer,
    {
        TxnCtx { writer: &req.writer, declared: &req.locks, touched: LockSet::new() }
    }

    /// The writer this transaction runs under.
    pub fn writer(&self) -> (writer: &WriterId)
        ensures
            *writer == self.runs_as(),
    {
        self.writer
    }

    /// The declared lock set; writes outside it abort the transaction.
    pub fn declared(&self) -> (declared: &LockSet)
        ensures
            declared@ == self.allowed(),
    {
        self.declared
    }

    /// Whether an operation on an article stays within the declared paths.
    pub fn check_article(&self, theme: &str, file_name: &str) -> (r: Result<(), CoordError>)
        ensures
            match undeclared(self.allowed(), theme@, file_name@) {
                Some(p) => r matches Err(CoordError::Undeclared(q)) && q@ == p,
                None => r is Ok,
            },
    {
        let article = path::join_path(theme, file_name);
        let index = path::join_path(theme, "index.json");
        if !self.declared.contains(article.as_str()) {
            return Err(CoordError::Undeclared(article));
        }
        if !self.declared.contains(index.as_str()) {
            return Err(CoordError::Undeclared(index));
        }
        Ok(())
    }

    /// Hands on what the workspace answered to reading an article. Reading does not
    /// require the path to be declared.
    pub fn read_article(&self, read: Result<String, ToolError>) -> (r: Result<String, CoordError>)
        ensures
            match read {
                Ok(body) => r == Ok::<String, CoordError>(body),
                Err(e) => r == Err::<String, CoordError>(CoordError::Workspace(e)),
            },
    {
        match read {
            Ok(body) => Ok(body),
            Err(e) => Err(CoordError::Workspace(e)),
        }
    }

    /// Adds a declared path to the touched ones.
    fn touch(&mut self, p: &str)
        requires
            old(self).wf(),
            coordinator::holds(old(self).allowed(), p@),
        ensures
            final(self).wf(),
            final(self).touched() == coordinator::with_path(old(self).touched(), p@),
            final(self).allowed() == old(self).allowed(),
            final(self).runs_as() == old(self).runs_as(),
    {
        let ghost before = self.touched();
        let ghost allowed = self.allowed();
        self.touched.insert(p);
        proof {
            let now = self.touched();
            assert forall|i: int| 0 <= i < now.len() implies coordinator::holds(
                allowed,
                #[trigger] now[i],
            ) by {
                if !coordinator::holds(before, p@) {
                    let at = coordinator::place(before, p@);
                    lemma_place(before, p@);
                    if i < at {
                        assert(now[i] == before[i]);
                    } else if i > at {
                        assert(now[i] == before[i - 1]);
                    }
                }
            }
        }
    }

    /// Records what the workspace answered to overwriting an article: the article
    /// and, where the theme has one, its manifest are touched.
    pub fn write_article(
        &mut self,
        theme: &str,
        file_name: &str,
        written: Result<(), ToolError>,
        index_exists: bool,
    ) -> (r: Result<(), CoordError>)
        requires
            old(self).wf(),
        ensures
            final(self).wf(),
            final(self).allowed() == old(self).allowed(),
            final(self).runs_as() == old(self).runs_as(),
            match undeclared(old(self).allowed(), theme@, file_name@) {
                Some(p) => r matches Err(CoordError::Undeclared(q)) && q@ == p
                    && final(self).touched() == old(self).touched(),
                None => match written {
                    Err(e) => r == Err::<(), CoordError>(CoordError::Workspace(e))
                        && final(self).touched() == old(self).touched(),
                    Ok(()) => {
                        let one = coordinator::with_path(
                            old(self).touched(),
                            path::joined_path(theme@, file_name@),
                        );
                        r is Ok && final(self).touched() == if index_exists {
                            coordinator::with_path(
                                one,
                                path::joined_path(theme@, "index.json"@),
                            )
                        } else {
                            one
                        }
                    },
                },
            },
    {
        match self.check_article(theme, file_name) {
            Err(e) => {
                return Err(e);
            },
            Ok(()) => {},
        }
        match written {
            Err(e) => {
                return Err(CoordError::Workspace(e));
            },
            Ok(()) => {},
        }
        self.touch(path::join_path(theme, file_name).as_str());
        if index_exists {
            self.touch(path::join_path(theme, "index.json").as_str());
        }
        Ok(())
    }

    /// Records `path` (workspace-relative) as touched, if it was declared.
    pub fn record_path(&mut self, path: &str) -> (r: Result<(), CoordError>)
        requires
            old(self).wf(),
        ensures
            final(self).wf(),
            final(self).allowed() == old(self).allowed(),
            final(self).runs_as() == old(self).runs_as(),
            if coordinator::holds(old(self).allowed(), path@) {
                r is Ok && final(self).touched() == coordinator::with_path(
                    old(self).touched(),
                    path@,
                )
            } else {
                r matches Err(CoordError::Undeclared(q)) && q@ == path@ && final(self).touched()
                    == old(self).touched()
            },
    {
        if !self.declared.contains(path) {
            return Err(CoordError::Undeclared(path.to_owned()));
        }
        self.touch(path);
        Ok(())
    }

    /// Records what the workspace answered to an operation that changes an article
    /// and the theme's manifest.
    fn settle(&mut self, theme: &str, file_name: &str, done: Result<(), ToolError>) -> (r: Result<
        (),
        CoordError,
    >)
        requires
            old(self).wf(),
        ensures
            final(self).wf(),
            final(self).allowed() == old(self).allowed(),
            final(self).runs_as() == old(self).runs_as(),
            settled(*old(self), *final(self), theme@, file_name@, done, r),
    {
        match self.check_article(theme, file_name) {
            Err(e) => {
                return Err(e);
            },
            Ok(()) => {},
        }
        match done {
            Err(e) => {
                return Err(CoordError::Workspace(e));
            },
            Ok(()) => {},
        }
        self.touch(path::join_path(theme, file_name).as_str());
        self.touch(path::join_path(theme, "index.json").as_str());
        Ok(())
    }

    /// Records what the workspace answered to creating an article: the new file
    /// and the theme's manifest are touched.
    pub fn create_article(
        &mut self,
        theme: &str,
        file_name: &str,
        created: Result<(), ToolError>,
    ) -> (r: Result<(), CoordError>)
        requires
            old(self).wf(),
        ensures
            final(self).wf(),
            final(self).allowed() == old(self).allowed(),
            final(self).runs_as() == old(self).runs_as(),
            settled(*old(self), *final(self), theme@, file_name@, created, r),
    {
        self.settle(theme, file_name, created)
    }

    /// Records what the workspace answered to deleting an article: the removed
    /// file and the theme's manifest are touched.
    pub fn delete_article(
        &mut self,
        theme: &str,
        file_name: &str,
        deleted: Result<(), ToolError>,
    ) -> (r: Result<(), CoordError>)
        requires
            old(self).wf(),
        ensures
            final(self).wf(),
            final(self).allowed() == old(self).allowed(),
            final(self).runs_as() == old(self).runs_as(),
            settled(*old(self), *final(self), theme@, file_name@, deleted, r),
    {
        self.settle(theme, file_name, deleted)
    }

    /// Closes the body: its own error ends the transaction; else everything it
    /// touched must have been declared, and goes into one commit under the message
    /// that it returned. A body that touched nothing makes no commit.
    pub fn close(self, body: Result<String, CoordError>) -> (r: Result<Closing, CoordError>)
        requires
            self.wf(),
        ensures
            match body {
                Err(e) => r == Err::<Closing, CoordError>(e),
                Ok(text) => if self.touched().len() == 0 {
                    r matches Ok(Closing::Empty(outcome)) && outcome.sha is None
                        && outcome.paths@.len() == 0
                } else {
                    r matches Ok(Closing::Commit { paths, message }) && message == text
                        && text::views(paths@) == self.touched() && (forall|i: int|
                        0 <= i < paths@.len() ==> coordinator::holds(
                            self.allowed(),
                            (#[trigger] paths@[i])@,
                        ))
                },
            },
    {
        let message = match body {
            Err(e) => {
                return Err(e);
            },
            Ok(message) => message,
        };
        let paths = self.touched.iter();
        let mut i: usize = 0;
        while i < paths.len()
            invariant
                i <= paths@.len(),
                self.wf(),
                text::views(paths@) == self.touched(),
            decreases paths@.len() - i,
        {
            assert(self.touched()[i as int] == paths@[i as int]@);
            if !self.declared.contains(paths[i].as_str()) {
                return Err(CoordError::Undeclared(paths[i].clone()));
            }
            i += 1;
        }
        if self.touched.is_empty() {
            return Ok(Closing::Empty(TxnOutcome { sha: None, paths: Vec::new() }));
        }
        let copy = paths.clone();
        assert(text::views(copy@) == self.touched());
        assert forall|i: int| 0 <= i < copy@.len() implies coordinator::holds(
            self.allowed(),
            (#[trigger] copy@[i])@,
        ) by {
            assert(self.touched()[i] == copy@[i]@);
        }
        Ok(Closing::Commit { paths: copy, message })
    }
}

/// What an operation that changes an article and the theme's manifest comes to.
pub open spec fn settled(
    before: TxnCtx<'_>,
    after: TxnCtx<'_>,
    theme: Seq<char>,
    file: Seq<char>,
    done: Result<(), ToolError>,
    r: Result<(), CoordError>,
) -> bool {
    match undeclared(before.allowed(), theme, file) {
        Some(p) => r matches Err(CoordError::Undeclared(q)) && q@ == p && after.touched()
            == before.touched(),
        None => match done {
            Err(e) => r == Err::<(), CoordError>(CoordError::Workspace(e)) && after.touched()
                == before.touched(),
            Ok(()) => r is Ok && after.touched() == coordinator::with_path(
                coordinator::with_path(before.touched(), path::joined_path(theme, file)),
                path::joined_path(theme, "index.json"@),
            ),
        },
    }
}

pub(crate) proof fn lemma_place(paths: Seq<Seq<char>>, p: Seq<char>)
    ensures
        0 <= coordinator::place(paths, p) <= paths.len(),
    decreases paths.len(),
{
    if paths.len() > 0 {
        lemma_place(paths.drop_first(), p);
    }
}

impl TxnOutcome {
    /// The outcome of a transaction whose paths were committed as `sha`.
    pub fn committed(sha: String, paths: Vec<String>) -> (outcome: Self)
        ensures
            outcome.sha == Some(sha),
            outcome.paths == paths,
    {
        TxnOutcome { sha: Some(sha), paths }
    }
}

} // verus!
