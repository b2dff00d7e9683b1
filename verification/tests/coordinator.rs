//! The transaction coordinator, driven over an in-memory workspace.

use ai_write::coordinator::{
    ArticleStep, Closing, CoordError, Coordinator, LockSet, MergePlan, NewArticle, Priority,
    SplitPlan, Transaction, TxnCtx, TxnOutcome, TxnRequest,
};
use ai_write::observe::Event;
use ai_write::tool::{ToolError, WriterId};

fn agent(label: &str) -> WriterId {
    WriterId::Agent {
        model: "deepseek-v4-pro".to_string(),
        label: label.to_string(),
    }
}

fn article_locks(theme: &str, file: &str) -> LockSet {
    LockSet::new()
        .with(&format!("{theme}/{file}"))
        .with(&format!("{theme}/index.json"))
}

fn event_kind(e: &Event) -> &'static str {
    match e {
        Event::TxnAcquired { .. } => "TxnAcquired",
        Event::TxnQueued { .. } => "TxnQueued",
        Event::TxnReleased { .. } => "TxnReleased",
        Event::HandoffToHuman { .. } => "HandoffToHuman",
        _ => "other",
    }
}

/// One article of the in-memory workspace.
#[derive(Clone, Debug, PartialEq)]
struct Stored {
    file: String,
    body: String,
    parent: Option<String>,
}

/// A coordinator with one theme `t`, a list of commits and a record of events.
struct Desk {
    coordinator: Coordinator,
    articles: Vec<Stored>,
    commits: Vec<(String, Vec<String>)>,
    events: Vec<Event>,
}

impl Desk {
    fn with(files: &[&str]) -> Desk {
        Desk {
            coordinator: Coordinator::new(),
            articles: files
                .iter()
                .map(|f| Stored {
                    file: f.to_string(),
                    body: String::new(),
                    parent: None,
                })
                .collect(),
            commits: Vec::new(),
            events: Vec::new(),
        }
    }

    fn kinds(&self) -> Vec<&'static str> {
        self.events.iter().map(event_kind).collect()
    }

    fn read(&self, file: &str) -> Option<String> {
        self.articles
            .iter()
            .find(|a| a.file == file)
            .map(|a| a.body.clone())
    }

    fn files(&self) -> Vec<String> {
        self.articles.iter().map(|a| a.file.clone()).collect()
    }

    /// How many commits touched a path.
    fn history(&self, path: &str) -> usize {
        self.commits
            .iter()
            .filter(|(_, paths)| paths.iter().any(|p| p == path))
            .count()
    }

    fn perform(&mut self, step: &ArticleStep) -> Result<(), ToolError> {
        match step {
            ArticleStep::Write { file, content, .. } => {
                match self.articles.iter_mut().find(|a| a.file == *file) {
                    Some(a) => {
                        a.body = content.clone();
                        Ok(())
                    }
                    None => Err(ToolError::NotFound(file.clone())),
                }
            }
            ArticleStep::Create {
                file,
                content,
                parent,
                ..
            } => {
                if self.articles.iter().any(|a| a.file == *file) {
                    return Err(ToolError::Lock(file.clone()));
                }
                self.articles.push(Stored {
                    file: file.clone(),
                    body: content.clone(),
                    parent: parent.clone(),
                });
                Ok(())
            }
            ArticleStep::Delete { file, .. } => {
                self.articles.retain(|a| a.file != *file);
                Ok(())
            }
        }
    }

    /// Enters, runs the steps, commits once, and leaves.
    fn submit(
        &mut self,
        req: TxnRequest,
        steps: &[ArticleStep],
        body: Result<String, CoordError>,
    ) -> Result<TxnOutcome, CoordError> {
        let ticket = self.coordinator.enqueue(&req);
        self.events.extend(ticket.events);
        let entered = self
            .coordinator
            .acquire(ticket.seq, &req, ticket.parked)
            .expect("nothing is in the way");
        self.events.extend(entered);
        let outcome = self.critical_section(&req, steps, body);
        let events = self.coordinator.release(&req.locks, &req.writer);
        self.events.extend(events);
        outcome
    }

    fn critical_section(
        &mut self,
        req: &TxnRequest,
        steps: &[ArticleStep],
        body: Result<String, CoordError>,
    ) -> Result<TxnOutcome, CoordError> {
        let mut ctx = TxnCtx::new(req);
        for step in steps {
            match step {
                ArticleStep::Write { theme, file, .. } => {
                    ctx.check_article(theme, file)?;
                    let done = self.perform(step);
                    ctx.write_article(theme, file, done, true)?;
                }
                ArticleStep::Create { theme, file, .. } => {
                    ctx.check_article(theme, file)?;
                    let done = self.perform(step);
                    ctx.create_article(theme, file, done)?;
                }
                ArticleStep::Delete { theme, file } => {
                    ctx.check_article(theme, file)?;
                    let done = self.perform(step);
                    ctx.delete_article(theme, file, done)?;
                }
            }
        }
        match ctx.close(body)? {
            Closing::Empty(outcome) => Ok(outcome),
            Closing::Commit { paths, message } => {
                let sha = format!("c{}", self.commits.len());
                self.commits.push((message, paths.clone()));
                Ok(TxnOutcome::committed(sha, paths))
            }
        }
    }

    fn run(&mut self, txn: Transaction) -> Result<TxnOutcome, CoordError> {
        let Transaction {
            request,
            steps,
            message,
        } = txn;
        self.submit(request, &steps, Ok(message))
    }

    fn split(&mut self, plan: SplitPlan) -> Result<TxnOutcome, CoordError> {
        let txn = self.coordinator.split_article(agent("s1"), plan)?;
        self.run(txn)
    }

    fn merge(&mut self, plan: MergePlan) -> Result<TxnOutcome, CoordError> {
        let exists = self.read(&plan.target.file_name).is_some();
        let txn = self.coordinator.merge_articles(agent("s1"), plan, exists)?;
        self.run(txn)
    }
}

fn write(file: &str, content: &str) -> ArticleStep {
    ArticleStep::Write {
        theme: "t".to_string(),
        file: file.to_string(),
        content: content.to_string(),
    }
}

fn create(file: &str, content: &str) -> ArticleStep {
    ArticleStep::Create {
        theme: "t".to_string(),
        file: file.to_string(),
        content: content.to_string(),
        title: file.to_string(),
        parent: None,
    }
}

fn article(file: &str, title: &str, content: &str, parent: Option<&str>) -> NewArticle {
    NewArticle {
        file_name: file.to_string(),
        title: title.to_string(),
        content: content.to_string(),
        parent: parent.map(|p| p.to_string()),
    }
}

#[test]
fn priority_derives_from_writer() {
    assert_eq!(Priority::for_writer(&WriterId::Human), Priority::Human);
    assert_eq!(Priority::for_writer(&agent("s1")), Priority::Agent);
}

#[test]
fn lock_set_is_a_sorted_dedup_set() {
    let mut ls = LockSet::new();
    assert!(ls.insert("b/x.md"));
    assert!(ls.insert("a/y.md"));
    assert!(!ls.insert("a/y.md")); // duplicate
    let order: Vec<_> = ls.iter().iter().map(|p| p.to_string()).collect();
    assert_eq!(order, vec!["a/y.md", "b/x.md"], "iteration is sorted");
    assert_eq!(ls.len(), 2);
    assert!(ls.contains("a/y.md"));
}

#[test]
fn lock_sets_compare_paths_by_component() {
    let mut ls = LockSet::new();
    assert!(ls.insert("t//a.md"));
    assert!(!ls.insert("t/./a.md"));
    assert!(ls.contains("t/a.md"));
    assert!(!ls.contains("t/a.md.bak"));
    assert!(!ls.is_empty());
}

#[test]
fn single_edit_commits_body_and_index_as_one_commit() {
    let mut desk = Desk::with(&["a.md"]);
    let req = TxnRequest::new(agent("s1"), article_locks("t", "a.md"), "write a");
    let outcome = desk
        .submit(
            req,
            &[write("a.md", "hello body")],
            Ok("edit(t/a.md): write".to_string()),
        )
        .expect("submit");
    assert!(outcome.sha.is_some());
    assert!(outcome.paths.iter().any(|p| p.ends_with("a.md")));
    assert!(outcome.paths.iter().any(|p| p.ends_with("index.json")));
    assert_eq!(desk.history("t/a.md"), 1);
    assert_eq!(desk.history("t/index.json"), 1);
    assert_eq!(desk.commits[0].0, "edit(t/a.md): write");
}

#[test]
fn two_edits_grow_history_by_one_each() {
    let mut desk = Desk::with(&["a.md"]);
    for text in ["v1", "v2"] {
        let req = TxnRequest::new(agent("s1"), article_locks("t", "a.md"), "edit");
        desk.submit(
            req,
            &[write("a.md", text)],
            Ok(format!("edit(t/a.md): {text}")),
        )
        .expect("submit");
    }
    assert_eq!(desk.history("t/a.md"), 2);
}

#[test]
fn writing_an_undeclared_path_is_rejected() {
    let mut desk = Desk::with(&["a.md", "b.md"]);
    let req = TxnRequest::new(agent("s1"), article_locks("t", "a.md"), "sneaky");
    let err = desk
        .submit(
            req,
            &[write("b.md", "not allowed")],
            Ok("should not reach".to_string()),
        )
        .expect_err("undeclared write must fail");
    assert!(matches!(err, CoordError::Undeclared(_)), "got {err:?}");
    assert_eq!(desk.history("t/b.md"), 0);
    assert_eq!(desk.read("b.md"), Some(String::new()));
}

#[test]
fn empty_transaction_makes_no_commit() {
    let mut desk = Desk::with(&["a.md"]);
    let req = TxnRequest::new(agent("s1"), article_locks("t", "a.md"), "noop");
    let outcome = desk
        .submit(req, &[], Ok("nothing".to_string()))
        .expect("submit");
    assert!(outcome.sha.is_none());
    assert!(outcome.paths.is_empty());
}

#[test]
fn body_error_is_aborted_and_releases_locks() {
    let mut desk = Desk::with(&["a.md"]);
    let req = TxnRequest::new(agent("s1"), article_locks("t", "a.md"), "boom");
    let err = desk
        .submit(req, &[], Err(CoordError::Aborted("body failed".to_string())))
        .expect_err("body error surfaces");
    assert!(matches!(err, CoordError::Aborted(_)));

    // The lock was released despite the failure: a fresh transaction proceeds.
    let req2 = TxnRequest::new(agent("s2"), article_locks("t", "a.md"), "after");
    desk.submit(req2, &[write("a.md", "recovered")], Ok("edit".to_string()))
        .expect("second submit proceeds, lock was freed");
}

#[test]
fn all_or_nothing_blocks_until_whole_set_is_free() {
    let mut c = Coordinator::new();
    let t1 = TxnRequest::new(agent("s1"), article_locks("t", "a.md"), "hold a");
    let first = c.enqueue(&t1);
    assert!(c.acquire(first.seq, &t1, first.parked).is_some());
    assert!(c.is_locked("t/a.md"));
    assert!(!c.is_locked("t/b.md"));

    let t2 = TxnRequest::new(
        agent("s2"),
        LockSet::new()
            .with("t/a.md")
            .with("t/b.md")
            .with("t/index.json"),
        "a and b",
    );
    let second = c.enqueue(&t2);
    assert!(second.parked);
    assert!(c.acquire(second.seq, &t2, second.parked).is_none());
    assert!(!c.is_locked("t/b.md"), "no partial set is held");

    c.release(&t1.locks, &t1.writer);
    assert!(c.acquire(second.seq, &t2, second.parked).is_some());
    assert!(c.is_locked("t/a.md") && c.is_locked("t/b.md") && c.is_locked("t/index.json"));
    c.release(&t2.locks, &t2.writer);
    assert!(!c.is_locked("t/b.md"));
    assert!(!c.is_running());
}

#[test]
fn human_waits_at_queue_head_but_does_not_preempt() {
    let mut c = Coordinator::new();
    let running = TxnRequest::new(agent("running"), article_locks("t", "a.md"), "run");
    let late = TxnRequest::new(agent("late"), article_locks("t", "a.md"), "late");
    let human = TxnRequest::new(WriterId::Human, article_locks("t", "a.md"), "human");

    let r = c.enqueue(&running);
    assert!(c.acquire(r.seq, &running, r.parked).is_some());
    let l = c.enqueue(&late);
    let h = c.enqueue(&human);
    assert!(l.parked && h.parked);
    // No preemption: neither enters while the agent runs.
    assert!(!c.can_enter(h.seq, &human));
    assert!(!c.can_enter(l.seq, &late));

    c.release(&running.locks, &running.writer);
    // Queue-head priority: the human comes first though it queued last.
    assert!(!c.can_enter(l.seq, &late));
    assert!(c.acquire(h.seq, &human, h.parked).is_some());
    c.release(&human.locks, &human.writer);
    assert!(c.acquire(l.seq, &late, l.parked).is_some());
}

#[test]
fn random_intersecting_sets_all_complete() {
    const ARTICLES: [&str; 5] = ["a.md", "b.md", "c.md", "d.md", "e.md"];
    let mut rng = 0x9E3779B97F4A7C15u64;
    let mut next = || {
        rng ^= rng << 13;
        rng ^= rng >> 7;
        rng ^= rng << 17;
        rng
    };
    let mut c = Coordinator::new();
    let mut waiting: Vec<(u64, TxnRequest, bool)> = Vec::new();
    for n in 0..96 {
        let count = 1 + (next() % 3) as usize;
        let mut locks = LockSet::new().with("t/index.json");
        for _ in 0..count {
            let file = ARTICLES[(next() % 5) as usize];
            locks = locks.with(&format!("t/{file}"));
        }
        let writer = if next() % 5 == 0 {
            WriterId::Human
        } else {
            agent(&format!("s{n}"))
        };
        let req = TxnRequest::new(writer, locks, "stress");
        let ticket = c.enqueue(&req);
        waiting.push((ticket.seq, req, ticket.parked));
    }
    // Whoever can enter runs and leaves; every ticket gets its turn.
    let mut left = waiting.len();
    while !waiting.is_empty() {
        let at = waiting
            .iter()
            .position(|(seq, req, _)| c.can_enter(*seq, req))
            .expect("the front of the queue can always enter");
        let (seq, req, parked) = waiting.remove(at);
        assert!(c.acquire(seq, &req, parked).is_some());
        c.release(&req.locks, &req.writer);
        left -= 1;
        assert_eq!(c.waiting(), left);
    }
    assert!(!c.is_running());
    for file in ARTICLES {
        assert!(!c.is_locked(&format!("t/{file}")));
    }
}

#[test]
fn split_produces_one_commit_touching_source_each_new_file_and_index() {
    let mut desk = Desk::with(&["all.md"]);
    desk.submit(
        TxnRequest::new(agent("s1"), article_locks("t", "all.md"), "seed"),
        &[write("all.md", "intro\npart a\npart b\n")],
        Ok("seed".to_string()),
    )
    .expect("seed");

    let plan = SplitPlan {
        theme: "t".to_string(),
        source_file: "all.md".to_string(),
        source_content: "intro\n".to_string(),
        outputs: vec![
            article("a.md", "Part A", "part a\n", Some("all.md")),
            article("b.md", "Part B", "part b\n", Some("all.md")),
        ],
    };
    let outcome = desk.split(plan).expect("split succeeds");
    assert!(outcome.sha.is_some());
    let mut touched = outcome.paths.clone();
    touched.sort();
    assert_eq!(
        touched,
        vec!["t/a.md", "t/all.md", "t/b.md", "t/index.json"],
        "split touches exactly the declared set"
    );
    assert_eq!(desk.commits.len(), 2);
    assert_eq!(desk.history("t/a.md"), 1);
    assert_eq!(desk.history("t/b.md"), 1);
    assert_eq!(desk.read("all.md").as_deref(), Some("intro\n"));
    assert_eq!(desk.read("a.md").as_deref(), Some("part a\n"));
    assert_eq!(desk.read("b.md").as_deref(), Some("part b\n"));
    assert_eq!(desk.files(), vec!["all.md", "a.md", "b.md"]);
    assert_eq!(desk.articles[1].parent.as_deref(), Some("all.md"));
    assert_eq!(desk.articles[2].parent.as_deref(), Some("all.md"));
}

#[test]
fn split_is_exactly_one_commit() {
    let mut desk = Desk::with(&["all.md"]);
    let before = desk.commits.len();
    desk.split(SplitPlan {
        theme: "t".to_string(),
        source_file: "all.md".to_string(),
        source_content: "keep\n".to_string(),
        outputs: vec![article("x.md", "X", "x\n", None)],
    })
    .expect("split");
    assert_eq!(desk.commits.len(), before + 1, "split is a single commit");
}

#[test]
fn merge_produces_one_commit_touching_sources_target_and_index() {
    let mut desk = Desk::with(&["a.md", "b.md"]);
    for (file, body) in [("a.md", "body a\n"), ("b.md", "body b\n")] {
        desk.submit(
            TxnRequest::new(agent("s1"), article_locks("t", file), "seed"),
            &[write(file, body)],
            Ok("seed".to_string()),
        )
        .expect("seed");
    }
    let before = desk.commits.len();
    let outcome = desk
        .merge(MergePlan {
            theme: "t".to_string(),
            sources: vec!["a.md".to_string(), "b.md".to_string()],
            target: article("merged.md", "Merged", "body a\nbody b\n", None),
        })
        .expect("merge succeeds");
    assert!(outcome.sha.is_some());
    assert_eq!(desk.commits.len(), before + 1, "merge is a single commit");
    let mut touched = outcome.paths.clone();
    touched.sort();
    assert_eq!(
        touched,
        vec!["t/a.md", "t/b.md", "t/index.json", "t/merged.md"],
        "merge touches exactly the declared set"
    );
    assert_eq!(desk.files(), vec!["merged.md"]);
    assert_eq!(desk.read("merged.md").as_deref(), Some("body a\nbody b\n"));
}

#[test]
fn split_rejects_a_malformed_plan() {
    let mut desk = Desk::with(&["all.md", "exists.md"]);
    let plan = |outputs: Vec<NewArticle>| SplitPlan {
        theme: "t".to_string(),
        source_file: "all.md".to_string(),
        source_content: "x".to_string(),
        outputs,
    };
    // Empty outputs.
    assert!(matches!(
        desk.split(plan(vec![])),
        Err(CoordError::Aborted(_))
    ));
    // Output collides with the source.
    assert!(matches!(
        desk.split(plan(vec![article("all.md", "dup", "y", None)])),
        Err(CoordError::Aborted(_))
    ));
    // Output already exists -> workspace error from create.
    assert!(matches!(
        desk.split(plan(vec![article("exists.md", "E", "y", None)])),
        Err(CoordError::Workspace(_))
    ));
    // Two outputs with one name.
    assert!(matches!(
        desk.split(plan(vec![
            article("x.md", "X", "y", None),
            article("x.md", "X", "y", None)
        ])),
        Err(CoordError::Aborted(_))
    ));
}

#[test]
fn merge_rejects_a_malformed_plan() {
    let mut desk = Desk::with(&["a.md", "b.md", "keep.md"]);
    // Fewer than two sources.
    assert!(matches!(
        desk.merge(MergePlan {
            theme: "t".to_string(),
            sources: vec!["a.md".to_string()],
            target: article("m.md", "M", "x", None),
        }),
        Err(CoordError::Aborted(_))
    ));
    // Target collides with a surviving article (keep.md is not a source).
    assert!(matches!(
        desk.merge(MergePlan {
            theme: "t".to_string(),
            sources: vec!["a.md".to_string(), "b.md".to_string()],
            target: article("keep.md", "K", "x", None),
        }),
        Err(CoordError::Aborted(_))
    ));
}

#[test]
fn declaring_a_short_output_list_is_rejected() {
    let mut desk = Desk::with(&["all.md"]);
    let locks = LockSet::new()
        .with("t/all.md")
        .with("t/a.md") // only a.md declared
        .with("t/index.json");
    let req = TxnRequest::new(agent("s1"), locks, "short split");
    let err = desk
        .submit(
            req,
            &[
                write("all.md", "intro\n"),
                create("a.md", "a\n"),
                create("b.md", "b\n"),
            ],
            Ok("should not reach".to_string()),
        )
        .expect_err("undeclared output must be rejected");
    assert!(
        matches!(&err, CoordError::Undeclared(p) if p.ends_with("b.md")),
        "got {err:?}"
    );
    assert_eq!(desk.history("t/b.md"), 0);
    assert!(desk.commits.is_empty());
}

#[test]
fn merge_reusing_a_source_name_as_target_is_allowed() {
    let mut desk = Desk::with(&["a.md", "b.md"]);
    let outcome = desk
        .merge(MergePlan {
            theme: "t".to_string(),
            sources: vec!["a.md".to_string(), "b.md".to_string()],
            target: article("a.md", "Merged into A", "merged\n", None),
        })
        .expect("merge into a reused source name");
    assert!(outcome.sha.is_some());
    assert_eq!(desk.files(), vec!["a.md"]);
    assert_eq!(desk.read("a.md").as_deref(), Some("merged\n"));
}

#[test]
fn submit_emits_acquired_then_released_in_order() {
    let mut desk = Desk::with(&["a.md"]);
    desk.submit(
        TxnRequest::new(agent("s1"), article_locks("t", "a.md"), "write"),
        &[write("a.md", "body")],
        Ok("edit".to_string()),
    )
    .expect("submit");
    assert_eq!(desk.kinds(), ["TxnAcquired", "TxnReleased"]);
    match &desk.events[0] {
        Event::TxnAcquired { writer, paths } => {
            assert_eq!(writer, "deepseek-v4-pro/s1");
            assert_eq!(paths, &["t/a.md".to_string(), "t/index.json".to_string()]);
        }
        other => panic!("expected TxnAcquired, got {other:?}"),
    }
    match &desk.events[1] {
        Event::TxnReleased { writer } => assert_eq!(writer, "deepseek-v4-pro/s1"),
        other => panic!("expected TxnReleased, got {other:?}"),
    }
}

#[test]
fn a_queued_writer_emits_txn_queued_with_ahead_count() {
    let mut c = Coordinator::new();
    let mut events: Vec<Event> = Vec::new();
    let t1 = TxnRequest::new(agent("s1"), article_locks("t", "a.md"), "hold");
    let t2 = TxnRequest::new(agent("s2"), article_locks("t", "a.md"), "wait");

    let first = c.enqueue(&t1);
    events.extend(first.events);
    events.extend(c.acquire(first.seq, &t1, first.parked).expect("enters"));
    let second = c.enqueue(&t2);
    events.extend(second.events);
    events.extend(c.release(&t1.locks, &t1.writer));
    events.extend(c.acquire(second.seq, &t2, second.parked).expect("enters"));
    events.extend(c.release(&t2.locks, &t2.writer));

    let kinds: Vec<&str> = events.iter().map(event_kind).collect();
    assert_eq!(
        kinds,
        [
            "TxnAcquired",
            "TxnQueued",
            "TxnReleased",
            "TxnAcquired",
            "TxnReleased",
        ]
    );
    match &events[1] {
        Event::TxnQueued { writer, ahead } => {
            assert_eq!(writer, "deepseek-v4-pro/s2");
            assert_eq!(*ahead, 0);
        }
        other => panic!("expected TxnQueued, got {other:?}"),
    }
}

#[test]
fn request_edit_on_idle_coordinator_is_up_now_and_emits_handoff() {
    let mut c = Coordinator::new();
    let (out, events) = c.request_edit("t", "a.md");
    assert!(out.queued);
    assert_eq!(out.ahead, 0, "idle coordinator: human is up immediately");
    let kinds: Vec<&str> = events.iter().map(event_kind).collect();
    assert_eq!(kinds, ["HandoffToHuman"]);
    match &events[0] {
        Event::HandoffToHuman { theme, file } => {
            assert_eq!(theme, "t");
            assert_eq!(file, "a.md");
        }
        other => panic!("expected HandoffToHuman, got {other:?}"),
    }
}

#[test]
fn request_edit_queues_human_at_head_ahead_of_a_waiting_agent() {
    let mut c = Coordinator::new();
    let running = TxnRequest::new(agent("running"), article_locks("t", "a.md"), "run");
    let late = TxnRequest::new(agent("late"), article_locks("t", "a.md"), "late");
    let human = TxnRequest::new(WriterId::Human, article_locks("t", "a.md"), "human");

    let r = c.enqueue(&running);
    assert!(c.acquire(r.seq, &running, r.parked).is_some());

    let (out, events) = c.request_edit("t", "a.md");
    assert!(out.queued);
    assert_eq!(
        out.ahead, 1,
        "one running transaction is ahead of the human"
    );
    assert!(events.is_empty());

    let l = c.enqueue(&late);
    assert!(l.parked);
    let events = c.release(&running.locks, &running.writer);
    let kinds: Vec<&str> = events.iter().map(event_kind).collect();
    assert_eq!(kinds, ["TxnReleased", "HandoffToHuman"]);
    // The reservation holds the late agent back until the human has edited.
    assert!(c.acquire(l.seq, &late, l.parked).is_none());
    let h = c.enqueue(&human);
    assert!(c.acquire(h.seq, &human, h.parked).is_some());
    c.release(&human.locks, &human.writer);
    assert!(c.acquire(l.seq, &late, l.parked).is_some());
}

#[test]
fn cancel_request_edit_removes_a_pending_reservation() {
    let mut desk = Desk::with(&["a.md"]);
    let (out, _) = desk.coordinator.request_edit("t", "a.md");
    assert!(out.queued);
    assert!(
        desk.coordinator.cancel_request_edit("t", "a.md"),
        "the pending reservation is cancelled"
    );
    assert!(
        !desk.coordinator.cancel_request_edit("t", "a.md"),
        "a second cancel is a no-op"
    );
    desk.submit(
        TxnRequest::new(agent("s1"), article_locks("t", "a.md"), "after cancel"),
        &[write("a.md", "agent after cancel")],
        Ok("edit".to_string()),
    )
    .expect("agent proceeds after cancel");
    assert_eq!(desk.read("a.md").as_deref(), Some("agent after cancel"));
}

#[test]
fn human_submit_consuming_a_reservation_does_not_double_announce_handoff() {
    let mut desk = Desk::with(&["a.md"]);
    let (_, events) = desk.coordinator.request_edit("t", "a.md");
    desk.events.extend(events);
    desk.submit(
        TxnRequest::new(WriterId::Human, article_locks("t", "a.md"), "human"),
        &[write("a.md", "human body")],
        Ok("edit human".to_string()),
    )
    .expect("human edit");
    let handoffs = desk
        .kinds()
        .into_iter()
        .filter(|k| *k == "HandoffToHuman")
        .count();
    assert_eq!(
        handoffs,
        1,
        "exactly one handoff, not doubled; {:?}",
        desk.kinds()
    );
}

#[test]
fn transaction_errors_say_what_happened() {
    assert_eq!(
        CoordError::Undeclared("t/b.md".to_string()).message(""),
        "transaction wrote undeclared path: t/b.md"
    );
    assert_eq!(
        CoordError::Workspace(ToolError::NotFound("x".to_string())).message("x is missing"),
        "workspace error: x is missing"
    );
    assert_eq!(
        CoordError::Vcs("locked".to_string()).message(""),
        "version control error: locked"
    );
    assert_eq!(
        CoordError::Aborted("no".to_string()).message(""),
        "transaction aborted: no"
    );
}

#[test]
fn undo_declares_the_article_alone() {
    let c = Coordinator::new();
    let req = c.undo_article(WriterId::Human, "t", "a.md");
    assert_eq!(req.locks.iter(), &vec!["t/a.md".to_string()]);
    assert_eq!(req.label, "undo(t/a.md)");
    assert_eq!(req.priority, Priority::Human);
}

#[test]
fn a_body_may_record_only_declared_paths() {
    let req = TxnRequest::new(WriterId::Human, article_locks("t", "a.md"), "x");
    let mut ctx = TxnCtx::new(&req);
    assert!(ctx.record_path("t/a.md").is_ok());
    assert_eq!(
        ctx.record_path("t/b.md"),
        Err(CoordError::Undeclared("t/b.md".to_string()))
    );
    assert_eq!(ctx.writer(), &WriterId::Human);
    assert_eq!(ctx.declared().len(), 2);
    assert_eq!(
        ctx.read_article(Err(ToolError::NotFound("t/x.md".to_string()))),
        Err(CoordError::Workspace(ToolError::NotFound(
            "t/x.md".to_string()
        )))
    );
    match ctx.close(Ok("message".to_string())) {
        Ok(Closing::Commit { paths, message }) => {
            assert_eq!(paths, vec!["t/a.md".to_string()]);
            assert_eq!(message, "message");
        }
        other => panic!("expected a commit, got {other:?}"),
    }
}

#[test]
fn undo_article_emits_lifecycle_and_routes_through_the_lock() {
    let mut desk = Desk::with(&["a.md"]);
    for body in ["v1", "v2"] {
        desk.submit(
            TxnRequest::new(WriterId::Human, article_locks("t", "a.md"), "seed"),
            &[write("a.md", body)],
            Ok(format!("edit {body}")),
        )
        .expect("seed");
    }
    // Drain the seed events so we only inspect the undo's.
    desk.events.clear();

    let req = desk.coordinator.undo_article(WriterId::Human, "t", "a.md");
    let ticket = desk.coordinator.enqueue(&req);
    let entered = desk
        .coordinator
        .acquire(ticket.seq, &req, ticket.parked)
        .expect("enters");
    desk.events.extend(entered);
    assert!(desk.coordinator.is_locked("t/a.md"));
    desk.perform(&write("a.md", "v1")).expect("revert");
    let left = desk.coordinator.release(&req.locks, &req.writer);
    desk.events.extend(left);

    assert_eq!(desk.kinds(), ["TxnAcquired", "TxnReleased"]);
    assert_eq!(desk.read("a.md").as_deref(), Some("v1"));
}

#[test]
fn lock_sets_are_equal_where_their_paths_are() {
    let a = LockSet::new().with("a//b").with("c");
    let b = LockSet::new().with("c/.").with("a/b");
    assert_eq!(a, b);
    assert_ne!(a, LockSet::new().with("a/b"));
    assert_ne!(a, LockSet::new().with("a/b").with("./c"));
    assert_eq!(LockSet::new(), LockSet::default());
    // The order of the declarations does not matter.
    let c = LockSet::new().with("x/b").with("x/a").with("x//b");
    assert_eq!(c, LockSet::new().with("x/a").with("x/b"));
    assert_eq!(c.len(), 2);
}
