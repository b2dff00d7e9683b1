//! Slaves, masters and their reports.

use ai_write::engine::master::{Goal, SetupAction, SetupEvent, MASTER_SYSTEM_PROMPT};
use ai_write::engine::orchestration::{
    orchestration_tools, CreateArticle, CreateArticleArgs, CreateTheme, DispatchWriter,
    DispatchWriterArgs, ListArticles, ListReports, OrchestratorState, OrganizeAction,
    OrganizeArgs, OrganizeArticles, OrganizeReply, Relation,
};
use ai_write::engine::{
    brief_slave, build_slave_session, compose_slave_prompt, compose_slave_prompt_multi,
    conclude_slave, default_slave_prompt, model_for_writer, refresh_prompt, report_from_history,
    report_status_str, reported_event, spawned_event, Master, SlaveReport, SlaveSkill, SlaveStatus,
    SlaveTask,
};
use ai_write::observe::Event;
use ai_write::req::{
    ApiError, ChatResponse, Choice, Error, FinishReason, FunctionCall, Message, Model, RespMessage,
    Role, ToolCall,
};
use ai_write::session::{
    Action, Dispatched, Progress, RunAction, Session, SessionOptions, Step,
};
use ai_write::tool::{Refusal, ToolError, ToolRegistry, WriterId};

fn agent() -> WriterId {
    WriterId::Agent {
        model: "deepseek-v4-pro".to_string(),
        label: "s1".to_string(),
    }
}

fn task(skill: Option<SlaveSkill>) -> SlaveTask {
    SlaveTask {
        theme: "t".to_string(),
        file_name: "a.md".to_string(),
        task: "write it".to_string(),
        writer: agent(),
        system_prompt: None,
        skill,
    }
}

fn chat(content: &str, calls: Vec<ToolCall>, finish: FinishReason) -> ChatResponse {
    ChatResponse {
        id: "r".to_string(),
        object: "chat.completion".to_string(),
        created: 0,
        model: "deepseek-v4-flash".to_string(),
        system_fingerprint: None,
        choices: vec![Choice {
            index: 0,
            message: RespMessage {
                role: "assistant".to_string(),
                content: Some(content.to_string()),
                reasoning_content: None,
                tool_calls: if calls.is_empty() { None } else { Some(calls) },
            },
            finish_reason: Some(finish),
        }],
        usage: None,
    }
}

fn stop_body(text: &str) -> ChatResponse {
    chat(text, Vec::new(), FinishReason::Stop)
}

fn tool_call_body(id: &str, name: &str, arguments: &str) -> ChatResponse {
    let call = ToolCall {
        id: id.to_string(),
        kind: "function".to_string(),
        function: FunctionCall {
            name: name.to_string(),
            arguments: arguments.to_string(),
        },
    };
    chat(&format!("calling {name}"), vec![call], FinishReason::ToolCalls)
}

/// Runs one round of a session on a canned reply, with a runner for its tools;
/// hands back the step and the system message that was sent.
fn round(
    session: &mut Session,
    reply: Result<ChatResponse, Error>,
    run: &mut dyn FnMut(&ToolCall) -> Result<String, String>,
) -> (Step, String) {
    let system = match session.run_round(Progress::Begin) {
        Action::Chat(request) => request.messages[0].content.clone().unwrap(),
        other => panic!("expected a request, got {other:?}"),
    };
    let mut action = session.run_round(Progress::Replied { attempt: 0, reply });
    loop {
        match action {
            Action::Finish(step) => return (step, system),
            Action::Dispatch { calls, .. } => {
                let results = calls.iter().map(|call| run(call)).collect();
                action = session.run_round(Progress::Dispatched {
                    calls,
                    outcome: Dispatched::Ran(results),
                });
            }
            other => panic!("unexpected {other:?}"),
        }
    }
}

#[test]
fn model_for_writer_pins_the_agents_dated_snapshot() {
    let pinned = WriterId::Agent {
        model: "deepseek-v4-pro-2026-05-01".to_string(),
        label: "s1".to_string(),
    };
    assert_eq!(
        model_for_writer(&pinned),
        Model::pinned("deepseek-v4-pro-2026-05-01")
    );
    // A bare family id normalizes to its named variant.
    assert_eq!(model_for_writer(&agent()), Model::V4Pro);
    // A human writer carries no model id, so the default is used.
    assert_eq!(
        model_for_writer(&WriterId::Human),
        SessionOptions::default().model
    );
}

#[test]
fn report_from_history_reads_last_report_reply() {
    let history = vec![
        Message::user("write it"),
        // An earlier, superseded report.
        Message::tool(
            "call_a",
            r#"{"status":"needs_human","summary":"stuck","result":null,"needs":"a source"}"#,
        ),
        Message::assistant("trying again"),
        // The final report wins.
        Message::tool(
            "call_b",
            r#"{"status":"done","summary":"finished","result":"t/a.md","needs":null}"#,
        ),
    ];
    let report = report_from_history(&history).expect("report present");
    assert_eq!(report.status, SlaveStatus::Done);
    assert_eq!(report.summary, "finished");
    assert_eq!(report.result.as_deref(), Some("t/a.md"));
    assert!(report.needs.is_none());
}

#[test]
fn report_from_history_maps_all_statuses() {
    for (raw, expected) in [
        ("done", SlaveStatus::Done),
        ("needs_human", SlaveStatus::NeedsHuman),
        ("failed", SlaveStatus::Failed),
    ] {
        let history = vec![Message::tool(
            "c",
            &format!(r#"{{"status":"{raw}","summary":"s"}}"#),
        )];
        let report = report_from_history(&history).expect("report");
        assert_eq!(report.status, expected);
    }
}

#[test]
fn report_from_history_ignores_non_report_tool_replies() {
    let history = vec![
        Message::tool("c1", r#"{"locked":"t/a.md"}"#),
        Message::tool("c2", r#"{"status":"weird","summary":"x"}"#),
        Message::tool("c3", r#"not json at all"#),
    ];
    assert!(report_from_history(&history).is_none());
}

#[test]
fn report_from_history_requires_summary() {
    // A `status` without a `summary` is not a complete report.
    let history = vec![Message::tool("c", r#"{"status":"done"}"#)];
    assert!(report_from_history(&history).is_none());
}

#[test]
fn report_from_history_empty_is_none() {
    assert!(report_from_history(&[]).is_none());
}

#[test]
fn report_from_history_absent_triggers_synthesis_path() {
    let history: Vec<Message> = vec![Message::assistant("done thinking, no report")];
    assert!(report_from_history(&history).is_none());
}

#[test]
fn only_tool_replies_carry_reports() {
    let history = vec![Message::user(r#"{"status":"done","summary":"s"}"#)];
    assert!(report_from_history(&history).is_none());
    // A field of another type is not a string.
    let history = vec![Message::tool("c", r#"{"status":1,"summary":"s"}"#)];
    assert!(report_from_history(&history).is_none());
}

#[test]
fn slave_report_failed_constructor() {
    let r = SlaveReport::failed("boom");
    assert_eq!(r.status, SlaveStatus::Failed);
    assert_eq!(r.summary, "boom");
    assert!(r.result.is_none());
    assert!(r.needs.is_none());
}

#[test]
fn report_status_str_round_trips_with_from_report_status() {
    for s in [
        SlaveStatus::Done,
        SlaveStatus::NeedsHuman,
        SlaveStatus::Failed,
    ] {
        let raw = report_status_str(&s);
        assert_eq!(SlaveStatus::from_report_status(raw), Some(s));
    }
    assert_eq!(SlaveStatus::from_report_status("weird"), None);
}

#[test]
fn prompts_lead_with_the_voice_and_close_with_the_rules() {
    let prompt = compose_slave_prompt("  You write terse functional prose.\n");
    assert!(prompt.starts_with("You write terse functional prose.\n\nRules you must follow:"));
    assert!(prompt.contains("write_article"));
    assert!(prompt.ends_with("Always finish by calling `report` exactly once."));

    let prompt = compose_slave_prompt_multi(&["Write tersely.", "Use a warm tone."]);
    assert!(prompt.contains("Write tersely."));
    assert!(prompt.contains("Use a warm tone."));
    assert!(prompt.contains("LATER in the stack overrides"));
    assert!(prompt.ends_with("Always finish by calling `report` exactly once."));

    assert_eq!(
        compose_slave_prompt_multi(&["Write tersely."]),
        compose_slave_prompt("Write tersely.")
    );
    assert_eq!(compose_slave_prompt_multi(&[]), default_slave_prompt());
    assert_eq!(compose_slave_prompt_multi(&[" "]), default_slave_prompt());
    assert!(default_slave_prompt().starts_with("You are a focused writing agent"));
}

#[test]
fn slave_rereads_skill_from_disk_each_round_so_a_midrun_edit_takes_effect() {
    let task = task(Some(SlaveSkill {
        dir: "skills".to_string(),
        ids: vec!["voice".to_string()],
    }));
    let mut session = build_slave_session("workspace", &task, ToolRegistry::new());
    session.push_user("go");

    // Round 1 reads the skill as it stands now (v1).
    let v1 = vec![Some("VOICE ONE: terse and plain.".to_string())];
    refresh_prompt(&mut session, &task, &v1);
    let (step1, sys1) = round(
        &mut session,
        Ok(tool_call_body(
            "c1",
            "read_article",
            r#"{"theme":"t","file_name":"a.md"}"#,
        )),
        &mut |_| Ok("{}".to_string()),
    );
    assert!(matches!(step1, Step::Tool(_)), "round 1 dispatches a tool");

    // The skill file is edited mid-run; round 2 must reflect it.
    let v2 = vec![Some("VOICE TWO: lyrical and expansive.".to_string())];
    refresh_prompt(&mut session, &task, &v2);
    let (_, sys2) = round(&mut session, Ok(stop_body("done")), &mut |_| {
        Ok("{}".to_string())
    });

    assert!(sys1.starts_with("VOICE ONE: terse and plain."));
    assert!(sys1.contains("report"));
    assert!(sys2.starts_with("VOICE TWO: lyrical and expansive."));
    assert!(sys2.contains("report"));
    assert_ne!(sys1, sys2);

    // A skill that cannot be read leaves the fallback prompt.
    refresh_prompt(&mut session, &task, &vec![None]);
    assert_eq!(session.system(), default_slave_prompt());
}

#[test]
fn slave_stacks_two_skills_in_order_with_later_wins_precedence() {
    let task = task(Some(SlaveSkill {
        dir: "skills".to_string(),
        ids: vec!["base".to_string(), "refine".to_string()],
    }));
    let mut session = build_slave_session("workspace", &task, ToolRegistry::new());
    refresh_prompt(
        &mut session,
        &task,
        &vec![
            Some("BASE: write functional prose.".to_string()),
            Some("REFINE: keep it under 200 words.".to_string()),
        ],
    );
    let sys1 = session.system().to_string();
    refresh_prompt(
        &mut session,
        &task,
        &vec![
            Some("BASE: write functional prose.".to_string()),
            Some("REFINE: keep it under 50 words.".to_string()),
        ],
    );
    let sys2 = session.system().to_string();

    let base_at = sys1
        .find("BASE: write functional prose.")
        .expect("base present");
    let refine_at = sys1
        .find("REFINE: keep it under 200 words.")
        .expect("refine present");
    assert!(base_at < refine_at, "earlier skill composes first");
    assert!(sys1.contains("LATER in the stack overrides"));
    assert!(sys1.contains("report"), "operational rules appended");
    assert!(sys2.contains("keep it under 50 words."));
    assert!(!sys2.contains("keep it under 200 words."));
}

#[test]
fn slave_without_skill_source_keeps_a_fixed_prompt_across_rounds() {
    let task = task(None);
    let mut session = build_slave_session("workspace", &task, ToolRegistry::new());
    session.push_user("go");
    refresh_prompt(&mut session, &task, &Vec::new());
    let (_, sys1) = round(
        &mut session,
        Ok(tool_call_body("c1", "read_article", "{}")),
        &mut |_| Ok("{}".to_string()),
    );
    refresh_prompt(&mut session, &task, &Vec::new());
    let (_, sys2) = round(&mut session, Ok(stop_body("done")), &mut |_| {
        Ok("{}".to_string())
    });
    assert_eq!(sys1, sys2);
    assert_eq!(sys1, default_slave_prompt());
}

#[test]
fn a_slave_session_runs_under_its_own_identity() {
    let task = task(None);
    let mut session = build_slave_session("root", &task, ToolRegistry::new());
    assert_eq!(session.options.model, Model::V4Pro);
    assert_eq!(session.options.max_rounds, 20);
    assert_eq!(session.workspace_root, "root");
    assert_eq!(session.writer, agent());
    brief_slave(&mut session, &task);
    assert_eq!(
        session.history()[0].content.as_deref(),
        Some("Theme: t\nArticle file: a.md\n\nTask:\nwrite it")
    );
    assert_eq!(session.history()[0].role, Role::User);
}

#[test]
fn a_run_without_a_report_is_synthesized_from_how_it_ended() {
    let task = task(None);
    let session = build_slave_session("root", &task, ToolRegistry::new());
    let r = conclude_slave(&session, Step::Done("text".to_string()));
    assert_eq!(r.status, SlaveStatus::Done);
    assert_eq!(r.summary, "Slave finished without calling `report`.");
    assert_eq!(r.result.as_deref(), Some("text"));
    let r = conclude_slave(&session, Step::Done(String::new()));
    assert_eq!(r.result, None);
    let r = conclude_slave(&session, Step::NeedHuman);
    assert_eq!(r.status, SlaveStatus::NeedsHuman);
    assert_eq!(
        r.summary,
        "Slave stopped and needs human intervention (round budget exhausted or escalation)."
    );
    assert_eq!(r.needs.as_deref(), Some("human intervention"));
    let r = conclude_slave(
        &session,
        Step::Failed(Error::InvalidRequest("no".to_string())),
    );
    assert_eq!(r.status, SlaveStatus::Failed);
    assert_eq!(r.summary, "Slave failed: invalid request: no");
    let r = conclude_slave(&session, Step::Tool(Vec::new()));
    assert_eq!(r.status, SlaveStatus::Failed);

    let mut session = session;
    session.history.push(Message::tool(
        "c",
        r#"{"status":"needs_human","summary":"stuck"}"#,
    ));
    let r = conclude_slave(&session, Step::Done("text".to_string()));
    assert_eq!(r.status, SlaveStatus::NeedsHuman);
    assert_eq!(r.summary, "stuck");
}

#[test]
fn a_slaves_life_is_announced() {
    assert_eq!(
        spawned_event(&task(None)),
        Event::SlaveSpawned {
            theme: "t".to_string(),
            file: "a.md".to_string(),
            writer: "deepseek-v4-pro/s1".to_string(),
        }
    );
    assert_eq!(
        reported_event(&SlaveReport::failed("boom")),
        Event::SlaveReported {
            status: "failed".to_string(),
            summary: "boom".to_string(),
        }
    );
}

fn master() -> Master {
    let session = Session::new("placeholder", ToolRegistry::new(), SessionOptions::default());
    Master::new(session, "root")
}

fn refusal(error: ToolError) -> Refusal {
    Refusal {
        error,
        message: "what it says".to_string(),
    }
}

#[test]
fn master_setup_creates_theme_and_article_idempotently() {
    let mut master = master();
    let task = SlaveTask {
        theme: "rust".to_string(),
        file_name: "intro.md".to_string(),
        task: "Write an introduction.".to_string(),
        writer: agent(),
        system_prompt: None,
        skill: None,
    };
    assert_eq!(
        master.run_one(&task, SetupEvent::Begin),
        SetupAction::CreateTheme {
            theme: "rust".to_string()
        }
    );
    let create = || SetupAction::CreateArticle {
        theme: "rust".to_string(),
        file_name: "intro.md".to_string(),
        title: "intro.md".to_string(),
        notes: Some("Write an introduction.".to_string()),
    };
    assert_eq!(master.run_one(&task, SetupEvent::Theme(Ok(()))), create());
    // Already there: tolerated.
    let exists = || refusal(ToolError::Lock("exists".to_string()));
    assert_eq!(
        master.run_one(&task, SetupEvent::Theme(Err(exists()))),
        create()
    );
    assert_eq!(
        master.run_one(&task, SetupEvent::Article(Err(exists()))),
        SetupAction::OpenCoordinator
    );
    assert_eq!(
        master.run_one(&task, SetupEvent::Coordinator(Ok(()))),
        SetupAction::Spawn
    );
    // The coordinator is opened once.
    assert_eq!(
        master.run_one(&task, SetupEvent::Article(Ok(()))),
        SetupAction::Spawn
    );
}

#[test]
fn a_failed_setup_is_an_error_and_a_failed_slave_is_not() {
    let mut master = master();
    let task = task(None);
    let violation = || refusal(ToolError::SandboxViolation("..".to_string()));
    match master.run_one(&task, SetupEvent::Theme(Err(violation()))) {
        SetupAction::Finish(Err(e)) => assert_eq!(
            e.message(),
            "failed to decode engine response: workspace setup failed at create theme: what it says"
        ),
        other => panic!("expected an error, got {other:?}"),
    }
    match master.run_one(&task, SetupEvent::Article(Err(violation()))) {
        SetupAction::Finish(Err(e)) => assert!(e.message().contains("create article")),
        other => panic!("expected an error, got {other:?}"),
    }
    match master.run_one(&task, SetupEvent::Coordinator(Err("no git".to_string()))) {
        SetupAction::Finish(Err(e)) => assert_eq!(
            e.message(),
            "failed to decode engine response: coordinator open failed: no git"
        ),
        other => panic!("expected an error, got {other:?}"),
    }
    assert!(!master.coordinator_open);
    match master.run_one(&task, SetupEvent::Joined(None)) {
        SetupAction::Finish(Ok(report)) => {
            assert_eq!(report.status, SlaveStatus::Failed);
            assert_eq!(report.summary, "Slave thread panicked.");
        }
        other => panic!("expected a report, got {other:?}"),
    }
}

/// Drives a goal to its end over canned replies, served in one order to the master
/// and to the slaves that it dispatches. Themes and articles are kept in a list.
fn drive(
    goal: &mut Goal,
    replies: &mut Vec<Result<ChatResponse, Error>>,
    articles: &mut Vec<String>,
) -> Step {
    let mut rounds: u32 = 0;
    let mut last: Option<Step> = None;
    loop {
        match goal.session.run_until_done(rounds, last) {
            RunAction::Finish(step) => return step,
            RunAction::Round => {}
        }
        let reply = replies.remove(0);
        let state = &mut goal.state;
        let (step, _) = round(&mut goal.session, reply, &mut |call| {
            let args: serde_json::Value =
                serde_json::from_str(&call.function.arguments).map_err(|e| e.to_string())?;
            let text = |key: &str| args[key].as_str().unwrap_or_default().to_string();
            match call.function.name.as_str() {
                "create_theme" => CreateTheme
                    .call(text("theme"), Ok(text("theme")))
                    .map(|r| r.theme)
                    .map_err(|e| format!("{e:?}")),
                "create_article" => {
                    articles.push(text("file_name"));
                    Ok("{}".to_string())
                }
                "dispatch_writer" => {
                    let args = DispatchWriterArgs {
                        theme: text("theme"),
                        file_name: text("file_name"),
                        task: text("task"),
                        label: None,
                    };
                    let task = DispatchWriter
                        .prepare(state, &args)
                        .map_err(|e| format!("{e:?}"))?;
                    let mut slave = build_slave_session("root", &task, ToolRegistry::new());
                    brief_slave(&mut slave, &task);
                    let (step, system) =
                        round(&mut slave, replies.remove(0), &mut |_| Ok("{}".to_string()));
                    assert_eq!(Some(system), task.system_prompt);
                    let report = conclude_slave(&slave, step);
                    let reply = DispatchWriter.call(state, &args, Some(report));
                    Ok(reply.article)
                }
                other => Err(format!("no tool {other}")),
            }
        });
        rounds += 1;
        last = Some(step);
    }
}

#[test]
fn run_goal_plans_dispatches_and_aggregates_over_a_fake() {
    let mut replies = vec![
        Ok(tool_call_body("c1", "create_theme", r#"{"theme":"rust"}"#)),
        Ok(tool_call_body(
            "c2",
            "create_article",
            r#"{"theme":"rust","file_name":"intro.md","title":"Intro"}"#,
        )),
        Ok(tool_call_body(
            "c3",
            "dispatch_writer",
            r#"{"theme":"rust","file_name":"intro.md","task":"Write a short intro to ownership."}"#,
        )),
        // The slave's single round, inside the third.
        Ok(stop_body("intro drafted")),
        Ok(stop_body("All articles written: rust/intro.md is done.")),
    ];
    let mut master = master();
    let mut goal = master
        .run_goal(
            Ok(()),
            "Write a short beginner guide to Rust ownership.",
            SessionOptions::default(),
            "deepseek-v4-pro",
            None,
        )
        .expect("goal is planned");
    assert_eq!(goal.session.system(), MASTER_SYSTEM_PROMPT);
    assert_eq!(goal.session.tools.len(), 6);
    let mut articles = Vec::new();
    let terminal = drive(&mut goal, &mut replies, &mut articles);
    let outcome = master
        .finish_goal(goal, terminal)
        .expect("goal runs without a fatal error");

    assert_eq!(outcome.outcome, "done");
    assert_eq!(
        outcome.message,
        "All articles written: rust/intro.md is done."
    );
    assert_eq!(outcome.reports.len(), 1, "one writer dispatched");
    assert_eq!(outcome.reports[0].status, SlaveStatus::Done);
    assert_eq!(outcome.reports[0].result.as_deref(), Some("intro drafted"));
    assert_eq!(articles, vec!["intro.md"]);
    assert!(master.usage().rounds >= 1, "master ran real rounds");
    assert_eq!(master.usage().rounds, 4);
}

#[test]
fn run_goal_surfaces_a_collected_slave_failure_without_erroring() {
    let mut replies = vec![
        Ok(tool_call_body(
            "c1",
            "dispatch_writer",
            r#"{"theme":"rust","file_name":"intro.md","task":"Write something."}"#,
        )),
        Err(Error::Api(ApiError::from_status(
            400,
            r#"{"error":{"message":"bad request"}}"#,
        ))),
        Ok(stop_body("A writer failed; reporting back.")),
    ];
    let mut master = master();
    let mut goal = master
        .run_goal(
            Ok(()),
            "Write one article.",
            SessionOptions::default(),
            "deepseek-v4-pro",
            None,
        )
        .expect("goal is planned");
    let terminal = drive(&mut goal, &mut replies, &mut Vec::new());
    let outcome = master
        .finish_goal(goal, terminal)
        .expect("a collected slave failure is not a master error");
    assert_eq!(outcome.outcome, "done");
    assert_eq!(outcome.reports.len(), 1);
    assert_eq!(outcome.reports[0].status, SlaveStatus::Failed);
    assert_eq!(
        outcome.reports[0].summary,
        "Slave failed: DeepSeek API error 400 (BadRequest): bad request"
    );
}

#[test]
fn a_goal_needs_the_coordinator_and_a_fatal_round_is_an_error() {
    let mut master = master();
    let err = master
        .run_goal(
            Err("no git".to_string()),
            "goal",
            SessionOptions::default(),
            "m",
            None,
        )
        .unwrap_err();
    assert!(err.message().contains("coordinator open failed: no git"));
    let goal = master
        .run_goal_with_skills(
            Ok(()),
            "goal",
            SessionOptions::default(),
            "m",
            &["Write tersely.", "Use a warm tone."],
            Some(SlaveSkill {
                dir: "skills".to_string(),
                ids: vec!["a".to_string(), "b".to_string()],
            }),
        )
        .expect("planned");
    assert!(master.coordinator_open);
    assert_eq!(
        goal.state.slave_prompt,
        compose_slave_prompt_multi(&["Write tersely.", "Use a warm tone."])
    );
    let err = master
        .finish_goal(goal, Step::Failed(Error::Config("x".to_string())))
        .unwrap_err();
    assert_eq!(err, Error::Config("x".to_string()));

    let goal = master
        .run_goal_with_skill(
            Err("ignored: it is open".to_string()),
            "goal",
            SessionOptions::default(),
            "m",
            Some("Write tersely."),
            None,
        )
        .expect("planned");
    assert_eq!(
        goal.state.slave_prompt,
        compose_slave_prompt("Write tersely.")
    );
    let outcome = master.finish_goal(goal, Step::NeedHuman).unwrap();
    assert_eq!(outcome.outcome, "need_human");
    assert_eq!(outcome.message, "");
}

// --- orchestration tools -------------------------------------------------------

#[test]
fn create_theme_is_idempotent() {
    let out = CreateTheme
        .call("rust".to_string(), Ok("rust".to_string()))
        .unwrap();
    assert!(out.created);
    assert_eq!(out.theme, "rust");
    let out = CreateTheme
        .call(
            "rust".to_string(),
            Err(ToolError::Lock("exists".to_string())),
        )
        .unwrap();
    assert!(!out.created);
    assert_eq!(out.theme, "rust");
}

fn article_args(title: &str) -> CreateArticleArgs {
    CreateArticleArgs {
        theme: "rust".to_string(),
        file_name: "intro.md".to_string(),
        title: title.to_string(),
        notes: None,
    }
}

#[test]
fn create_article_is_idempotent_and_listed() {
    let args = article_args("Intro");
    assert_eq!(CreateArticle.title(&args), "Intro");
    let out = CreateArticle.call(&args, Ok(())).unwrap();
    assert!(out.created);
    assert_eq!(out.article, "rust/intro.md");
    // Second create is a no-op, under the file name as its title.
    let args = article_args("");
    assert_eq!(CreateArticle.title(&args), "intro.md");
    let out = CreateArticle
        .call(&args, Err(ToolError::Lock("exists".to_string())))
        .unwrap();
    assert!(!out.created);
}

#[test]
fn create_theme_rejects_sandbox_escape() {
    let err = CreateTheme
        .call(
            "../evil".to_string(),
            Err(ToolError::SandboxViolation("../evil".to_string())),
        )
        .unwrap_err();
    assert!(matches!(err, ToolError::SandboxViolation(_)));
}

#[test]
fn create_article_missing_theme_errors() {
    let err = CreateArticle
        .call(
            &article_args(""),
            Err(ToolError::NotFound("ghost".to_string())),
        )
        .unwrap_err();
    assert!(matches!(err, ToolError::NotFound(_)));
}

fn organize(relations: &[(&str, &str)], order: Option<&[&str]>) -> OrganizeArgs {
    OrganizeArgs {
        theme: "rust".to_string(),
        relations: relations
            .iter()
            .map(|(file, parent)| Relation {
                file_name: file.to_string(),
                parent: Some(parent.to_string()),
            })
            .collect(),
        order: order.map(|names| names.iter().map(|n| n.to_string()).collect()),
    }
}

#[test]
fn organize_articles_sets_hierarchy_and_order() {
    let args = organize(
        &[("b.md", "a.md"), ("c.md", "b.md")],
        Some(&["a.md", "b.md", "c.md"]),
    );
    assert_eq!(
        OrganizeArticles.call(&args, 0, Ok(())),
        OrganizeAction::SetParent {
            theme: "rust".to_string(),
            file_name: "b.md".to_string(),
            parent: Some("a.md".to_string()),
        }
    );
    assert_eq!(
        OrganizeArticles.call(&args, 1, Ok(())),
        OrganizeAction::SetParent {
            theme: "rust".to_string(),
            file_name: "c.md".to_string(),
            parent: Some("b.md".to_string()),
        }
    );
    assert_eq!(
        OrganizeArticles.call(&args, 2, Ok(())),
        OrganizeAction::Reorder {
            theme: "rust".to_string(),
            order: vec!["a.md".to_string(), "b.md".to_string(), "c.md".to_string()],
        }
    );
    assert_eq!(
        OrganizeArticles.call(&args, 3, Ok(())),
        OrganizeAction::Finish(Ok(OrganizeReply {
            theme: "rust".to_string(),
            relations_set: 2,
            reordered: true,
        }))
    );
}

#[test]
fn organize_articles_propagates_workspace_errors() {
    // Parent does not exist -> NotFound bubbles up from setting the parent.
    let args = organize(&[("a.md", "ghost.md")], None);
    assert_eq!(
        OrganizeArticles.call(&args, 1, Err(ToolError::NotFound("ghost.md".to_string()))),
        OrganizeAction::Finish(Err(ToolError::NotFound("ghost.md".to_string())))
    );
    // A reorder that is not a permutation -> InvalidArgs.
    let args = organize(&[], Some(&["a.md", "b.md"]));
    assert!(matches!(
        OrganizeArticles.call(&args, 0, Ok(())),
        OrganizeAction::Reorder { .. }
    ));
    assert!(matches!(
        OrganizeArticles.call(&args, 1, Err(ToolError::InvalidArgs("order".to_string()))),
        OrganizeAction::Finish(Err(ToolError::InvalidArgs(_)))
    ));
}

#[test]
fn dispatch_writer_rejects_empty_task() {
    let state = OrchestratorState::new("deepseek-v4-flash", "");
    let err = DispatchWriter
        .prepare(
            &state,
            &DispatchWriterArgs {
                theme: "rust".to_string(),
                file_name: "a.md".to_string(),
                task: "   ".to_string(),
                label: None,
            },
        )
        .unwrap_err();
    assert_eq!(
        err,
        ToolError::InvalidArgs("`task` must not be empty".to_string())
    );
}

#[test]
fn list_reports_starts_empty() {
    let state = OrchestratorState::new("deepseek-v4-flash", "");
    let out = ListReports.call(&state);
    assert_eq!(out.count, 0);
    assert!(out.reports.is_empty());
}

#[test]
fn dispatch_writer_runs_a_slave_and_records_the_report() {
    let mut state = OrchestratorState::new("deepseek-v4-flash", &default_slave_prompt());
    let args = DispatchWriterArgs {
        theme: "rust".to_string(),
        file_name: "intro.md".to_string(),
        task: "Write an intro.".to_string(),
        label: None,
    };
    let task = DispatchWriter.prepare(&state, &args).unwrap();
    assert_eq!(
        task.writer,
        WriterId::Agent {
            model: "deepseek-v4-flash".to_string(),
            label: "intro.md".to_string(),
        }
    );
    let mut slave = build_slave_session("root", &task, ToolRegistry::new());
    brief_slave(&mut slave, &task);
    let (step, _) = round(&mut slave, Ok(stop_body("wrote the intro")), &mut |_| {
        Ok("{}".to_string())
    });
    let report = conclude_slave(&slave, step);
    let out = DispatchWriter.call(&mut state, &args, Some(report));
    assert_eq!(out.report.status, SlaveStatus::Done);
    assert_eq!(out.article, "rust/intro.md");

    let listed = ListReports.call(&state);
    assert_eq!(listed.count, 1);
    assert_eq!(listed.reports[0].status, SlaveStatus::Done);

    let out = DispatchWriter.call(&mut state, &args, None);
    assert_eq!(out.report.summary, "Slave thread panicked.");
    assert_eq!(ListReports.call(&state).count, 2);
}

#[test]
fn the_orchestration_tools_are_advertised_with_schemas() {
    let tools = orchestration_tools();
    let names: Vec<&str> = tools
        .tools
        .iter()
        .map(|t| t.function.name.as_str())
        .collect();
    assert_eq!(
        names,
        vec![
            CreateTheme.name(),
            CreateArticle.name(),
            ListArticles.name(),
            OrganizeArticles.name(),
            DispatchWriter.name(),
            ListReports.name(),
        ]
    );
    for tool in &tools.tools {
        let text = tool.function.parameters.as_deref().expect("a schema");
        let v: serde_json::Value = serde_json::from_str(text).expect("JSON");
        assert_eq!(v["type"], "object");
        // The text is what the JSON writer gives for it.
        assert_eq!(v.to_string(), text);
    }
    let organize: serde_json::Value =
        serde_json::from_str(tools.tools[3].function.parameters.as_deref().unwrap()).unwrap();
    assert_eq!(
        organize["properties"]["relations"]["items"]["required"][0],
        "file_name"
    );
    assert_eq!(organize["properties"]["order"]["items"]["type"], "string");
}
