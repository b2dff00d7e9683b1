//! The turn engine.

use ai_write::req::{
    ApiError, ChatResponse, Choice, CompletionTokensDetails, Effort, Error, FinishReason,
    FunctionCall, FunctionDef, Message, Model, RespMessage, Role, Thinking, Tool, ToolCall,
    ToolChoice, TransportError, Usage,
};
use ai_write::session::{
    Action, Dispatched, Progress, RunAction, Session, SessionOptions, Step, UsageTotals,
};
use ai_write::tool::{ToolRegistry, WriterId};

/// The definition of a trivial tool.
fn echo_tool() -> Tool {
    Tool::function(FunctionDef {
        name: "echo".to_string(),
        description: Some("Echoes its arguments.".to_string()),
        parameters: Some(
            r#"{"properties":{"text":{"type":"string"}},"type":"object"}"#.to_string(),
        ),
    })
}

fn usage(prompt: u32, completion: u32, reasoning: Option<u32>) -> Usage {
    Usage {
        prompt_tokens: prompt,
        completion_tokens: completion,
        total_tokens: prompt + completion,
        prompt_cache_hit_tokens: 0,
        prompt_cache_miss_tokens: prompt,
        completion_tokens_details: reasoning.map(|r| CompletionTokensDetails {
            reasoning_tokens: Some(r),
        }),
        prompt_tokens_details: None,
    }
}

fn session(system: &str) -> Session {
    Session::new(system, ToolRegistry::new(), SessionOptions::default())
}

fn call(id: &str, name: &str) -> ToolCall {
    ToolCall {
        id: id.to_string(),
        kind: "function".to_string(),
        function: FunctionCall {
            name: name.to_string(),
            arguments: "{}".to_string(),
        },
    }
}

fn response(
    content: Option<&str>,
    calls: Option<Vec<ToolCall>>,
    finish: Option<FinishReason>,
) -> ChatResponse {
    ChatResponse {
        id: "r".to_string(),
        object: "chat.completion".to_string(),
        created: 0,
        model: "deepseek-v4-flash".to_string(),
        system_fingerprint: None,
        choices: vec![Choice {
            index: 0,
            message: RespMessage {
                role: "assistant".to_string(),
                content: content.map(|c| c.to_string()),
                reasoning_content: Some("hidden".to_string()),
                tool_calls: calls,
            },
            finish_reason: finish,
        }],
        usage: Some(usage(5, 3, None)),
    }
}

fn replied(response: ChatResponse) -> Progress {
    Progress::Replied {
        attempt: 0,
        reply: Ok(response),
    }
}

#[test]
fn default_options_match_spec() {
    let o = SessionOptions::default();
    assert_eq!(o.model, Model::V4Flash);
    assert!(o.thinking.is_none());
    assert!(o.max_tokens.is_none());
    assert_eq!(o.max_rounds, 20);
    assert_eq!(o.max_retries, 3);
}

#[test]
fn usage_totals_accumulate_across_rounds() {
    let mut totals = UsageTotals::default();
    totals.add(&usage(10, 5, Some(2)));
    totals.add(&usage(7, 3, None));

    assert_eq!(totals.prompt_tokens, 17);
    assert_eq!(totals.completion_tokens, 8);
    assert_eq!(totals.total_tokens, 25);
    assert_eq!(totals.prompt_cache_miss_tokens, 17);
    assert_eq!(totals.reasoning_tokens, 2); // None contributes 0
    assert_eq!(totals.rounds, 2);
}

#[test]
fn usage_adds_up_in_any_order() {
    let (a, b) = (usage(10, 5, Some(2)), usage(7, 3, None));
    let mut ab = UsageTotals::default();
    ab.add(&a);
    ab.add(&b);
    let mut ba = UsageTotals::default();
    ba.add(&b);
    ba.add(&a);
    assert_eq!(ab, ba);
}

#[test]
fn push_user_appends_user_message() {
    let mut s = session("system prompt");
    assert!(s.history().is_empty());
    s.push_user("hello");
    assert_eq!(s.history().len(), 1);
    assert_eq!(s.history()[0].role, Role::User);
    assert_eq!(s.history()[0].content.as_deref(), Some("hello"));
    assert_eq!(s.system(), "system prompt");
}

#[test]
fn build_request_puts_system_first_then_history() {
    let mut s = session("you are careful");
    s.push_user("first");
    s.history.push(Message::assistant("ack"));
    s.push_user("second");

    let req = s.build_request().expect("valid request");
    assert_eq!(req.messages.len(), 4);
    assert_eq!(req.messages[0].role, Role::System);
    assert_eq!(req.messages[0].content.as_deref(), Some("you are careful"));
    assert_eq!(req.messages[1].role, Role::User);
    assert_eq!(req.messages[1].content.as_deref(), Some("first"));
    assert_eq!(req.messages[2].role, Role::Assistant);
    assert_eq!(req.messages[3].content.as_deref(), Some("second"));
}

#[test]
fn build_request_omits_tools_when_registry_empty() {
    let mut s = session("sys");
    s.push_user("hi");
    let req = s.build_request().expect("valid request");
    assert!(req.tools.is_none());
    assert!(req.tool_choice.is_none());
}

#[test]
fn build_request_exports_tool_definitions_with_auto_choice() {
    let mut registry = ToolRegistry::new();
    registry.register(echo_tool());
    assert_eq!(registry.len(), 1);
    assert!(!registry.is_empty());

    let mut s = Session::new("sys", registry, SessionOptions::default());
    s.push_user("hi");
    let req = s.build_request().expect("valid request");

    let tools = req.tools.expect("tools attached");
    assert_eq!(tools.len(), 1);
    assert_eq!(tools[0].function.name, "echo");
    assert_eq!(req.tool_choice, Some(ToolChoice::Auto));
}

#[test]
fn build_request_propagates_thinking_and_max_tokens() {
    let opts = SessionOptions {
        model: Model::V4Pro,
        thinking: Some(Thinking::Enabled {
            effort: Effort::High,
        }),
        max_tokens: Some(1024),
        max_rounds: 5,
        max_retries: 1,
    };
    let mut s = Session::new("sys", ToolRegistry::new(), opts);
    s.push_user("hi");
    let req = s.build_request().expect("valid request");

    assert_eq!(req.model, Model::V4Pro);
    assert_eq!(req.max_tokens, Some(1024));
    assert!(matches!(req.thinking, Some(Thinking::Enabled { .. })));
}

#[test]
fn history_back_fill_strips_reasoning_content_keeps_tool_calls() {
    let resp = RespMessage {
        role: "assistant".to_string(),
        content: Some("answer".to_string()),
        reasoning_content: Some("secret chain of thought".to_string()),
        tool_calls: Some(vec![call("call_1", "echo")]),
    };
    let msg = resp.to_history();
    assert_eq!(msg.role, Role::Assistant);
    assert_eq!(msg.content.as_deref(), Some("answer"));
    assert!(
        msg.reasoning_content.is_none(),
        "reasoning_content must be stripped from multi-turn history"
    );
    assert_eq!(msg.tool_calls, Some(vec![call("call_1", "echo")]));
}

#[test]
fn snapshot_restore_round_trip_preserves_state() {
    let mut s = session("persisted system");
    s.push_user("turn one");
    s.usage.add(&usage(100, 50, Some(10)));

    let snap = s.snapshot();
    assert_eq!(snap.system, "persisted system");
    assert_eq!(snap.history.len(), 1);
    assert_eq!(snap.usage.rounds, 1);

    let restored = Session::restore(snap, ToolRegistry::new());
    assert_eq!(restored.system(), "persisted system");
    assert_eq!(restored.history().len(), 1);
    assert_eq!(restored.usage().total_tokens, 150);
    assert_eq!(restored.usage().reasoning_tokens, 10);
    assert_eq!(restored.history, s.history);
    assert_eq!(restored.options, s.options);
}

#[test]
fn empty_registry_exports_no_definitions() {
    let registry = ToolRegistry::new();
    assert!(registry.is_empty());
    assert_eq!(registry.len(), 0);
    assert!(registry.definitions().is_empty());
}

#[test]
fn a_round_begins_with_the_request() {
    let mut s = session("sys");
    s.push_user("hi");
    match s.run_round(Progress::Begin) {
        Action::Chat(req) => {
            assert_eq!(req.messages.len(), 2);
            assert_eq!(req.model, Model::V4Flash);
        }
        other => panic!("expected a request, got {other:?}"),
    }
    assert_eq!(s.history().len(), 1);
}

#[test]
fn the_finish_reason_decides_what_follows() {
    let cases = [
        (Some(FinishReason::Stop), Step::Done("text".to_string())),
        (None, Step::Done("text".to_string())),
        (Some(FinishReason::Length), Step::Message("text".to_string())),
        (Some(FinishReason::ContentFilter), Step::NeedHuman),
        (
            Some(FinishReason::InsufficientSystemResource),
            Step::NeedHuman,
        ),
        (
            Some(FinishReason::Unknown("new".to_string())),
            Step::NeedHuman,
        ),
    ];
    for (finish, step) in cases {
        let mut s = session("sys");
        s.push_user("hi");
        let action = s.run_round(replied(response(Some("text"), None, finish)));
        assert_eq!(action, Action::Finish(step));
        // The assistant turn was back-filled, without its thinking chain.
        assert_eq!(s.history().len(), 2);
        assert_eq!(s.history()[1].role, Role::Assistant);
        assert!(s.history()[1].reasoning_content.is_none());
        assert_eq!(s.usage().rounds, 1);
        assert_eq!(s.usage().total_tokens, 8);
    }
}

#[test]
fn a_reply_without_choices_is_a_decode_error() {
    let mut s = session("sys");
    s.push_user("hi");
    let mut empty = response(None, None, None);
    empty.choices.clear();
    empty.usage = None;
    let action = s.run_round(replied(empty));
    match action {
        Action::Finish(Step::Failed(e)) => assert_eq!(
            e.message(),
            "failed to decode chat response: chat response contained no choices"
        ),
        other => panic!("expected a failure, got {other:?}"),
    }
    // The round counts even though the server omitted its usage.
    assert_eq!(s.usage().rounds, 1);
    assert_eq!(s.usage().total_tokens, 0);
    assert_eq!(s.history().len(), 1);
}

#[test]
fn tool_calls_are_dispatched_and_answered() {
    let mut s = session("sys");
    s.push_user("hi");
    let calls = vec![call("c1", "echo"), call("c2", "fail")];
    let action = s.run_round(replied(response(
        None,
        Some(calls.clone()),
        Some(FinishReason::ToolCalls),
    )));
    assert_eq!(
        action,
        Action::Dispatch {
            calls: calls.clone(),
            open: true
        }
    );
    let action = s.run_round(Progress::Dispatched {
        calls: calls.clone(),
        outcome: Dispatched::Ran(vec![
            Ok(r#"{"echo":1}"#.to_string()),
            Err("no \"such\" thing".to_string()),
        ]),
    });
    assert_eq!(
        action,
        Action::Finish(Step::Tool(vec!["echo".to_string(), "fail".to_string()]))
    );
    assert_eq!(s.history().len(), 4);
    assert_eq!(s.history()[2].role, Role::Tool);
    assert_eq!(s.history()[2].tool_call_id.as_deref(), Some("c1"));
    assert_eq!(s.history()[2].content.as_deref(), Some(r#"{"echo":1}"#));
    assert_eq!(s.history()[3].tool_call_id.as_deref(), Some("c2"));
    assert_eq!(
        s.history()[3].content.as_deref(),
        Some(r#"{"error":"no \"such\" thing"}"#)
    );

    // The workspace is open now, and stays so.
    let action = s.run_round(replied(response(
        None,
        Some(vec![call("c3", "echo")]),
        Some(FinishReason::ToolCalls),
    )));
    assert!(matches!(action, Action::Dispatch { open: false, .. }));

    // Another workspace is opened anew.
    s.set_workspace("elsewhere", WriterId::Human);
    let action = s.run_round(replied(response(
        None,
        Some(vec![call("c4", "echo")]),
        Some(FinishReason::ToolCalls),
    )));
    assert!(matches!(action, Action::Dispatch { open: true, .. }));
    assert_eq!(s.workspace_root, "elsewhere");
}

#[test]
fn a_workspace_that_cannot_be_opened_is_told_to_every_call() {
    let mut s = session("sys");
    let calls = vec![call("c1", "echo"), call("c2", "echo")];
    let action = s.run_round(Progress::Dispatched {
        calls,
        outcome: Dispatched::OpenFailed("denied".to_string()),
    });
    assert!(matches!(action, Action::Finish(Step::Tool(_))));
    for message in s.history() {
        assert_eq!(message.content.as_deref(), Some(r#"{"error":"denied"}"#));
    }
    assert_eq!(s.history().len(), 2);
    assert!(!s.workspace_open);
}

#[test]
fn tool_calls_without_a_call_are_an_intermediate_message() {
    for calls in [None, Some(Vec::new())] {
        let mut s = session("sys");
        let action = s.run_round(replied(response(
            Some("text"),
            calls,
            Some(FinishReason::ToolCalls),
        )));
        assert_eq!(action, Action::Finish(Step::Message(String::new())));
    }
}

#[test]
fn transient_errors_are_retried_with_a_linear_backoff() {
    let mut s = session("sys");
    let overloaded = || Error::Api(ApiError::from_status(503, "busy"));
    for attempt in 0..3 {
        let action = s.run_round(Progress::Replied {
            attempt,
            reply: Err(overloaded()),
        });
        assert_eq!(
            action,
            Action::Retry {
                attempt: attempt + 1,
                millis: 250 * (attempt as u64 + 1)
            }
        );
    }
    let action = s.run_round(Progress::Replied {
        attempt: 3,
        reply: Err(overloaded()),
    });
    assert_eq!(action, Action::Finish(Step::Failed(overloaded())));

    // What no retry helps is fatal at once.
    let action = s.run_round(Progress::Replied {
        attempt: 0,
        reply: Err(Error::Api(ApiError::from_status(400, "bad"))),
    });
    assert!(matches!(action, Action::Finish(Step::Failed(_))));
    let action = s.run_round(Progress::Replied {
        attempt: 0,
        reply: Err(Error::Transport(TransportError::Tls)),
    });
    assert!(matches!(action, Action::Finish(Step::Failed(_))));
    assert_eq!(s.usage().rounds, 0);
}

#[test]
fn a_run_ends_with_a_terminal_step_or_for_want_of_rounds() {
    let s = session("sys");
    assert_eq!(s.run_until_done(0, None), RunAction::Round);
    assert_eq!(
        s.run_until_done(1, Some(Step::Tool(vec!["echo".to_string()]))),
        RunAction::Round
    );
    assert_eq!(
        s.run_until_done(19, Some(Step::Message("more".to_string()))),
        RunAction::Round
    );
    assert_eq!(
        s.run_until_done(20, Some(Step::Message("more".to_string()))),
        RunAction::Finish(Step::NeedHuman)
    );
    assert_eq!(
        s.run_until_done(1, Some(Step::Done("ok".to_string()))),
        RunAction::Finish(Step::Done("ok".to_string()))
    );
    assert_eq!(
        s.run_until_done(1, Some(Step::NeedHuman)),
        RunAction::Finish(Step::NeedHuman)
    );
}

#[test]
fn an_error_is_told_as_a_json_object() {
    let mut s = session("sys");
    s.push_user("hi");
    s.run_round(Progress::Begin);
    let calls = vec![call("c1", "fail")];
    s.run_round(replied(response(
        None,
        Some(calls.clone()),
        Some(FinishReason::ToolCalls),
    )));
    s.run_round(Progress::Dispatched {
        calls,
        outcome: Dispatched::Ran(vec![Err(
            "q\" b\\ \u{8}\t\n\u{c}\r \u{0}\u{1f} / \u{7f} é".to_string(),
        )]),
    });
    assert_eq!(
        s.history().last().unwrap().content.as_deref(),
        Some("{\"error\":\"q\\\" b\\\\ \\b\\t\\n\\f\\r \\u0000\\u001f / \u{7f} é\"}")
    );
}
