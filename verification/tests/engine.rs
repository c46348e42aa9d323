use aion::commands::{command_result, parse_command_input, CommandOutcome};
use aion::compaction::{
    autocompact_notice, compute_autocompact_threshold, microcompact_notice,
    plan_autocompact, AutocompactOutcome, CompactConfig, CompactState, CompactionEvent,
    CompactionPhase, Microcompacted, Notice,
};
use aion::compat::ProviderCompat;
use aion::engine::{AgentEngine, AgentResult, EngineConfig, Session, ToolEntry};
use aion::error::AgentError;
use aion::json::JsonValue;
use aion::llm::{LlmEvent, LlmRequest, ThinkingConfig, ToolDef};
use aion::message::{ContentBlock, Message, Role, StopReason, TokenUsage};
use aion::rounds::{emit_tool_results, finish_tool_round, plan_tool_round};
use aion::run::RunAction;
use aion::stream::{StreamOutcome, StreamOutput};
use aion::tool_call::{ContextModifier, PlanModeTransition};
use aion::turn::{FinalizationReason, TurnKind};

fn json(text: &str) -> JsonValue {
    JsonValue::parse(text).unwrap()
}

fn compact_config() -> CompactConfig {
    CompactConfig {
        enabled: true,
        context_window: 200_000,
        output_reserve: 20_000,
        autocompact_buffer: 13_000,
        emergency_buffer: 3_000,
        autocompact_threshold_pct: None,
        cache_diagnostics: false,
    }
}

fn config() -> EngineConfig {
    EngineConfig {
        compat: ProviderCompat::openai_defaults(),
        thinking: None,
        system_prompt: Some("be brief".to_string()),
        model: "m1".to_string(),
        max_tokens: Some(1024),
        max_turns: Some(10),
        max_tool_call_malformed_turns: None,
        max_tool_call_failure_turns: None,
        allow_list: vec!["Read".to_string()],
        compact: compact_config(),
        compaction: "safe".to_string(),
        toon: false,
    }
}

fn usage(input_tokens: u64, output_tokens: u64) -> TokenUsage {
    TokenUsage { input_tokens, output_tokens, cache_creation_tokens: 0, cache_read_tokens: 0 }
}

fn done(stop_reason: StopReason, usage: TokenUsage) -> LlmEvent {
    LlmEvent::Done { stop_reason, usage }
}

fn tool_use(id: &str, name: &str, input: &str) -> LlmEvent {
    LlmEvent::ToolUse { id: id.into(), name: name.into(), input: json(input), extra: None }
}

fn text(s: &str) -> LlmEvent {
    LlmEvent::TextDelta(s.to_string())
}

/// What a scripted run leaves behind.
struct Trace {
    requests: Vec<LlmRequest>,
    shown_calls: Vec<(String, String)>,
    shown_results: Vec<(String, String, bool)>,
    errors: Vec<String>,
}

fn turn(
    engine: &mut AgentEngine,
    kind: TurnKind,
    script: &mut Vec<Vec<LlmEvent>>,
    trace: &mut Trace,
) -> Result<StreamOutcome, AgentError> {
    trace.requests.push(engine.build_request(kind, &Vec::new(), "plan"));
    let events = if script.is_empty() { Vec::new() } else { script.remove(0) };
    let mut outcome = StreamOutcome::start();
    for event in events {
        if let Some(StreamOutput::ToolCall { id, name, .. }) = outcome.push_event(event)? {
            trace.shown_calls.push((id, name));
        }
    }
    engine.checked_record_measured_usage(&outcome.usage).unwrap();
    Ok(outcome)
}

/// Runs a script of replies; every tool answers with `tool_output`.
fn run(
    engine: &mut AgentEngine,
    input: &str,
    mut script: Vec<Vec<LlmEvent>>,
    tool_output: (&str, bool),
) -> (Result<AgentResult, AgentError>, Trace) {
    let mut trace = Trace {
        requests: Vec::new(),
        shown_calls: Vec::new(),
        shown_results: Vec::new(),
        errors: Vec::new(),
    };
    let mut guards = engine.begin_run(input, "msg-1");
    let mut step = engine.next_turn(&guards);
    loop {
        if let Some(e) = step.error.take() {
            trace.errors.push(e);
        }
        match step.action {
            RunAction::NormalTurn => {
                match turn(engine, TurnKind::Normal, &mut script, &mut trace) {
                    Ok(outcome) => step = engine.after_turn(&mut guards, outcome),
                    Err(e) => return (Err(e), trace),
                }
            }
            RunAction::FinalTurn(f) => {
                let kind = TurnKind::Finalization(f.reason);
                match turn(engine, kind, &mut script, &mut trace) {
                    Ok(outcome) => {
                        step = engine.finalize_once(f, guards.counted_turns(), outcome)
                    }
                    Err(e) => return (Err(e), trace),
                }
            }
            RunAction::ExecuteTools { tool_calls, assistant_text } => {
                let plan = plan_tool_round(&tool_calls);
                let mut results = Vec::new();
                let mut modifiers = Vec::new();
                for call in &plan.executable_tool_calls {
                    if let ContentBlock::ToolUse { id, .. } = call {
                        results.push(ContentBlock::ToolResult {
                            tool_use_id: id.clone(),
                            content: tool_output.0.to_string(),
                            is_error: tool_output.1,
                        });
                        modifiers.push(None);
                    }
                }
                let output =
                    finish_tool_round(&tool_calls, &assistant_text, plan, results, modifiers);
                engine.apply_context_modifiers(&output.tool_modifiers);
                for shown in emit_tool_results(&tool_calls, &output.tool_results) {
                    trace.shown_results.push((shown.tool_use_id, shown.tool_name, shown.is_error));
                }
                step = engine.after_tools(
                    &mut guards,
                    output.tool_results,
                    output.tool_call_malformed_fingerprint,
                    output.tool_call_failure_fingerprint,
                );
            }
            RunAction::Return(result) => return (Ok(result), trace),
            RunAction::Fail(e) => return (Err(e), trace),
        }
    }
}

fn malformed_turn() -> Vec<LlmEvent> {
    vec![tool_use("bad", "", "{}"), done(StopReason::ToolUse, usage(50, 20))]
}

#[test]
fn run_with_a_text_reply_ends_after_one_turn() {
    let mut engine = AgentEngine::new(config());
    let script = vec![vec![text("Hello, "), text("world!"), done(StopReason::EndTurn, usage(1, 2))]];
    let (result, trace) = run(&mut engine, "Hi", script, ("", false));
    let result = result.unwrap();
    assert_eq!(result.text, "Hello, world!");
    assert_eq!(result.stop_reason, StopReason::EndTurn);
    assert_eq!(result.turns, 1);
    assert_eq!(engine.msg_id, "msg-1");
    assert_eq!(engine.messages.len(), 2);
    assert_eq!(trace.requests.len(), 1);
    assert_eq!(trace.requests[0].system, "be brief");
    assert_eq!(trace.requests[0].model, "m1");
}

#[test]
fn run_executes_tools_and_continues() {
    let mut engine = AgentEngine::new(config());
    let script = vec![
        vec![tool_use("tool-1", "mock_tool", "{}"), done(StopReason::ToolUse, usage(80, 30))],
        vec![text("Done"), done(StopReason::EndTurn, usage(100, 50))],
    ];
    let (result, _) = run(&mut engine, "Use the tool", script, ("tool output", false));
    let result = result.unwrap();
    assert_eq!(result.turns, 2);
    assert_eq!(result.text, "Done");
    assert_eq!(result.usage.input_tokens, 180);
    assert_eq!(result.usage.output_tokens, 80);
    assert_eq!(engine.total_usage, usage(180, 80));
    assert_eq!(engine.messages.len(), 4);
}

#[test]
fn run_sends_the_thinking_signature_back() {
    let mut engine = AgentEngine::new(config());
    let script = vec![
        vec![
            LlmEvent::ThinkingDelta("need a tool".to_string()),
            LlmEvent::ThinkingSignature("sig-123".to_string()),
            tool_use("call_1", "mock_tool", "{}"),
            done(StopReason::ToolUse, TokenUsage::default()),
        ],
        vec![text("done"), done(StopReason::EndTurn, TokenUsage::default())],
    ];
    let (result, trace) = run(&mut engine, "use tool", script, ("tool result", false));
    assert_eq!(result.unwrap().text, "done");
    assert_eq!(trace.requests.len(), 2);
    let assistant =
        trace.requests[1].messages.iter().find(|m| m.role == Role::Assistant).unwrap();
    match &assistant.content[0] {
        ContentBlock::Thinking { thinking, signature } => {
            assert_eq!(thinking, "need a tool");
            assert_eq!(signature.as_deref(), Some("sig-123"));
        }
        other => panic!("expected thinking block, got {other:?}"),
    }
}

#[test]
fn run_keeps_calls_of_one_name_apart() {
    let mut engine = AgentEngine::new(config());
    let script = vec![
        vec![
            tool_use("call_a", "Glob", r#"{"pattern": "*.rs"}"#),
            tool_use("call_b", "Glob", r#"{"pattern": "*.toml"}"#),
            done(StopReason::ToolUse, usage(80, 30)),
        ],
        vec![text("Done"), done(StopReason::EndTurn, usage(100, 50))],
    ];
    let (result, trace) = run(&mut engine, "Use Glob twice", script, ("tool output", false));
    assert_eq!(result.unwrap().text, "Done");
    assert_eq!(
        trace.shown_calls,
        vec![
            ("call_a".to_string(), "Glob".to_string()),
            ("call_b".to_string(), "Glob".to_string()),
        ]
    );
    assert_eq!(
        trace.shown_results,
        vec![
            ("call_a".to_string(), "Glob".to_string(), false),
            ("call_b".to_string(), "Glob".to_string(), false),
        ]
    );
}

#[test]
fn run_cut_off_by_the_token_limit_keeps_the_part() {
    let mut engine = AgentEngine::new(config());
    let script = vec![vec![text("partial"), done(StopReason::MaxTokens, usage(200, 100))]];
    let (result, trace) = run(&mut engine, "Give me a long answer", script, ("", false));
    let result = result.unwrap();
    assert_eq!(result.stop_reason, StopReason::MaxTokens);
    assert_eq!(result.text, "partial");
    assert_eq!(
        trace.errors,
        vec![FinalizationReason::MaxTokens.fallback_prompt().to_string()]
    );
    assert_eq!(trace.requests.len(), 2);
    let last = trace.requests[1].messages.last().unwrap();
    match &last.content[0] {
        ContentBlock::Text { text } => assert!(text.contains("cut off by the token limit")),
        other => panic!("expected the control prompt, got {other:?}"),
    }
}

#[test]
fn run_finishes_a_cut_off_answer() {
    let mut engine = AgentEngine::new(config());
    let script = vec![
        vec![text("first "), done(StopReason::MaxTokens, usage(1, 1))],
        vec![text("second"), done(StopReason::EndTurn, usage(1, 1))],
    ];
    let (result, trace) = run(&mut engine, "go", script, ("", false));
    let result = result.unwrap();
    assert_eq!(result.text, "first second");
    assert_eq!(result.stop_reason, StopReason::EndTurn);
    assert_eq!(result.turns, 1);
    assert!(trace.errors.is_empty());
}

#[test]
fn run_that_stays_silent_falls_back() {
    let mut engine = AgentEngine::new(config());
    let script = vec![
        vec![text("  "), done(StopReason::EndTurn, usage(1, 1))],
        vec![done(StopReason::EndTurn, usage(1, 1))],
    ];
    let (result, trace) = run(&mut engine, "go", script, ("", false));
    let result = result.unwrap();
    assert_eq!(result.text, "The model finished without visible answer text after one retry.");
    assert_eq!(result.stop_reason, StopReason::EndTurn);
    assert_eq!(trace.errors.len(), 1);
    // the silent reply itself is not kept: user, fallback
    assert_eq!(engine.messages.len(), 2);
}

#[test]
fn runs_accumulate_messages() {
    let mut engine = AgentEngine::new(config());
    assert!(engine.save_session().is_none());
    engine.init_session("s-1".to_string());
    let reply = |s: &str| vec![vec![text(s), done(StopReason::EndTurn, usage(10, 5))]];
    run(&mut engine, "First message", reply("Response 1"), ("", false)).0.unwrap();
    run(&mut engine, "Second message", reply("Response 2"), ("", false)).0.unwrap();
    let session = engine.save_session().unwrap();
    assert_eq!(session.id, "s-1");
    assert_eq!(session.messages.len(), 4);
    assert_eq!(session.total_usage, usage(20, 10));
    let resumed = AgentEngine::resume(config(), session);
    assert_eq!(resumed.messages.len(), 4);
    assert_eq!(resumed.current_session_id(), Some("s-1".to_string()));
    assert_eq!(resumed.total_usage, usage(20, 10));
}

#[test]
fn run_out_of_turns_ends_without_another_request() {
    let mut c = config();
    c.max_turns = Some(1);
    let mut engine = AgentEngine::new(c);
    let tool_turn = || {
        vec![tool_use("tool-1", "mock_tool", "{}"), done(StopReason::ToolUse, usage(50, 20))]
    };
    let (result, trace) =
        run(&mut engine, "Keep calling tools", vec![tool_turn(), tool_turn()], ("result", false));
    let result = result.unwrap();
    assert_eq!(result.stop_reason, StopReason::MaxTurns);
    assert_eq!(result.turns, 1);
    assert_eq!(result.text, "");
    assert_eq!(trace.requests.len(), 1);
    assert_eq!(
        trace.errors,
        vec!["Stopped after reaching the turn budget (max_turns=1); the task did not converge. Try adjusting the request or retrying.".to_string()]
    );
}

#[test]
fn run_without_any_turns_stops_at_once() {
    let mut c = config();
    c.max_turns = Some(0);
    let mut engine = AgentEngine::new(c);
    let (result, trace) = run(&mut engine, "go", vec![], ("", false));
    let result = result.unwrap();
    assert_eq!(result.stop_reason, StopReason::MaxTurns);
    assert_eq!(result.text, "");
    assert_eq!(result.turns, 0);
    assert!(trace.requests.is_empty());
    assert_eq!(
        trace.errors,
        vec!["Stopped after reaching the turn budget (max_turns=0); the task did not converge. Try adjusting the request or retrying.".to_string()]
    );
}

#[test]
fn run_of_malformed_calls_stops_on_the_third_turn() {
    let mut engine = AgentEngine::new(config());
    let script = vec![
        malformed_turn(),
        malformed_turn(),
        malformed_turn(),
        vec![text("should not be requested"), done(StopReason::EndTurn, TokenUsage::default())],
    ];
    let (result, trace) = run(&mut engine, "repeat malformed", script, ("", false));
    assert!(matches!(result, Err(AgentError::ToolCallMalformed { count: 3, limit: 3 })));
    assert_eq!(trace.requests.len(), 3);
    let blocks: Vec<_> = engine.messages.iter().flat_map(|m| &m.content).collect();
    let uses = blocks.iter().filter(|b| matches!(b, ContentBlock::ToolUse { .. })).count();
    assert_eq!(uses, 3);
    let results: Vec<_> = blocks
        .iter()
        .filter(|b| match b {
            ContentBlock::ToolResult { tool_use_id, content, is_error } => {
                tool_use_id == "bad"
                    && *is_error
                    && content == "Malformed tool call: empty function name. Re-issue the tool call with a non-empty function name if still needed, or answer in text."
            }
            _ => false,
        })
        .collect();
    assert_eq!(results.len(), 3);
}

#[test]
fn run_of_malformed_calls_with_limit_one_stops_at_once() {
    let mut c = config();
    c.max_tool_call_malformed_turns = Some(1);
    let mut engine = AgentEngine::new(c);
    let (result, trace) =
        run(&mut engine, "repeat malformed", vec![malformed_turn(), malformed_turn()], ("", false));
    assert!(matches!(result, Err(AgentError::ToolCallMalformed { count: 1, limit: 1 })));
    assert_eq!(trace.requests.len(), 1);
}

#[test]
fn run_of_malformed_calls_without_breaker_uses_up_its_turns() {
    let mut c = config();
    c.max_tool_call_malformed_turns = Some(0);
    c.max_turns = Some(2);
    let mut engine = AgentEngine::new(c);
    let script = vec![malformed_turn(), malformed_turn(), malformed_turn()];
    let (result, trace) = run(&mut engine, "repeat malformed", script, ("", false));
    let result = result.unwrap();
    assert_eq!(result.stop_reason, StopReason::MaxTurns);
    assert_eq!(result.turns, 2);
    assert_eq!(trace.requests.len(), 2);
}

#[test]
fn run_with_a_valid_call_beside_a_malformed_one_goes_on() {
    let mut c = config();
    c.max_tool_call_malformed_turns = Some(1);
    let mut engine = AgentEngine::new(c);
    let mixed = || {
        vec![
            tool_use("bad", "", "{}"),
            tool_use("ok", "mock_tool", "{}"),
            done(StopReason::ToolUse, TokenUsage::default()),
        ]
    };
    let script = vec![
        mixed(),
        mixed(),
        vec![text("done"), done(StopReason::EndTurn, TokenUsage::default())],
    ];
    let (result, trace) = run(&mut engine, "mixed tool calls", script, ("tool output", false));
    let result = result.unwrap();
    assert_eq!(result.text, "done");
    assert_eq!(result.turns, 3);
    assert_eq!(trace.requests.len(), 3);
    assert_eq!(
        trace.shown_results,
        vec![
            ("bad".to_string(), "".to_string(), true),
            ("ok".to_string(), "mock_tool".to_string(), false),
            ("bad".to_string(), "".to_string(), true),
            ("ok".to_string(), "mock_tool".to_string(), false),
        ]
    );
}

#[test]
fn run_of_failing_calls_stops_on_the_third_turn() {
    let mut engine = AgentEngine::new(config());
    let failing = || {
        vec![
            tool_use("c", "ExecCommand", r#"{"cmd":"false"}"#),
            done(StopReason::ToolUse, TokenUsage::default()),
        ]
    };
    let script = vec![failing(), failing(), failing(), failing()];
    let (result, trace) = run(&mut engine, "go", script, ("boom", true));
    assert!(matches!(result, Err(AgentError::ToolCallFailures { count: 3, limit: 3 })));
    assert_eq!(trace.requests.len(), 3);
}

#[test]
fn run_surfaces_an_error_event() {
    let mut engine = AgentEngine::new(config());
    let script = vec![vec![LlmEvent::Error("test error".to_string())]];
    let (result, _) = run(&mut engine, "Hello", script, ("", false));
    match result {
        Err(AgentError::ApiError(msg)) => assert_eq!(msg, "test error"),
        other => panic!("expected an error, got {other:?}"),
    }
}

// --- requests ---

fn entry(name: &str, is_info: bool) -> ToolEntry {
    ToolEntry {
        def: ToolDef {
            name: name.to_string(),
            description: name.to_string(),
            summary: name.to_string(),
            input_schema: json("{}"),
            deferred: false,
        },
        is_info,
    }
}

#[test]
fn requests_offer_the_tools_of_their_mode() {
    let mut engine = AgentEngine::new(config());
    let entries = vec![
        entry("Read", true),
        entry("ExecCommand", false),
        entry("EnterPlanMode", true),
        entry("ExitPlanMode", true),
    ];
    let names = |r: &LlmRequest| r.tools.iter().map(|t| t.name.clone()).collect::<Vec<_>>();
    let normal = engine.build_request(TurnKind::Normal, &entries, "PLAN");
    assert_eq!(names(&normal), vec!["Read", "ExecCommand", "EnterPlanMode"]);
    assert_eq!(normal.system, "be brief");
    assert_eq!(normal.max_tokens, Some(1024));
    engine.plan_state.is_active = true;
    let plan = engine.build_request(TurnKind::Normal, &entries, "PLAN");
    assert_eq!(names(&plan), vec!["Read", "ExitPlanMode"]);
    assert_eq!(plan.system, "be brief\n\nPLAN");
    let last = engine.build_request(
        TurnKind::Finalization(FinalizationReason::EmptyFinal),
        &entries,
        "PLAN",
    );
    assert!(last.tools.is_empty());
    assert_eq!(last.messages.len(), 1);
}

// --- settings ---

#[test]
fn settings_are_updated_and_reported() {
    let mut engine = AgentEngine::new(config());
    assert!(engine.apply_config_update(None, None, None, None, None).is_empty());
    let changes = engine.apply_config_update(
        Some("m2".to_string()),
        Some("enabled".to_string()),
        None,
        Some("high".to_string()),
        Some(Ok("full".to_string())),
    );
    assert_eq!(
        changes,
        vec![
            "model: m1 → m2",
            "thinking: enabled (budget: 10000)",
            "effort: none → high",
            "compaction: safe → full",
        ]
    );
    assert_eq!(engine.model, "m2");
    assert_eq!(engine.thinking, Some(ThinkingConfig::Enabled { budget_tokens: 10_000 }));
    assert_eq!(engine.reasoning_effort, Some("high".to_string()));
    assert_eq!(engine.compaction_level(), "full");
    let changes = engine.apply_config_update(
        None,
        None,
        Some(500),
        Some("turbo".to_string()),
        Some(Err("unknown level".to_string())),
    );
    assert_eq!(
        changes,
        vec![
            "thinking budget: 500",
            "effort: invalid level \"turbo\" (valid: low, medium, high)",
            "compaction: invalid (unknown level)",
        ]
    );
    let changes = engine.apply_config_update(
        None,
        Some("maybe".to_string()),
        None,
        Some(String::new()),
        None,
    );
    assert_eq!(changes, vec!["thinking: ignored invalid value \"maybe\"", "effort: cleared"]);
    assert_eq!(engine.reasoning_effort, None);
    let changes =
        engine.apply_config_update(None, Some("disabled".to_string()), Some(7), None, None);
    assert_eq!(changes, vec!["thinking: disabled"]);
    assert!(engine.apply_config_update(None, None, Some(7), None, None).is_empty());
    engine.compat = ProviderCompat::anthropic_defaults();
    let changes =
        engine.apply_config_update(None, None, None, Some("low".to_string()), None);
    assert_eq!(changes, vec!["effort: not supported by current provider"]);
    engine.set_initial_reasoning_effort(Some("low".to_string()));
    assert_eq!(engine.reasoning_effort, Some("low".to_string()));
    assert!(engine.compat().supports_thinking());
}

fn modifier(tools: &[&str], t: Option<PlanModeTransition>) -> Option<ContextModifier> {
    Some(ContextModifier {
        model: None,
        effort: None,
        allowed_tools: tools.iter().map(|s| s.to_string()).collect(),
        plan_mode_transition: t,
    })
}

#[test]
fn leaving_plan_mode_restores_the_list() {
    let mut engine = AgentEngine::new(config());
    let effects = engine.apply_context_modifiers(&vec![
        modifier(&["Read", "Grep", "Grep"], None),
        None,
        modifier(&[], Some(PlanModeTransition::Enter)),
    ]);
    assert_eq!(effects.confirmed_tools, vec!["Read", "Grep", "Grep"]);
    assert_eq!(effects.plan_active, Some(true));
    assert_eq!(engine.allow_list, vec!["Read", "Grep"]);
    assert!(engine.plan_state.is_active);
    let effects = engine.apply_context_modifiers(&vec![modifier(&["Write"], None)]);
    assert_eq!(effects.plan_active, None);
    assert_eq!(engine.allow_list, vec!["Read", "Grep", "Write"]);
    engine.apply_context_modifiers(&vec![modifier(&["Edit"], Some(PlanModeTransition::Exit))]);
    assert_eq!(engine.allow_list, vec!["Read", "Grep"]);
    assert!(!engine.plan_state.is_active);
}

#[test]
fn skills_may_change_model_and_effort() {
    let mut engine = AgentEngine::new(config());
    engine.apply_context_modifiers(&vec![Some(ContextModifier {
        model: Some("m9".to_string()),
        effort: Some("low".to_string()),
        allowed_tools: vec![],
        plan_mode_transition: None,
    })]);
    assert_eq!(engine.model, "m9");
    assert_eq!(engine.reasoning_effort, Some("low".to_string()));
}

#[test]
fn watermark_is_the_larger_count() {
    let mut engine = AgentEngine::new(config());
    assert_eq!(engine.record_turn_usage(&usage(500, 1), 400), None);
    assert_eq!(engine.compact_state.last_input_tokens, 500);
    assert_eq!(engine.record_turn_usage(&usage(500, 1), 10_500), None);
    assert_eq!(engine.compact_state.last_input_tokens, 10_500);
    assert_eq!(
        engine.record_turn_usage(&usage(500, 1), 100_000),
        Some(
            "Token watermark override: provider=500, local_estimate=100000, using=100000"
                .to_string()
        )
    );
    assert_eq!(engine.compact_state.last_input_tokens, 100_000);
    assert_eq!(engine.total_usage, usage(1500, 3));
}

// --- aborting ---

#[test]
fn watermark_is_measured_on_the_conversation() {
    let mut engine = AgentEngine::new(config());
    engine.begin_run(&"a".repeat(48_000), "m");
    let notice = engine.checked_record_measured_usage(&usage(500, 1)).unwrap();
    assert_eq!(engine.compact_state.last_input_tokens, 12_000);
    assert_eq!(
        notice.as_deref(),
        Some("Token watermark override: provider=500, local_estimate=12000, using=12000")
    );
    assert_eq!(engine.record_measured_usage(&usage(20_000, 1)), None);
    assert_eq!(engine.compact_state.last_input_tokens, 20_000);
    assert_eq!(engine.total_usage, usage(20_500, 2));
    assert!(engine.checked_record_measured_usage(&usage(u64::MAX, 0)).is_none());
    assert_eq!(engine.total_usage, usage(20_500, 2));
}

#[test]
fn aborting_closes_pending_calls() {
    let mut engine = AgentEngine::new(config());
    assert!(engine.abort_current_turn("stopped").is_empty());
    engine.messages.push(Message::new(
        Role::Assistant,
        vec![
            ContentBlock::Text { text: "hm".to_string() },
            ContentBlock::ToolUse {
                id: "a".to_string(),
                name: "Read".to_string(),
                input: json("{}"),
                extra: None,
            },
            ContentBlock::ToolUse {
                id: "b".to_string(),
                name: "Grep".to_string(),
                input: json("{}"),
                extra: None,
            },
        ],
    ));
    let shown = engine.abort_current_turn("stopped");
    assert_eq!(shown.len(), 2);
    assert_eq!(shown[1].tool_use_id, "b");
    assert_eq!(shown[1].tool_name, "Grep");
    assert!(shown[1].is_error);
    assert_eq!(shown[1].content, "stopped");
    let last = engine.messages.last().unwrap();
    assert_eq!(last.role, Role::User);
    assert_eq!(last.content.len(), 2);
    assert!(last.timestamp.is_some());
    // nothing is pending any more
    assert!(engine.abort_current_turn("again").is_empty());
    assert_eq!(engine.messages.len(), 2);
}

#[test]
fn results_without_a_call_are_shown_as_unknown() {
    let shown = emit_tool_results(
        &vec![],
        &vec![ContentBlock::ToolResult {
            tool_use_id: "x".to_string(),
            content: "c".to_string(),
            is_error: false,
        }],
    );
    assert_eq!(shown[0].tool_name, "unknown");
}

// --- commands ---

#[test]
fn commands_are_taken_apart() {
    let c = parse_command_input("  /compact   now please \n").unwrap();
    assert_eq!(c.display_name, "/compact");
    assert_eq!(c.name, "compact");
    assert_eq!(c.args, "now please");
    let c = parse_command_input("/quit").unwrap();
    assert_eq!((c.name.as_str(), c.args.as_str()), ("quit", ""));
    let c = parse_command_input("/ x").unwrap();
    assert_eq!((c.display_name.as_str(), c.name.as_str(), c.args.as_str()), ("/", "", "x"));
    assert!(parse_command_input("compact").is_none());
    assert!(parse_command_input("   ").is_none());
}

#[test]
fn commands_end_as_they_say() {
    assert!(matches!(command_result(CommandOutcome::Unknown), Ok(None)));
    let result = command_result(CommandOutcome::Continue).unwrap().unwrap();
    assert_eq!(result.text, "");
    assert_eq!(result.turns, 0);
    assert_eq!(result.stop_reason, StopReason::EndTurn);
    assert!(matches!(command_result(CommandOutcome::Exit), Err(AgentError::UserAborted)));
    match command_result(CommandOutcome::Failed("no".to_string())) {
        Err(AgentError::ApiError(e)) => assert_eq!(e, "no"),
        other => panic!("unexpected {other:?}"),
    }
}

// --- compaction ---

fn info(n: &Notice) -> &str {
    match n {
        Notice::Info(s) => s,
        Notice::Error(s) => panic!("unexpected error {s}"),
    }
}

#[test]
fn compaction_is_planned_and_reported() {
    let mut c = compact_config();
    let state = CompactState { last_input_tokens: 190_000, consecutive_failures: 4 };
    assert_eq!(compute_autocompact_threshold(&c), 167_000);
    let plan = plan_autocompact(&c, &state, true, false);
    assert!(plan.run);
    assert!(plan.notices.is_empty());
    c.autocompact_threshold_pct = Some(80);
    let plan = plan_autocompact(&c, &state, true, true);
    assert!(!plan.run);
    assert_eq!(info(&plan.notices[0]), "Autocompact threshold: 160000 tokens (80% of 200000)");
    assert_eq!(
        info(&plan.notices[1]),
        "Autocompact: skipped (circuit breaker tripped after 4 consecutive failures, last_input_tokens=190000)"
    );
    c.enabled = false;
    let plan = plan_autocompact(&c, &state, false, false);
    assert_eq!(
        info(&plan.notices[0]),
        "Autocompact: disabled (compact.enabled=false, last_input_tokens=190000, threshold=160000)"
    );
    let low = CompactState { last_input_tokens: 10, consecutive_failures: 0 };
    assert!(plan_autocompact(&c, &low, false, false).notices.is_empty());
    let small = CompactConfig { context_window: 10, ..compact_config() };
    assert_eq!(compute_autocompact_threshold(&small), 0);
}

#[test]
fn compaction_results_are_reported() {
    assert!(microcompact_notice(0, 10).is_none());
    assert_eq!(
        info(&microcompact_notice(3, 1200).unwrap()),
        "Microcompact: cleared 3 tool results (~1200 tokens freed)"
    );
    let mut engine = AgentEngine::new(config());
    engine.messages.push(Message::new(Role::User, vec![]));
    let end = engine.finish_autocompact(AutocompactOutcome::CircuitBroken);
    assert!(!end.compacted);
    assert_eq!(engine.messages.len(), 1);
    let end = engine.finish_autocompact(AutocompactOutcome::Compacted {
        messages: vec![],
        messages_summarized: 12,
        pre_compact_tokens: 99,
    });
    assert!(end.compacted);
    assert!(engine.messages.is_empty());
    assert_eq!(
        info(&end.notice.unwrap()),
        "Autocompact: summarized 12 messages (99 tokens → compact)"
    );
    assert!(autocompact_notice(&AutocompactOutcome::CircuitBroken).is_none());
    match autocompact_notice(&AutocompactOutcome::Failed("x".to_string())) {
        Some(Notice::Error(e)) => assert_eq!(e, "Autocompact failed: x"),
        other => panic!("unexpected {other:?}"),
    }
}

#[test]
fn compaction_goes_through_its_phases() {
    let mut engine = AgentEngine::new(config());
    engine.messages.push(Message::new(Role::User, vec![]));
    let state = CompactState { last_input_tokens: 199_000, consecutive_failures: 1 };
    engine.compact_state.last_input_tokens = 199_000;
    let cleared = Microcompacted { messages: vec![], cleared_count: 2, estimated_tokens_freed: 30 };
    let step = engine.advance_compaction(
        CompactionPhase::Microcompact,
        CompactionEvent::Microcompacted(Some(cleared)),
    );
    assert_eq!(step.phase, CompactionPhase::CheckSize);
    assert_eq!(info(&step.notices[0]), "Microcompact: cleared 2 tool results (~30 tokens freed)");
    assert!(engine.messages.is_empty());
    // what is not waited for changes nothing
    let step = engine
        .advance_compaction(step.phase, CompactionEvent::EmergencyChecked { at_limit: true });
    assert_eq!(step.phase, CompactionPhase::CheckSize);
    assert!(step.notices.is_empty() && step.refusal.is_none());
    let step = engine.advance_compaction(
        step.phase,
        CompactionEvent::SizeChecked { due: true, circuit_broken: false },
    );
    assert_eq!(step.phase, CompactionPhase::Summarize);
    let failed = AutocompactOutcome::Failed("x".to_string());
    let step = engine
        .advance_compaction(step.phase, CompactionEvent::Summarized { outcome: failed, state });
    assert_eq!(step.phase, CompactionPhase::CheckEmergency);
    assert!(matches!(&step.notices[0], Notice::Error(e) if e == "Autocompact failed: x"));
    assert_eq!(engine.compact_state, state);
    let step = engine
        .advance_compaction(step.phase, CompactionEvent::EmergencyChecked { at_limit: true });
    assert_eq!(step.phase, CompactionPhase::Over);
    assert!(matches!(
        step.refusal,
        Some(AgentError::ContextTooLong { input_tokens: 199_000, limit: 197_000 })
    ));
    // a summary that worked leaves out the emergency check
    let done = AutocompactOutcome::Compacted {
        messages: vec![Message::new(Role::User, vec![])],
        messages_summarized: 4,
        pre_compact_tokens: 9,
    };
    let step = engine.advance_compaction(
        CompactionPhase::Summarize,
        CompactionEvent::Summarized { outcome: done, state },
    );
    assert_eq!(step.phase, CompactionPhase::Over);
    assert!(step.refusal.is_none());
    assert_eq!(engine.messages.len(), 1);
}

#[test]
fn contexts_too_long_are_refused_unless_compacted() {
    let mut engine = AgentEngine::new(config());
    engine.compact_state.last_input_tokens = 199_000;
    assert!(engine.plan_compaction(true, false).run);
    assert!(engine.check_emergency(true, true).is_ok());
    assert!(engine.check_emergency(false, false).is_ok());
    assert!(matches!(
        engine.check_emergency(false, true),
        Err(AgentError::ContextTooLong { input_tokens: 199_000, limit: 197_000 })
    ));
}

#[test]
fn sessions_keep_their_messages() {
    let session = Session {
        id: "s".to_string(),
        messages: vec![Message::new(Role::User, vec![])],
        total_usage: usage(1, 1),
    };
    let engine = AgentEngine::resume(config(), session);
    assert_eq!(engine.messages.len(), 1);
    assert_eq!(engine.max_tool_call_malformed_turns, 3);
    assert_eq!(engine.max_tool_call_failure_turns, 3);
}
