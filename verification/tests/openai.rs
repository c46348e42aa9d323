use aion::compat::ProviderCompat;
use aion::json::JsonValue;
use aion::llm::{LlmEvent, LlmRequest, ProviderError, ToolDef};
use aion::message::{ContentBlock, Message, Role, StopReason};
use aion::openai::OpenAIProvider;
use aion::openai_stream::{parse_sse_chunk, StreamState};
use serde_json::Value;

fn json(text: &str) -> JsonValue {
    JsonValue::parse(text).unwrap()
}

fn value(v: &JsonValue) -> Value {
    serde_json::from_str(&v.to_text()).unwrap()
}

fn build_messages(messages: &[Message], system: &str, compat: &ProviderCompat) -> Vec<Value> {
    OpenAIProvider::build_messages(messages, system, compat).iter().map(value).collect()
}

fn build_tools(tools: &[ToolDef]) -> Vec<Value> {
    OpenAIProvider::build_tools(tools).iter().map(value).collect()
}

fn no_compat() -> ProviderCompat {
    ProviderCompat::default()
}

fn openai_compat() -> ProviderCompat {
    ProviderCompat::openai_defaults()
}


// --- max_tokens_field ---

#[test]
fn test_max_tokens_field_default() {
    let provider = OpenAIProvider::new("key", "http://localhost", openai_compat());
    let req = LlmRequest {
        model: "gpt-4o".into(),
        system: String::new(),
        messages: vec![],
        tools: vec![],
        max_tokens: Some(1024),
        thinking: None,
        reasoning_effort: None,
    };
    let body = provider
        .build_request_body(&req)
        .expect("request body projection should succeed");
    let body = value(&body);
    assert_eq!(body["max_tokens"], 1024);
    assert!(body.get("max_completion_tokens").is_none());
}

#[test]
fn test_max_tokens_field_custom() {
    let mut compat = ProviderCompat::default();
    compat.transport.max_tokens_field = Some("max_completion_tokens".into());
    let provider = OpenAIProvider::new("key", "http://localhost", compat);
    let req = LlmRequest {
        model: "gpt-4o".into(),
        system: String::new(),
        messages: vec![],
        tools: vec![],
        max_tokens: Some(2048),
        thinking: None,
        reasoning_effort: None,
    };
    let body = provider
        .build_request_body(&req)
        .expect("request body projection should succeed");
    let body = value(&body);
    assert_eq!(body["max_completion_tokens"], 2048);
    assert!(body.get("max_tokens").is_none());
}

#[test]
fn test_projection_limit_maps_to_non_retryable_prompt_too_long() {
    let mut compat = ProviderCompat::openai_defaults();
    compat.tools.max_tool_count = Some(0);
    let provider = OpenAIProvider::new("key", "http://localhost", compat);
    let req = LlmRequest {
        model: "gpt-4o".into(),
        system: String::new(),
        messages: vec![],
        tools: vec![ToolDef {
            name: "read".into(),
            description: "Read".into(),
            summary: "Read".into(),
            input_schema: json(r#"{"type":"object","properties":{}}"#),
            deferred: false,
        }],
        max_tokens: Some(1024),
        thinking: None,
        reasoning_effort: None,
    };

    let error = provider
        .build_request_body(&req)
        .expect_err("projection limit should map to provider error");

    match &error {
        ProviderError::PromptTooLong(message) => {
            assert!(message.contains("openai tools count 1 exceeds configured limit 0"));
        }
        other => panic!("unexpected provider error: {other:?}"),
    }
    assert!(!error.is_retryable());
}

// --- merge_assistant_messages ---

#[test]
fn test_merge_assistant_messages_enabled() {
    let messages = vec![
        Message::new(
            Role::Assistant,
            vec![ContentBlock::Text {
                text: "hello".into(),
            }],
        ),
        Message::new(
            Role::Assistant,
            vec![ContentBlock::Text {
                text: " world".into(),
            }],
        ),
    ];
    let result = build_messages(&messages, "", &openai_compat());
    let assistant_msgs: Vec<_> = result.iter().filter(|m| m["role"] == "assistant").collect();
    assert_eq!(assistant_msgs.len(), 1);
    assert_eq!(assistant_msgs[0]["content"], "hello world");
}

#[test]
fn test_merge_assistant_messages_disabled() {
    let messages = vec![
        Message::new(
            Role::Assistant,
            vec![ContentBlock::Text {
                text: "hello".into(),
            }],
        ),
        Message::new(
            Role::Assistant,
            vec![ContentBlock::Text {
                text: " world".into(),
            }],
        ),
    ];
    let result = build_messages(&messages, "", &no_compat());
    let assistant_msgs: Vec<_> = result.iter().filter(|m| m["role"] == "assistant").collect();
    assert_eq!(assistant_msgs.len(), 2);
}

// --- clean_orphan_tool_calls ---

#[test]
fn test_clean_orphan_tool_calls_enabled() {
    let messages = vec![
        Message::new(
            Role::Assistant,
            vec![
                ContentBlock::ToolUse {
                    id: "tc1".into(),
                    name: "bash".into(),
                    input: json(r#"{}"#),
                    extra: None,
                },
                ContentBlock::ToolUse {
                    id: "tc2".into(),
                    name: "read".into(),
                    input: json(r#"{}"#),
                    extra: None,
                },
            ],
        ),
        Message::new(
            Role::Tool,
            vec![ContentBlock::ToolResult {
                tool_use_id: "tc1".into(),
                content: "ok".into(),
                is_error: false,
            }],
        ),
        // tc2 has no result -> orphan
    ];
    let result = build_messages(&messages, "", &openai_compat());
    let assistant = result.iter().find(|m| m["role"] == "assistant").unwrap();
    let tcs = assistant["tool_calls"].as_array().unwrap();
    assert_eq!(tcs.len(), 1);
    assert_eq!(tcs[0]["id"], "tc1");
}

#[test]
fn test_clean_orphan_tool_calls_disabled() {
    let messages = vec![
        Message::new(
            Role::Assistant,
            vec![
                ContentBlock::ToolUse {
                    id: "tc1".into(),
                    name: "bash".into(),
                    input: json(r#"{}"#),
                    extra: None,
                },
                ContentBlock::ToolUse {
                    id: "tc2".into(),
                    name: "read".into(),
                    input: json(r#"{}"#),
                    extra: None,
                },
            ],
        ),
        Message::new(
            Role::Tool,
            vec![ContentBlock::ToolResult {
                tool_use_id: "tc1".into(),
                content: "ok".into(),
                is_error: false,
            }],
        ),
    ];
    let result = build_messages(&messages, "", &no_compat());
    let assistant = result.iter().find(|m| m["role"] == "assistant").unwrap();
    let tcs = assistant["tool_calls"].as_array().unwrap();
    assert_eq!(tcs.len(), 2);
}

#[test]
fn test_reverse_orphan_tool_result_dropped() {
    let messages = vec![Message::new(
        Role::Tool,
        vec![ContentBlock::ToolResult {
            tool_use_id: "missing".into(),
            content: "orphan".into(),
            is_error: true,
        }],
    )];
    let result = build_messages(&messages, "", &openai_compat());
    assert!(result.iter().all(|m| m["role"] != "tool"));
}

#[test]
fn test_reverse_orphan_tool_result_kept_when_disabled() {
    let mut compat = openai_compat();
    compat.messages.clean_orphan_tool_results = Some(false);
    let messages = vec![Message::new(
        Role::Tool,
        vec![ContentBlock::ToolResult {
            tool_use_id: "missing".into(),
            content: "orphan".into(),
            is_error: true,
        }],
    )];
    let result = build_messages(&messages, "", &compat);
    assert!(result.iter().any(|m| {
        m["role"] == "tool" && m["tool_call_id"] == "missing" && m["content"] == "orphan"
    }));
}

#[test]
fn test_forward_and_reverse_orphan_cleanup_do_not_conflict() {
    let messages = vec![
        Message::new(
            Role::Assistant,
            vec![
                ContentBlock::ToolUse {
                    id: "matched".into(),
                    name: "Bash".into(),
                    input: json(r#"{"command":"pwd"}"#),
                    extra: None,
                },
                ContentBlock::ToolUse {
                    id: "forward_orphan".into(),
                    name: "Read".into(),
                    input: json(r#"{"file_path":"x"}"#),
                    extra: None,
                },
            ],
        ),
        Message::new(
            Role::Tool,
            vec![ContentBlock::ToolResult {
                tool_use_id: "matched".into(),
                content: "ok".into(),
                is_error: false,
            }],
        ),
        Message::new(
            Role::Tool,
            vec![ContentBlock::ToolResult {
                tool_use_id: "reverse_orphan".into(),
                content: "bad".into(),
                is_error: true,
            }],
        ),
    ];

    let result = build_messages(&messages, "", &openai_compat());
    let assistant = result.iter().find(|m| m["role"] == "assistant").unwrap();
    let tcs = assistant["tool_calls"].as_array().unwrap();
    assert_eq!(tcs.len(), 1);
    assert_eq!(tcs[0]["id"], "matched");
    let tool_msgs: Vec<_> = result.iter().filter(|m| m["role"] == "tool").collect();
    assert_eq!(tool_msgs.len(), 1);
    assert_eq!(tool_msgs[0]["tool_call_id"], "matched");
}

// H2-1
#[test]
fn test_matched_tool_result_not_dropped_by_reverse_cleanup() {
    let messages = vec![
        Message::new(
            Role::Assistant,
            vec![ContentBlock::ToolUse {
                id: "call_x".into(),
                name: "Bash".into(),
                input: json(r#"{"command":"ls"}"#),
                extra: None,
            }],
        ),
        Message::new(
            Role::Tool,
            vec![ContentBlock::ToolResult {
                tool_use_id: "call_x".into(),
                content: "ok".into(),
                is_error: false,
            }],
        ),
    ];
    let result = build_messages(&messages, "", &openai_compat());
    assert!(
        result
            .iter()
            .any(|m| m["role"] == "tool" && m["tool_call_id"] == "call_x")
    );
}

#[test]
fn test_empty_id_toolcall_downgraded_when_auto_id_disabled() {
    let mut compat = openai_compat();
    compat.tools.auto_tool_id = Some(false);
    let messages = vec![
        Message::new(
            Role::Assistant,
            vec![ContentBlock::ToolUse {
                id: "".into(),
                name: "Bash".into(),
                input: json(r#"{"command":"ls"}"#),
                extra: None,
            }],
        ),
        Message::new(
            Role::Tool,
            vec![ContentBlock::ToolResult {
                tool_use_id: "".into(),
                content: "orphan".into(),
                is_error: true,
            }],
        ),
    ];
    let result = build_messages(&messages, "", &compat);
    assert!(result.iter().all(|m| m["role"] != "tool"));
    let assistant = result.iter().find(|m| m["role"] == "assistant").unwrap();
    assert!(assistant.get("tool_calls").is_none());
    let content = assistant["content"].as_str().unwrap();
    assert!(content.contains("[tool call skipped:"));
    assert!(content.contains("empty tool call id"));
    assert!(content.contains("arguments={\"command\":\"ls\"}"));
}

#[test]
fn test_empty_id_toolcall_generates_id_when_auto_id_enabled() {
    let mut compat = openai_compat();
    compat.tools.auto_tool_id = Some(true);
    compat.tools.clean_orphan_tool_calls = Some(false);
    let messages = vec![Message::new(
        Role::Assistant,
        vec![ContentBlock::ToolUse {
            id: "".into(),
            name: "Bash".into(),
            input: json(r#"{"command":"ls"}"#),
            extra: None,
        }],
    )];
    let result = build_messages(&messages, "", &compat);
    let assistant = result.iter().find(|m| m["role"] == "assistant").unwrap();
    let tc = &assistant["tool_calls"][0];
    assert_eq!(tc["function"]["name"], "Bash");
    assert!(tc["id"].as_str().unwrap().starts_with("call_"));
    assert_ne!(tc["id"], "");
}

#[test]
fn test_empty_id_toolcall_rewrites_paired_result_when_auto_id_enabled() {
    let mut compat = openai_compat();
    compat.tools.auto_tool_id = Some(true);
    let messages = vec![
        Message::new(
            Role::Assistant,
            vec![ContentBlock::ToolUse {
                id: "".into(),
                name: "Bash".into(),
                input: json(r#"{"command":"ls"}"#),
                extra: None,
            }],
        ),
        Message::new(
            Role::Tool,
            vec![ContentBlock::ToolResult {
                tool_use_id: "".into(),
                content: "ok".into(),
                is_error: false,
            }],
        ),
    ];
    let result = build_messages(&messages, "", &compat);
    let assistant = result.iter().find(|m| m["role"] == "assistant").unwrap();
    let generated_id = assistant["tool_calls"][0]["id"].as_str().unwrap();
    assert!(generated_id.starts_with("call_"));
    let tool = result.iter().find(|m| m["role"] == "tool").unwrap();
    assert_eq!(tool["tool_call_id"], generated_id);
    assert_eq!(tool["content"], "ok");
}

#[test]
fn test_result_before_matching_call_is_dropped() {
    let messages = vec![
        Message::new(
            Role::Tool,
            vec![ContentBlock::ToolResult {
                tool_use_id: "late".into(),
                content: "too early".into(),
                is_error: true,
            }],
        ),
        Message::new(
            Role::Assistant,
            vec![ContentBlock::ToolUse {
                id: "late".into(),
                name: "Bash".into(),
                input: json(r#"{"command":"ls"}"#),
                extra: None,
            }],
        ),
    ];
    let result = build_messages(&messages, "", &openai_compat());
    assert!(result.iter().all(|m| m["role"] != "tool"));
    let assistant = result.iter().find(|m| m["role"] == "assistant").unwrap();
    assert!(assistant.get("tool_calls").is_none());
    assert_eq!(assistant["content"], "");
}

#[test]
fn test_dropped_empty_id_does_not_consume_later_generated_empty_id_result() {
    let mut compat = openai_compat();
    compat.tools.auto_tool_id = Some(true);
    let messages = vec![
        Message::new(
            Role::Assistant,
            vec![ContentBlock::ToolUse {
                id: "".into(),
                name: "".into(),
                input: json(r#"{"bad":true}"#),
                extra: None,
            }],
        ),
        Message::new(
            Role::Tool,
            vec![ContentBlock::ToolResult {
                tool_use_id: "".into(),
                content: "bad result".into(),
                is_error: true,
            }],
        ),
        Message::new(
            Role::Assistant,
            vec![ContentBlock::ToolUse {
                id: "".into(),
                name: "Bash".into(),
                input: json(r#"{"command":"ls"}"#),
                extra: None,
            }],
        ),
        Message::new(
            Role::Tool,
            vec![ContentBlock::ToolResult {
                tool_use_id: "".into(),
                content: "ok".into(),
                is_error: false,
            }],
        ),
    ];
    let result = build_messages(&messages, "", &compat);
    let assistant_with_call = result
        .iter()
        .find(|m| {
            m["tool_calls"]
                .as_array()
                .is_some_and(|calls| !calls.is_empty())
        })
        .unwrap();
    let generated_id = assistant_with_call["tool_calls"][0]["id"].as_str().unwrap();
    let tool_msgs: Vec<_> = result.iter().filter(|m| m["role"] == "tool").collect();
    assert_eq!(tool_msgs.len(), 1);
    assert_eq!(tool_msgs[0]["tool_call_id"], generated_id);
    assert_eq!(tool_msgs[0]["content"], "ok");
}

#[test]
fn test_empty_name_toolcall_downgraded_and_paired_result_dropped() {
    let messages = vec![
        Message::new(
            Role::Assistant,
            vec![
                ContentBlock::Text {
                    text: "writing".into(),
                },
                ContentBlock::ToolUse {
                    id: "call_x".into(),
                    name: "".into(),
                    input: json(r#"{}"#),
                    extra: None,
                },
            ],
        ),
        Message::new(
            Role::Tool,
            vec![ContentBlock::ToolResult {
                tool_use_id: "call_x".into(),
                content: "Unknown tool: ".into(),
                is_error: true,
            }],
        ),
    ];
    let result = build_messages(&messages, "", &openai_compat());
    // no role:"tool" orphan survives
    assert!(
        result.iter().all(|m| m["role"] != "tool"),
        "paired tool result must be dropped"
    );
    let assistant = result.iter().find(|m| m["role"] == "assistant").unwrap();
    // no tool_calls with empty name
    let has_empty = assistant
        .get("tool_calls")
        .and_then(|t| t.as_array())
        .map(|a| a.iter().any(|tc| tc["function"]["name"] == ""))
        .unwrap_or(false);
    assert!(!has_empty, "no empty-name tool_call in projection");
    // downgrade text present in content
    assert!(
        assistant["content"]
            .as_str()
            .unwrap()
            .contains("[tool call skipped:")
    );
    assert!(assistant["content"].as_str().unwrap().contains("writing"));
}

#[test]
fn test_mixed_valid_and_empty_name() {
    let messages = vec![
        Message::new(
            Role::Assistant,
            vec![
                ContentBlock::ToolUse {
                    id: "ok".into(),
                    name: "Bash".into(),
                    input: json(r#"{"command":"ls"}"#),
                    extra: None,
                },
                ContentBlock::ToolUse {
                    id: "bad".into(),
                    name: "".into(),
                    input: json(r#"{}"#),
                    extra: None,
                },
            ],
        ),
        Message::new(
            Role::Tool,
            vec![ContentBlock::ToolResult {
                tool_use_id: "ok".into(),
                content: "ok".into(),
                is_error: false,
            }],
        ),
        Message::new(
            Role::Tool,
            vec![ContentBlock::ToolResult {
                tool_use_id: "bad".into(),
                content: "Unknown tool: ".into(),
                is_error: true,
            }],
        ),
    ];
    let result = build_messages(&messages, "", &openai_compat());
    let assistant = result.iter().find(|m| m["role"] == "assistant").unwrap();
    let tcs = assistant["tool_calls"].as_array().unwrap();
    assert_eq!(tcs.len(), 1); // only Bash kept
    assert_eq!(tcs[0]["function"]["name"], "Bash");
    let tool_msgs: Vec<_> = result.iter().filter(|m| m["role"] == "tool").collect();
    assert_eq!(tool_msgs.len(), 1); // only ok's result kept
    assert_eq!(tool_msgs[0]["tool_call_id"], "ok");
}

#[test]
fn test_only_empty_name_yields_placeholder_content() {
    let messages = vec![Message::new(
        Role::Assistant,
        vec![ContentBlock::ToolUse {
            id: "call_x".into(),
            name: "".into(),
            input: json(r#"{}"#),
            extra: None,
        }],
    )];
    let result = build_messages(&messages, "", &openai_compat());
    let assistant = result.iter().find(|m| m["role"] == "assistant").unwrap();
    assert!(assistant.get("tool_calls").is_none());
    let content = assistant["content"].as_str().unwrap();
    assert!(content.contains("[tool call skipped:"));
    assert!(content.contains("arguments={}"));
}

#[test]
fn test_thinking_only_assistant_keeps_empty_content() {
    let messages = vec![Message::new(
        Role::Assistant,
        vec![ContentBlock::Thinking {
            thinking: "internal reasoning".into(),
            signature: None,
        }],
    )];
    let result = build_messages(&messages, "", &openai_compat());
    let assistant = result.iter().find(|m| m["role"] == "assistant").unwrap();
    assert_eq!(assistant["content"], "");
    assert!(!assistant["content"].as_str().unwrap().contains("malformed"));
}

#[test]
fn test_empty_name_toolcall_with_user_tool_result_dropped() {
    let messages = vec![
        Message::new(
            Role::Assistant,
            vec![ContentBlock::ToolUse {
                id: "call_x".into(),
                name: "".into(),
                input: json(r#"{}"#),
                extra: None,
            }],
        ),
        Message::new(
            Role::User,
            vec![ContentBlock::ToolResult {
                tool_use_id: "call_x".into(),
                content: "Unknown tool: ".into(),
                is_error: true,
            }],
        ),
    ];
    let result = build_messages(&messages, "", &openai_compat());
    assert!(result.iter().all(|m| m["role"] != "tool"));
    let assistant = result.iter().find(|m| m["role"] == "assistant").unwrap();
    assert!(
        assistant["content"]
            .as_str()
            .unwrap()
            .contains("[tool call skipped:")
    );
}

#[test]
fn test_two_empty_name_calls_produce_two_lines() {
    let messages = vec![Message::new(
        Role::Assistant,
        vec![
            ContentBlock::ToolUse {
                id: "a".into(),
                name: "".into(),
                input: json(r#"{"x":1}"#),
                extra: None,
            },
            ContentBlock::ToolUse {
                id: "b".into(),
                name: "".into(),
                input: json(r#"{"y":2}"#),
                extra: None,
            },
        ],
    )];
    let result = build_messages(&messages, "", &openai_compat());
    let content = result.iter().find(|m| m["role"] == "assistant").unwrap()["content"]
        .as_str()
        .unwrap()
        .to_string();
    assert_eq!(content.matches("[tool call skipped:").count(), 2);
    assert!(content.contains("{\"x\":1}") && content.contains("{\"y\":2}"));
}

#[test]
fn test_sanitize_disabled_keeps_empty_name() {
    let mut compat = openai_compat();
    compat.tools.sanitize_malformed_tool_calls = Some(false);
    let messages = vec![Message::new(
        Role::Assistant,
        vec![ContentBlock::ToolUse {
            id: "call_x".into(),
            name: "".into(),
            input: json(r#"{}"#),
            extra: None,
        }],
    )];
    let result = build_messages(&messages, "", &compat);
    let assistant = result.iter().find(|m| m["role"] == "assistant").unwrap();
    assert_eq!(assistant["tool_calls"][0]["function"]["name"], ""); // raw empty name preserved
}

// H1-1
#[test]
fn test_normal_toolcall_unaffected() {
    let messages = vec![
        Message::new(
            Role::Assistant,
            vec![ContentBlock::ToolUse {
                id: "call_x".into(),
                name: "Bash".into(),
                input: json(r#"{"command":"ls"}"#),
                extra: None,
            }],
        ),
        Message::new(
            Role::Tool,
            vec![ContentBlock::ToolResult {
                tool_use_id: "call_x".into(),
                content: "ok".into(),
                is_error: false,
            }],
        ),
    ];
    let result = build_messages(&messages, "", &openai_compat());
    let assistant = result.iter().find(|m| m["role"] == "assistant").unwrap();
    assert_eq!(assistant["tool_calls"][0]["function"]["name"], "Bash");
    assert!(
        result
            .iter()
            .any(|m| m["role"] == "tool" && m["tool_call_id"] == "call_x")
    );
}

// --- dedup_tool_results ---

#[test]
fn test_dedup_tool_results_enabled() {
    let messages = vec![
        Message::new(
            Role::Assistant,
            vec![ContentBlock::ToolUse {
                id: "tc1".into(),
                name: "bash".into(),
                input: json(r#"{}"#),
                extra: None,
            }],
        ),
        Message::new(
            Role::Tool,
            vec![ContentBlock::ToolResult {
                tool_use_id: "tc1".into(),
                content: "first".into(),
                is_error: false,
            }],
        ),
        Message::new(
            Role::Tool,
            vec![ContentBlock::ToolResult {
                tool_use_id: "tc1".into(),
                content: "second".into(),
                is_error: false,
            }],
        ),
    ];
    let result = build_messages(&messages, "", &openai_compat());
    let tool_msgs: Vec<_> = result.iter().filter(|m| m["role"] == "tool").collect();
    assert_eq!(tool_msgs.len(), 1);
    assert_eq!(tool_msgs[0]["content"], "second");
}

// --- usage token parsing ---

#[test]
fn test_usage_from_trailing_chunk() {
    // OpenAI sends usage in a trailing chunk where choices:[] — the Done
    // event must carry the token counts from that chunk, not zeros.
    let mut state = StreamState::new();

    // chunk 1: finish_reason + text delta, no usage
    let chunk1 = r#"{"choices":[{"delta":{"content":"hi"},"finish_reason":"stop"}]}"#;
    let events = parse_sse_chunk(chunk1, &mut state, false);
    // TextDelta is emitted immediately; Done is deferred.
    assert!(
        events.iter().all(|e| !matches!(e, LlmEvent::Done { .. })),
        "Done should be deferred, not emitted with finish_reason chunk"
    );
    assert!(state.pending_done.is_some());

    // chunk 2: trailing usage-only chunk (choices:[])
    let chunk2 = r#"{"choices":[],"usage":{"prompt_tokens":10,"completion_tokens":5}}"#;
    let events2 = parse_sse_chunk(chunk2, &mut state, false);
    assert!(events2.is_empty());
    assert_eq!(state.input_tokens, 10);
    assert_eq!(state.output_tokens, 5);

    // [DONE] — flush with final counts
    let done = state.flush_done().expect("pending_done should be Some");
    match done {
        LlmEvent::Done { stop_reason, usage } => {
            assert_eq!(stop_reason, StopReason::EndTurn);
            assert_eq!(usage.input_tokens, 10);
            assert_eq!(usage.output_tokens, 5);
        }
        other => panic!("expected Done, got {other:?}"),
    }
}

#[test]
fn test_usage_in_finish_chunk() {
    // Some providers/models include usage in the same chunk as finish_reason.
    // Counts should still be correct after flush.
    let mut state = StreamState::new();

    // No text delta here, only finish_reason + usage in the same chunk.
    let chunk = r#"{"choices":[{"delta":{},"finish_reason":"stop"}],"usage":{"prompt_tokens":8,"completion_tokens":3}}"#;
    let events = parse_sse_chunk(chunk, &mut state, false);
    assert!(
        events.iter().all(|e| !matches!(e, LlmEvent::Done { .. })),
        "Done should be deferred even when usage is in the finish chunk"
    );
    assert_eq!(state.output_tokens, 3);

    let done = state.flush_done().unwrap();
    match done {
        LlmEvent::Done { usage, .. } => {
            assert_eq!(usage.output_tokens, 3);
        }
        other => panic!("expected Done, got {other:?}"),
    }
}

#[test]
fn test_build_tools_deferred_has_empty_parameters() {
    let tools = vec![
        ToolDef {
            name: "Read".into(),
            description: "Read a file".into(),
            summary: "Read a file".into(),
            input_schema: json(r#"{"type": "object", "properties": {"path": {"type": "string"}}}"#),
            deferred: false,
        },
        ToolDef {
            name: "SpawnTool".into(),
            description: "Spawn sub-agents".into(),
            summary: "Spawn sub-agents".into(),
            input_schema: json(r#"{"type": "object", "properties": {"agents": {"type": "array"}}}"#),
            deferred: true,
        },
    ];
    let result = build_tools(&tools);

    // Core tool has full parameters
    let read_params = &result[0]["function"]["parameters"];
    assert!(read_params["properties"].get("path").is_some());

    // Deferred tool has empty parameters and modified description
    let spawn_params = &result[1]["function"]["parameters"];
    assert!(spawn_params["properties"].as_object().unwrap().is_empty());
    let spawn_desc = result[1]["function"]["description"].as_str().unwrap();
    assert!(spawn_desc.contains("ToolSearch"));
}

#[test]
fn usage_includes_prompt_cache_hit_tokens() {
    // DeepSeek reports prompt_cache_hit_tokens separately;
    // input_tokens should be the sum of prompt_tokens + prompt_cache_hit_tokens
    let mut state = StreamState::new();

    let chunk = r#"{"choices":[{"delta":{},"finish_reason":"stop"}],"usage":{"prompt_tokens":500,"completion_tokens":100,"prompt_cache_hit_tokens":999500}}"#;
    let _ = parse_sse_chunk(chunk, &mut state, false);

    assert_eq!(state.input_tokens, 1_000_000);
    assert_eq!(state.output_tokens, 100);
}

#[test]
fn usage_with_prompt_tokens_details_cached() {
    // OpenAI standard: prompt_tokens already includes cached_tokens (it's the total)
    // prompt_tokens_details.cached_tokens is informational only
    let mut state = StreamState::new();

    let chunk = r#"{"choices":[{"delta":{},"finish_reason":"stop"}],"usage":{"prompt_tokens":1000000,"completion_tokens":100,"prompt_tokens_details":{"cached_tokens":999000}}}"#;
    let _ = parse_sse_chunk(chunk, &mut state, false);

    // prompt_tokens is already the full total for OpenAI
    assert_eq!(state.input_tokens, 1_000_000);
    assert_eq!(state.output_tokens, 100);
}

#[test]
fn usage_without_cache_fields_unchanged() {
    // Provider that only sends prompt_tokens (no cache fields)
    let mut state = StreamState::new();

    let chunk = r#"{"choices":[{"delta":{},"finish_reason":"stop"}],"usage":{"prompt_tokens":50000,"completion_tokens":200}}"#;
    let _ = parse_sse_chunk(chunk, &mut state, false);

    assert_eq!(state.input_tokens, 50_000);
    assert_eq!(state.output_tokens, 200);
}

#[test]
fn tool_calls_with_stop_finish_reason() {
    // Gemini uses finish_reason:"stop" even when tool_calls are present.
    // The accumulated tool calls must still be emitted.
    let mut state = StreamState::new();

    // chunk 1: tool call delta (name + partial args)
    let chunk1 = r#"{"choices":[{"delta":{"role":"assistant","tool_calls":[{"extra_content":{},"function":{"arguments":"{\"skill\":\"test\",\"args\":\"hello\"}","name":"Skill"},"id":"call_abc123","type":"function"}]},"index":0}]}"#;
    let events1 = parse_sse_chunk(chunk1, &mut state, false);
    assert!(events1.is_empty(), "no events until finish_reason");
    assert_eq!(state.tool_calls.len(), 1);
    assert_eq!(state.tool_calls[0].name, "Skill");

    // chunk 2: finish_reason:"stop" (not "tool_calls")
    let chunk2 = r#"{"choices":[{"delta":{"role":"assistant"},"finish_reason":"stop","index":0}],"usage":{"prompt_tokens":100,"completion_tokens":20,"total_tokens":120}}"#;
    let events2 = parse_sse_chunk(chunk2, &mut state, false);

    // Tool call should be emitted
    let tool_events: Vec<_> = events2
        .iter()
        .filter(|e| matches!(e, LlmEvent::ToolUse { .. }))
        .collect();
    assert_eq!(tool_events.len(), 1, "tool call should be emitted on stop");
    if let LlmEvent::ToolUse {
        id, name, input, ..
    } = &tool_events[0]
    {
        assert_eq!(id, "call_abc123");
        assert_eq!(name, "Skill");
        assert_eq!(value(input)["skill"], "test");
    }

    // Done should be deferred with ToolUse stop reason
    let done = state.flush_done().unwrap();
    match done {
        LlmEvent::Done { stop_reason, .. } => {
            assert_eq!(stop_reason, StopReason::ToolUse);
        }
        other => panic!("expected Done with ToolUse, got {other:?}"),
    }

    assert!(state.tool_calls.is_empty(), "tool calls should be drained");
}

#[test]
fn test_empty_name_toolcall_still_emitted_to_history() {
    let mut state = StreamState::new();

    let chunk1 = r#"{"choices":[{"delta":{"role":"assistant","tool_calls":[{"index":0,"id":"call_x","type":"function","function":{"name":"","arguments":"{}"}}]},"index":0}]}"#;
    let events1 = parse_sse_chunk(chunk1, &mut state, false);
    assert!(events1.is_empty(), "no events until finish_reason");

    let chunk2 = r#"{"choices":[{"delta":{},"finish_reason":"tool_calls","index":0}]}"#;
    let events2 = parse_sse_chunk(chunk2, &mut state, false);

    let tool_use_name = events2.iter().find_map(|event| match event {
        LlmEvent::ToolUse { name, .. } => Some(name.clone()),
        _ => None,
    });

    assert_eq!(
        tool_use_name,
        Some(String::new()),
        "empty-name tool_call must still be emitted and recorded as-is"
    );
}

#[test]
fn stop_without_tool_calls_unchanged() {
    // Standard stop without tool calls should still produce EndTurn.
    let mut state = StreamState::new();

    let chunk =
        r#"{"choices":[{"delta":{"content":"done"},"finish_reason":"stop","index":0}]}"#;
    let events = parse_sse_chunk(chunk, &mut state, false);

    let text_events: Vec<_> = events
        .iter()
        .filter(|e| matches!(e, LlmEvent::TextDelta(_)))
        .collect();
    assert_eq!(text_events.len(), 1);

    let done = state.flush_done().unwrap();
    match done {
        LlmEvent::Done { stop_reason, .. } => {
            assert_eq!(stop_reason, StopReason::EndTurn);
        }
        other => panic!("expected Done with EndTurn, got {other:?}"),
    }
}

#[test]
fn openai_test_auto_tool_id_generates_id_when_empty() {
    let mut state = StreamState::new();

    // Simulate a provider that returns tool_calls without an id field
    let chunk = r#"{"choices":[{"delta":{"tool_calls":[{"index":0,"function":{"name":"get_weather","arguments":"{\"city\":\"Beijing\"}"}}]},"finish_reason":"tool_calls","index":0}]}"#;
    let events = parse_sse_chunk(chunk, &mut state, true);

    let tool_use = events
        .iter()
        .find(|e| matches!(e, LlmEvent::ToolUse { .. }))
        .expect("should emit ToolUse event");

    if let LlmEvent::ToolUse { id, name, .. } = tool_use {
        assert!(!id.is_empty(), "id should be auto-generated, not empty");
        assert!(id.starts_with("call_"), "id should have call_ prefix");
        assert_eq!(name, "get_weather");
    }
}

#[test]
fn openai_test_auto_tool_id_preserves_existing_id() {
    let mut state = StreamState::new();

    let chunk = r#"{"choices":[{"delta":{"tool_calls":[{"index":0,"id":"call_existing_123","function":{"name":"read_file","arguments":"{}"}}]},"finish_reason":"tool_calls","index":0}]}"#;
    let events = parse_sse_chunk(chunk, &mut state, true);

    let tool_use = events
        .iter()
        .find(|e| matches!(e, LlmEvent::ToolUse { .. }))
        .expect("should emit ToolUse event");

    if let LlmEvent::ToolUse { id, .. } = tool_use {
        assert_eq!(id, "call_existing_123", "existing id should be preserved");
    }
}

#[test]
fn test_auto_tool_id_disabled_keeps_empty() {
    let mut state = StreamState::new();

    let chunk = r#"{"choices":[{"delta":{"tool_calls":[{"index":0,"function":{"name":"get_weather","arguments":"{}"}}]},"finish_reason":"tool_calls","index":0}]}"#;
    let events = parse_sse_chunk(chunk, &mut state, false);

    let tool_use = events
        .iter()
        .find(|e| matches!(e, LlmEvent::ToolUse { .. }))
        .expect("should emit ToolUse event");

    if let LlmEvent::ToolUse { id, .. } = tool_use {
        assert!(
            id.is_empty(),
            "id should remain empty when auto_tool_id is disabled"
        );
    }
}

