use aion::anthropic_shared;
use aion::compat::ProviderCompat;
use aion::exec_command::{format_output, ExecCommandTool, ExecOutcome};
use aion::json::JsonValue;
use aion::llm::{LlmRequest, ProviderError, ThinkingConfig, ToolDef};
use aion::message::{ContentBlock, ImageUrl, Message, Role};
use aion::openai::OpenAIProvider;
use aion::request_body::build_wire_body;
use aion::transport::{
    join_base_url_and_api_path, map_common_status, map_openai_status, normalize_openai_base_url,
    AnthropicTransport, OpenAiTransport, StreamDecoder, TransportKind, WireProtocol, WireProvider,
};

fn json(text: &str) -> JsonValue {
    JsonValue::parse(text).unwrap()
}

fn texts(v: &[JsonValue]) -> Vec<String> {
    v.iter().map(|j| j.to_text()).collect()
}

fn call(id: &str, name: &str) -> ContentBlock {
    ContentBlock::ToolUse {
        id: id.to_string(),
        name: name.to_string(),
        input: json(r#"{"a":1}"#),
        extra: Some(json(r#"{"sig":"x"}"#)),
    }
}

fn result(id: &str, content: &str) -> ContentBlock {
    ContentBlock::ToolResult {
        tool_use_id: id.to_string(),
        content: content.to_string(),
        is_error: false,
    }
}

fn text(s: &str) -> ContentBlock {
    ContentBlock::Text { text: s.to_string() }
}

#[test]
fn chat_messages_are_written_out() {
    let messages = vec![
        Message::new(Role::System, vec![text("ignored")]),
        Message::new(Role::User, vec![text("one"), text("two")]),
        Message::new(
            Role::Assistant,
            vec![
                ContentBlock::Thinking { thinking: "hm".to_string(), signature: None },
                text("x"),
                call("", "Read"),
                call("b", "Grep"),
            ],
        ),
        Message::new(Role::User, vec![result("", "r1"), result("b", "r2"), text("dropped")]),
        Message::new(Role::Assistant, vec![text("done")]),
    ];
    let out = OpenAIProvider::build_messages_with_ids(
        &messages,
        "sys",
        &ProviderCompat::openai_defaults(),
        &vec!["call_1".to_string()],
    );
    assert_eq!(
        texts(&out),
        vec![
            r#"{"content":"sys","role":"system"}"#,
            r#"{"content":"one\ntwo","role":"user"}"#,
            r#"{"content":"x","reasoning_content":"hm","role":"assistant","tool_calls":[{"extra_content":{"sig":"x"},"function":{"arguments":"{\"a\":1}","name":"Read"},"id":"call_1","type":"function"},{"extra_content":{"sig":"x"},"function":{"arguments":"{\"a\":1}","name":"Grep"},"id":"b","type":"function"}]}"#,
            r#"{"content":"r1","role":"tool","tool_call_id":"call_1"}"#,
            r#"{"content":"r2","role":"tool","tool_call_id":"b"}"#,
            r#"{"content":"done","reasoning_content":"","role":"assistant"}"#,
        ]
    );
}

#[test]
fn chat_messages_without_settings_are_left_alone() {
    let messages = vec![
        Message::new(Role::Assistant, vec![call("a", "")]),
        Message::new(Role::Assistant, vec![]),
        Message::new(Role::Tool, vec![result("zzz", "r"), result("zzz", "s")]),
    ];
    let out = OpenAIProvider::build_messages(&messages, "", &ProviderCompat::default());
    assert_eq!(
        texts(&out),
        vec![
            r#"{"role":"assistant","tool_calls":[{"extra_content":{"sig":"x"},"function":{"arguments":"{\"a\":1}","name":""},"id":"a","type":"function"}]}"#,
            r#"{"content":"","role":"assistant"}"#,
            r#"{"content":"r","role":"tool","tool_call_id":"zzz"}"#,
            r#"{"content":"s","role":"tool","tool_call_id":"zzz"}"#,
        ]
    );
}

#[test]
fn chat_calls_without_answers_leave_an_empty_text() {
    let messages = vec![
        Message::new(Role::Assistant, vec![call("a", "Read")]),
        Message::new(Role::User, vec![text("next")]),
    ];
    let out =
        OpenAIProvider::build_messages(&messages, "", &ProviderCompat::openai_defaults());
    assert_eq!(
        texts(&out),
        vec![r#"{"content":"","role":"assistant"}"#, r#"{"content":"next","role":"user"}"#]
    );
}

#[test]
fn chat_calls_are_answered_once() {
    let messages = vec![
        Message::new(Role::Assistant, vec![call("a", "Read"), call("b", "Grep")]),
        Message::new(Role::User, vec![result("a", "old"), result("a", "new")]),
        Message::new(Role::Assistant, vec![call("a", "Read")]),
    ];
    let out = OpenAIProvider::build_messages(&messages, "", &ProviderCompat::openai_defaults());
    let tools: Vec<&JsonValue> =
        out.iter().filter(|m| m.get("role").and_then(|r| r.as_str()) == Some("tool")).collect();
    assert_eq!(tools.len(), 1);
    assert_eq!(tools[0].get("content").and_then(|c| c.as_str()), Some("new"));
    assert!(!texts(&out).iter().any(|m| m.contains("\"id\":\"b\"")));
}

#[test]
fn anthropic_messages_are_written_out() {
    let messages = vec![
        Message::new(Role::Assistant, vec![call("", "Read"), call("", "Grep")]),
        Message::new(Role::Tool, vec![result("", "r1")]),
        Message::new(
            Role::User,
            vec![
                result("", "r2"),
                ContentBlock::Image { image_url: ImageUrl { url: "u".to_string() } },
            ],
        ),
        Message::new(Role::User, vec![text("and")]),
    ];
    let out = anthropic_shared::build_messages_with_ids(
        &messages,
        &ProviderCompat::anthropic_defaults(),
        &vec!["toolu_1".to_string(), "toolu_2".to_string()],
    );
    assert_eq!(
        texts(&out),
        vec![
            r#"{"content":[{"text":".","type":"text"}],"role":"user"}"#,
            r#"{"content":[{"id":"toolu_1","input":{"a":1},"name":"Read","type":"tool_use"},{"id":"toolu_2","input":{"a":1},"name":"Grep","type":"tool_use"}],"role":"assistant"}"#,
            r#"{"content":[{"content":"r1","is_error":false,"tool_use_id":"toolu_1","type":"tool_result"},{"content":"r2","is_error":false,"tool_use_id":"toolu_2","type":"tool_result"},{"text":"and","type":"text"}],"role":"user"}"#,
        ]
    );
}

#[test]
fn anthropic_roles_alternate() {
    let mut compat = ProviderCompat::anthropic_defaults();
    compat.messages.merge_same_role = Some(false);
    let messages = vec![
        Message::new(Role::User, vec![text("a")]),
        Message::new(Role::User, vec![text("b")]),
        Message::new(Role::Assistant, vec![text("c")]),
        Message::new(Role::Assistant, vec![text("d")]),
    ];
    let out = anthropic_shared::build_messages(&messages, &compat);
    let roles: Vec<String> =
        out.iter().map(|m| m.get("role").unwrap().as_str().unwrap().to_string()).collect();
    assert_eq!(roles, vec!["user", "assistant", "user", "assistant", "user", "assistant"]);
    assert!(anthropic_shared::build_messages(&[], &compat).is_empty());
}

// --- transport ---

#[test]
fn anthropic_messages_are_never_empty_and_only_fillers_are_added() {
    let mut compat = ProviderCompat::anthropic_defaults();
    compat.messages.merge_same_role = Some(false);
    compat.messages.ensure_alternation = Some(true);
    compat.messages.clean_orphan_tool_results = Some(true);
    let messages = vec![
        Message::new(Role::Assistant, vec![text("a")]),
        Message::new(Role::System, vec![text("unseen")]),
        Message::new(Role::Assistant, vec![text("b")]),
        Message::new(Role::User, vec![result("nowhere", "r")]),
    ];
    let out = anthropic_shared::build_messages(&messages, &compat);
    assert_eq!(
        texts(&out),
        vec![
            r#"{"content":[{"text":".","type":"text"}],"role":"user"}"#,
            r#"{"content":[{"text":"a","type":"text"}],"role":"assistant"}"#,
            r#"{"content":[{"text":".","type":"text"}],"role":"user"}"#,
            r#"{"content":[{"text":"b","type":"text"}],"role":"assistant"}"#,
            r#"{"content":[{"text":"[tool call skipped: malformed (orphan tool result).]","type":"text"}],"role":"user"}"#,
        ]
    );
}

fn request(tools: Vec<ToolDef>) -> LlmRequest {
    LlmRequest {
        model: "m".to_string(),
        system: "s".to_string(),
        messages: vec![Message::new(Role::User, vec![text("hi")])],
        tools,
        max_tokens: Some(7),
        thinking: Some(ThinkingConfig::Enabled { budget_tokens: 9 }),
        reasoning_effort: Some("medium".to_string()),
    }
}

fn tool() -> ToolDef {
    ToolDef {
        name: "read".to_string(),
        description: "Read".to_string(),
        summary: "R".to_string(),
        input_schema: json(r#"{"type":"object","additionalProperties":false}"#),
        deferred: false,
    }
}

fn too_long(r: Result<JsonValue, ProviderError>) -> String {
    match r {
        Err(ProviderError::PromptTooLong(message)) => message,
        other => panic!("unexpected {other:?}"),
    }
}

#[test]
fn chat_bodies_are_written_out() {
    let provider = OpenAIProvider::new("k", "u", ProviderCompat::openai_defaults());
    assert_eq!(
        provider.build_request_body(&request(vec![tool()])).unwrap().to_text(),
        r#"{"max_tokens":7,"messages":[{"content":"s","role":"system"},{"content":"hi","role":"user"}],"model":"m","reasoning_effort":"medium","stream":true,"stream_options":{"include_usage":true},"tools":[{"function":{"description":"Read","name":"read","parameters":{"additionalProperties":false,"type":"object"}},"type":"function"}]}"#
    );
    let mut compat = ProviderCompat::openai_defaults();
    compat.transport.include_stream_options = Some(false);
    compat.tools.emit_tools = Some(false);
    compat.tools.max_tool_count = Some(0);
    compat.reasoning.supports_effort = Some(false);
    let provider = OpenAIProvider::new("k", "u", compat);
    let body = provider.build_request_body(&request(vec![tool()])).unwrap().to_text();
    assert_eq!(
        body,
        r#"{"max_tokens":7,"messages":[{"content":"s","role":"system"},{"content":"hi","role":"user"}],"model":"m","stream":true}"#
    );
    let mut compat = provider.compat;
    compat.transport.max_request_body_bytes = Some(body.len());
    let provider = OpenAIProvider::new("k", "u", compat);
    assert!(provider.build_request_body(&request(vec![])).is_ok());
    let mut compat = provider.compat;
    compat.transport.max_request_body_bytes = Some(body.len() - 1);
    let provider = OpenAIProvider::new("k", "u", compat);
    assert_eq!(
        too_long(provider.build_request_body(&request(vec![]))),
        format!("openai request body bytes {} exceeds configured limit {}", body.len(), body.len() - 1)
    );
}

#[test]
fn anthropic_bodies_are_written_out() {
    let mut compat = ProviderCompat::anthropic_defaults();
    let mut params = AnthropicTransport::new("k", "u", false).wire_params();
    params.anthropic_version = Some("v".to_string());
    params.sanitize_schema = true;
    let body = build_wire_body(&compat, &params, &request(vec![tool()])).unwrap();
    assert_eq!(
        body.to_text(),
        r#"{"anthropic_version":"v","max_tokens":7,"messages":[{"content":[{"text":"hi","type":"text"}],"role":"user"}],"model":"m","stream":true,"system":"s","thinking":{"budget_tokens":9,"type":"enabled"},"tools":[{"description":"Read","input_schema":{"type":"object"},"name":"read"}]}"#
    );
    compat.tools.max_tool_count = Some(1);
    assert!(build_wire_body(&compat, &params, &request(vec![tool()])).is_ok());
    assert_eq!(
        too_long(build_wire_body(&compat, &params, &request(vec![tool(), tool()]))),
        "anthropic tools count 2 exceeds configured limit 1"
    );
}

#[test]
fn addresses_are_joined_with_one_slash() {
    assert_eq!(join_base_url_and_api_path("http://h//", "//v1/x"), "http://h/v1/x");
    assert_eq!(join_base_url_and_api_path("http://h/", "///"), "http://h");
    assert_eq!(normalize_openai_base_url("HTTPS://api.OpenAI.com//"), "HTTPS://api.OpenAI.com/v1");
    assert_eq!(normalize_openai_base_url("http://api.openai.com"), "http://api.openai.com/v1");
    assert_eq!(normalize_openai_base_url("http://other/"), "http://other/");
    assert_eq!(
        normalize_openai_base_url("https://api.openai.com/v1"),
        "https://api.openai.com/v1"
    );
}

#[test]
fn requests_carry_their_headers() {
    let t = OpenAiTransport::new("k1", "https://api.openai.com");
    let mut compat = ProviderCompat::openai_defaults();
    compat.transport.api_path = Some("/chat/completions".to_string());
    let q = t.build_projected_request(json("{}"), &compat, "shape").ok().unwrap();
    assert_eq!(q.url, "https://api.openai.com/v1/chat/completions");
    assert_eq!(q.headers.get("authorization").unwrap(), "Bearer k1");
    assert_eq!(q.headers.get("content-type").unwrap(), "application/json");
    assert_eq!(q.headers.len(), 2);
    assert_eq!(q.tool_wire_shape, "shape");
    assert!(q.body_bytes.is_none());
    match OpenAiTransport::new("a\nb", "u").build_projected_request(
        json("{}"),
        &ProviderCompat::default(),
        (),
    ) {
        Err(ProviderError::Connection(e)) => {
            assert_eq!(e, "Invalid authorization header: failed to parse header value")
        }
        _ => panic!("expected an error"),
    }
    let a = AnthropicTransport::new("k2", "http://h", true);
    let q = a.build_projected_request(json("{}"), ()).ok().unwrap();
    assert_eq!(q.url, "http://h/v1/messages");
    assert_eq!(q.headers.get("x-api-key").unwrap(), "k2");
    assert_eq!(q.headers.get("anthropic-version").unwrap(), "2023-06-01");
    assert_eq!(q.headers.get("anthropic-beta").unwrap(), "prompt-caching-2024-07-31");
    assert_eq!(q.headers.len(), 4);
    let params = a.wire_params();
    assert_eq!(params.provider, WireProvider::Anthropic);
    assert_eq!(params.anthropic_version, None);
    assert!(params.cache_enabled && params.include_model_in_body && params.include_stream);
    assert!(!params.sanitize_schema);
    let a = AnthropicTransport::new("\u{7f}", "http://h", false);
    match a.build_projected_request(json("{}"), ()) {
        Err(ProviderError::Connection(e)) => {
            assert_eq!(e, "Invalid x-api-key header: failed to parse header value")
        }
        _ => panic!("expected an error"),
    }
    let p = OpenAIProvider::new("ké", "http://h", ProviderCompat::default());
    assert_eq!(p.url(), "http://h/v1/chat/completions");
    assert_eq!(p.build_headers().ok().unwrap().len(), 2);
    assert!(OpenAIProvider::new("\0", "", ProviderCompat::default()).build_headers().is_err());
}

#[test]
fn refusals_are_told_apart() {
    match map_common_status(429, "slow".to_string(), None) {
        ProviderError::RateLimited { retry_after_ms: 5000, body } => {
            assert_eq!(body.as_deref(), Some("slow"))
        }
        other => panic!("unexpected {other:?}"),
    }
    assert!(matches!(
        map_common_status(429, String::new(), Some("m".to_string())),
        ProviderError::RateLimited { body: None, .. }
    ));
    match map_common_status(400, "b".to_string(), Some("m".to_string())) {
        ProviderError::Api { status: 400, message } => assert_eq!(message, "m"),
        other => panic!("unexpected {other:?}"),
    }
    match map_common_status(500, "b".to_string(), None) {
        ProviderError::Api { status: 500, message } => assert_eq!(message, "b"),
        other => panic!("unexpected {other:?}"),
    }
    assert!(matches!(
        map_openai_status(429, "x".to_string()),
        ProviderError::RateLimited { retry_after_ms: 5000, body: None }
    ));
    assert!(matches!(map_openai_status(503, String::new()), ProviderError::Api { .. }));
}

#[test]
fn kinds_of_providers_differ() {
    let compat = ProviderCompat::openai_defaults();
    assert_eq!(TransportKind::OpenAi.wire_protocol(), WireProtocol::OpenAiChat);
    assert_eq!(TransportKind::Bedrock.wire_protocol(), WireProtocol::AnthropicMessages);
    assert_eq!(
        TransportKind::OpenAi.decoder(&compat),
        StreamDecoder::OpenAiSseLine { auto_tool_id: true }
    );
    assert_eq!(TransportKind::Vertex.decoder(&compat), StreamDecoder::AnthropicSseBlock);
    assert_eq!(TransportKind::Bedrock.decoder(&compat), StreamDecoder::BedrockAwsEventStream);
    assert_eq!(TransportKind::Bedrock.retry_policy(9).max_retries, 0);
    assert_eq!(TransportKind::Anthropic.retry_policy(9).switches, (false, true, true));
    assert_eq!(TransportKind::OpenAi.retry_policy(9).max_retries, 9);
}

// --- commands ---

#[test]
fn commands_are_prepared() {
    let tool = ExecCommandTool::new(std::path::PathBuf::from("/tmp"));
    assert_eq!(tool.name(), "ExecCommand");
    assert!(tool.description().starts_with("Executes a shell command and returns its output.\n\n"));
    assert!(!tool.is_concurrency_safe(&json("{}")));
    let q = tool.prepare(&json(r#"{"cmd":"ls"}"#)).unwrap();
    assert_eq!((q.command.as_str(), q.shell, q.timeout_ms), ("ls", None, 120_000));
    let q = tool.prepare(&json(r#"{"cmd":"ls","shell":"bash","timeout":700000}"#)).unwrap();
    assert_eq!((q.shell.as_deref(), q.timeout_ms), (Some("bash"), 600_000));
    let q = tool.prepare(&json(r#"{"cmd":"ls","timeout":5}"#)).unwrap();
    assert_eq!(q.timeout_ms, 5);
    let e = tool.prepare(&json(r#"{"cmd":7}"#)).unwrap_err();
    assert_eq!(e.content, "Missing required parameter: cmd");
    assert!(e.is_error);
    assert_eq!(tool.describe(tool.command_of(&json(r#"{"cmd":"ls"}"#))), "Execute: ls");
    assert_eq!(tool.command_of(&json("{}")), "");
    assert_eq!(
        tool.input_schema().get("required").unwrap().to_text(),
        r#"["cmd"]"#
    );
    assert_eq!(tool.invalid_shell("x").content, "Invalid shell: x");
}

#[test]
fn commands_are_told_of() {
    let tool = ExecCommandTool::new(std::path::PathBuf::from("/tmp"));
    let r = format_output(-7, "out", "err");
    assert_eq!(r.content, "Exit code: -7\nSTDOUT:\nout\nSTDERR:\nerr");
    assert!(r.is_error);
    let r = tool.finish(
        &ExecOutcome::Finished { code: Some(0), stdout: b"a\xff".to_vec(), stderr: vec![] },
        1,
    );
    assert_eq!(r.content, "Exit code: 0\nSTDOUT:\na\u{fffd}\nSTDERR:\n");
    assert!(!r.is_error);
    let r = tool.finish(&ExecOutcome::Finished { code: None, stdout: vec![], stderr: vec![] }, 1);
    assert!(r.content.starts_with("Exit code: -1\n"));
    let r = tool.finish(&ExecOutcome::TimedOut, 1500);
    assert_eq!(r.content, "Command timed out after 1500ms");
    let r = tool.finish(&ExecOutcome::Failed("nope".to_string()), 1);
    assert_eq!(r.content, "Failed to execute command: nope");
}
