use aion::compat::{
    MessageCompat, ProviderCompat, ReasoningCompat, SchemaCompat, ToolCompat, TransportCompat,
};
use aion::json::JsonValue;
use aion::schema;
use serde_json::Value;

fn json(text: &str) -> JsonValue {
    JsonValue::parse(text).unwrap()
}

fn value(v: &JsonValue) -> Value {
    serde_json::from_str(&v.to_text()).unwrap()
}

fn sanitize_json_schema(schema: &JsonValue) -> Value {
    value(&schema::sanitize_json_schema(schema))
}

#[test]
fn test_domain_merge_preserves_user_overrides_and_defaults() {
    let defaults = ProviderCompat::openai_defaults();
    let user = ProviderCompat {
        transport: TransportCompat {
            max_tokens_field: Some("max_completion_tokens".to_string()),
            api_path: Some("/chat/completions".to_string()),
            max_request_body_bytes: Some(2_048),
            include_stream_options: None,
        },
        messages: MessageCompat {
            merge_assistant_messages: Some(false),
            clean_orphan_tool_results: Some(false),
            dedup_tool_results: None,
            ensure_alternation: None,
            merge_same_role: None,
            strip_patterns: Some(vec!["strip-me".to_string()]),
        },
        tools: ToolCompat {
            clean_orphan_tool_calls: Some(false),
            sanitize_malformed_tool_calls: Some(false),
            auto_tool_id: Some(false),
            max_tool_count: Some(42),
            emit_tools: None,
        },
        schema: SchemaCompat {
            sanitize_schema: Some(true),
        },
        reasoning: ReasoningCompat {
            supports_thinking: Some(true),
            supports_effort: None,
            effort_levels: Some(vec!["custom".to_string()]),
        },
    };

    let merged = ProviderCompat::merge(defaults, user);

    assert_eq!(
        merged.transport.max_tokens_field.as_deref(),
        Some("max_completion_tokens")
    );
    assert_eq!(
        merged.transport.api_path.as_deref(),
        Some("/chat/completions")
    );
    assert_eq!(merged.max_request_body_bytes(), Some(2_048));
    assert!(merged.include_stream_options());
    assert!(!merged.merge_assistant_messages());
    assert!(!merged.clean_orphan_tool_calls());
    assert!(!merged.clean_orphan_tool_results());
    assert!(merged.dedup_tool_results());
    assert!(!merged.sanitize_malformed_tool_calls());
    assert_eq!(merged.max_tool_count(), Some(42));
    assert!(merged.emit_tools());
    assert!(merged.sanitize_schema());
    assert!(!merged.auto_tool_id());
    assert!(merged.supports_thinking());
    assert!(merged.supports_effort());
    assert_eq!(merged.effort_levels(), &["custom"]);
    assert_eq!(
        merged.messages.strip_patterns,
        Some(vec!["strip-me".to_string()])
    );
    assert_eq!(merged.reasoning.supports_thinking, Some(true));
    assert_eq!(merged.reasoning.supports_effort, Some(true));
    assert_eq!(
        merged.reasoning.effort_levels,
        Some(vec!["custom".to_string()])
    );
}

#[test]
fn test_domain_merge_empty_user_keeps_all_defaults() {
    let merged = ProviderCompat::merge(
        ProviderCompat::anthropic_defaults(),
        ProviderCompat::default(),
    );

    assert!(merged.ensure_alternation());
    assert!(merged.merge_same_role());
    assert!(merged.auto_tool_id());
    assert!(merged.sanitize_malformed_tool_calls());
    assert!(merged.clean_orphan_tool_results());
    assert!(merged.supports_thinking());
    assert!(!merged.supports_effort());
    assert!(merged.effort_levels().is_empty());
}

#[test]
fn test_anthropic_defaults() {
    let compat = ProviderCompat::anthropic_defaults();
    assert!(compat.ensure_alternation());
    assert!(compat.merge_same_role());
    assert!(compat.auto_tool_id());
    assert!(!compat.sanitize_schema());
    assert!(!compat.merge_assistant_messages());
    assert!(!compat.clean_orphan_tool_calls());
}

#[test]
fn test_bedrock_defaults() {
    let compat = ProviderCompat::bedrock_defaults();
    assert!(compat.ensure_alternation());
    assert!(compat.merge_same_role());
    assert!(compat.auto_tool_id());
    assert!(compat.sanitize_schema());
}

#[test]
fn test_openai_defaults() {
    let compat = ProviderCompat::openai_defaults();
    assert!(compat.merge_assistant_messages());
    assert!(compat.clean_orphan_tool_calls());
    assert!(compat.clean_orphan_tool_results());
    assert!(compat.dedup_tool_results());
    assert_eq!(
        compat.transport.max_tokens_field.as_deref(),
        Some("max_tokens")
    );
    assert!(!compat.ensure_alternation());
    assert_eq!(compat.transport.include_stream_options, Some(true));
    assert_eq!(compat.tools.emit_tools, Some(true));
    assert!(compat.include_stream_options());
    assert!(compat.emit_tools());
}

#[test]
fn test_openai_field_controls_merge_user_overrides_defaults() {
    let defaults = ProviderCompat::openai_defaults();
    let user = ProviderCompat {
        transport: TransportCompat {
            include_stream_options: Some(false),
            ..Default::default()
        },
        tools: ToolCompat {
            emit_tools: Some(false),
            ..Default::default()
        },
        reasoning: ReasoningCompat {
            supports_effort: Some(false),
            ..Default::default()
        },
        ..Default::default()
    };

    let merged = ProviderCompat::merge(defaults, user);

    assert_eq!(merged.transport.include_stream_options, Some(false));
    assert_eq!(merged.tools.emit_tools, Some(false));
    assert_eq!(merged.reasoning.supports_effort, Some(false));
    assert!(!merged.include_stream_options());
    assert!(!merged.emit_tools());
    assert!(!merged.supports_effort());
}

#[test]
fn test_clean_orphan_tool_results_defaults() {
    assert_eq!(
        ProviderCompat::openai_defaults()
            .messages
            .clean_orphan_tool_results,
        Some(true)
    );
    assert_eq!(
        ProviderCompat::anthropic_defaults()
            .messages
            .clean_orphan_tool_results,
        Some(true)
    );
    assert_eq!(
        ProviderCompat::bedrock_defaults()
            .messages
            .clean_orphan_tool_results,
        Some(true)
    );
}

#[test]
fn test_clean_orphan_tool_results_accessor_defaults_false() {
    let compat = ProviderCompat::default();
    assert!(!compat.clean_orphan_tool_results());
}

#[test]
fn test_merge_user_overrides_defaults() {
    let defaults = ProviderCompat::openai_defaults();
    let user = ProviderCompat {
        transport: TransportCompat {
            max_tokens_field: Some("max_completion_tokens".into()),
            ..Default::default()
        },
        messages: MessageCompat {
            merge_assistant_messages: Some(false),
            ..Default::default()
        },
        ..Default::default()
    };

    let merged = ProviderCompat::merge(defaults, user);
    assert_eq!(
        merged.transport.max_tokens_field.as_deref(),
        Some("max_completion_tokens")
    );
    assert!(!merged.merge_assistant_messages());
    // Non-overridden fields keep defaults
    assert!(merged.clean_orphan_tool_calls());
    assert!(merged.clean_orphan_tool_results());
    assert!(merged.dedup_tool_results());
}

#[test]
fn test_merge_clean_orphan_tool_results_user_overrides() {
    let defaults = ProviderCompat::openai_defaults();
    let user = ProviderCompat {
        messages: MessageCompat {
            clean_orphan_tool_results: Some(false),
            ..Default::default()
        },
        ..Default::default()
    };

    let merged = ProviderCompat::merge(defaults, user);
    assert_eq!(merged.messages.clean_orphan_tool_results, Some(false));
    assert!(!merged.clean_orphan_tool_results());
}

#[test]
fn test_merge_empty_user_keeps_defaults() {
    let defaults = ProviderCompat::anthropic_defaults();
    let user = ProviderCompat::default();

    let merged = ProviderCompat::merge(defaults, user);
    assert!(merged.ensure_alternation());
    assert!(merged.merge_same_role());
    assert!(merged.auto_tool_id());
}

#[test]
fn test_sanitize_schema_wraps_non_object_root() {
    let schema = json(r#"{"type": "string"}"#);
    let sanitized = sanitize_json_schema(&schema);

    assert_eq!(sanitized["type"], "object");
    assert_eq!(sanitized["properties"]["value"]["type"], "string");
}

#[test]
fn test_sanitize_schema_removes_additional_properties() {
    let schema = json(r#"{"type": "object","properties": {"name": {"type": "string", "additionalProperties": false}},"additionalProperties": false}"#);
    let sanitized = sanitize_json_schema(&schema);

    assert!(sanitized.get("additionalProperties").is_none());
    assert!(
        sanitized["properties"]["name"]
            .get("additionalProperties")
            .is_none()
    );
}

#[test]
fn test_sanitize_schema_normalizes_array_types() {
    let schema = json(r#"{"type": "object","properties": {"name": {"type": ["string", "null"]}}}"#);
    let sanitized = sanitize_json_schema(&schema);

    assert_eq!(sanitized["properties"]["name"]["type"], "string");
}

#[test]
fn test_sanitize_schema_no_change_for_valid_object() {
    let schema = json(r#"{"type": "object","properties": {"cmd": {"type": "string"}},"required": ["cmd"]}"#);
    let sanitized = sanitize_json_schema(&schema);

    assert_eq!(sanitized["type"], "object");
    assert_eq!(sanitized["properties"]["cmd"]["type"], "string");
}

#[test]
fn test_anthropic_defaults_capability_fields() {
    let compat = ProviderCompat::anthropic_defaults();
    assert_eq!(compat.reasoning.supports_thinking, Some(true));
    assert_eq!(compat.reasoning.supports_effort, Some(false));
    assert!(compat.reasoning.effort_levels.is_none());
}

#[test]
fn test_openai_defaults_capability_fields() {
    let compat = ProviderCompat::openai_defaults();
    assert_eq!(compat.reasoning.supports_thinking, Some(false));
    assert_eq!(compat.reasoning.supports_effort, Some(true));
    assert_eq!(
        compat.reasoning.effort_levels,
        Some(vec![
            "low".to_string(),
            "medium".to_string(),
            "high".to_string()
        ])
    );
}

#[test]
fn test_bedrock_defaults_capability_fields() {
    let compat = ProviderCompat::bedrock_defaults();
    assert_eq!(compat.reasoning.supports_thinking, Some(true));
    assert_eq!(compat.reasoning.supports_effort, Some(false));
}

#[test]
fn test_merge_capability_fields_user_overrides() {
    let defaults = ProviderCompat::openai_defaults();
    let user = ProviderCompat {
        reasoning: ReasoningCompat {
            supports_thinking: Some(true),
            ..Default::default()
        },
        ..Default::default()
    };
    let merged = ProviderCompat::merge(defaults, user);
    assert_eq!(merged.reasoning.supports_thinking, Some(true));
    assert_eq!(merged.reasoning.supports_effort, Some(true));
}

#[test]
fn test_capability_accessors() {
    let compat = ProviderCompat::anthropic_defaults();
    assert!(compat.supports_thinking());
    assert!(!compat.supports_effort());
    assert!(compat.effort_levels().is_empty());

    let compat2 = ProviderCompat::openai_defaults();
    assert!(!compat2.supports_thinking());
    assert!(compat2.supports_effort());
    assert_eq!(compat2.effort_levels(), &["low", "medium", "high"]);
}

// D-1
#[test]
fn test_defaults_enable_sanitize_malformed_tool_calls() {
    assert_eq!(
        ProviderCompat::openai_defaults()
            .tools
            .sanitize_malformed_tool_calls,
        Some(true)
    );
    assert_eq!(
        ProviderCompat::anthropic_defaults()
            .tools
            .sanitize_malformed_tool_calls,
        Some(true)
    );
    assert_eq!(
        ProviderCompat::bedrock_defaults()
            .tools
            .sanitize_malformed_tool_calls,
        Some(true)
    );
}

// D-2
#[test]
fn test_merge_preserves_sanitize_field() {
    let defaults = ProviderCompat::openai_defaults();
    let user = ProviderCompat {
        tools: ToolCompat {
            sanitize_malformed_tool_calls: Some(false),
            ..Default::default()
        },
        ..Default::default()
    };
    let merged = ProviderCompat::merge(defaults, user);
    assert_eq!(merged.tools.sanitize_malformed_tool_calls, Some(false)); // user wins
    assert_eq!(merged.tools.clean_orphan_tool_calls, Some(true)); // default preserved
}

