use aion::json::JsonValue;
use aion::message::ContentBlock;
use aion::tool_call::{
    merge_tool_results, tool_call_failure_fingerprint, tool_call_malformed_fingerprint,
    tool_call_malformed_reason, ContextModifier, ToolCallFailureTracker, ToolCallMalformedReason,
    ToolCallMalformedTracker,
};

fn json(text: &str) -> JsonValue {
    JsonValue::parse(text).unwrap()
}

#[test]
fn reason_detects_blank_name_before_blank_id() {
    assert_eq!(
        tool_call_malformed_reason("", ""),
        Some(ToolCallMalformedReason::EmptyFunctionName)
    );
    assert_eq!(
        tool_call_malformed_reason("call_1", "   "),
        Some(ToolCallMalformedReason::EmptyFunctionName)
    );
}

#[test]
fn reason_detects_blank_id() {
    assert_eq!(
        tool_call_malformed_reason(" ", "Read"),
        Some(ToolCallMalformedReason::EmptyToolCallId)
    );
}

#[test]
fn tracker_counts_only_same_fingerprint() {
    let call = ContentBlock::ToolUse {
        id: "bad".into(),
        name: "".into(),
        input: json(r#"{}"#),
        extra: None,
    };
    let fingerprint = tool_call_malformed_fingerprint(&[call], &[Some(ToolCallMalformedReason::EmptyFunctionName)]);
    let mut tracker = ToolCallMalformedTracker::new(3);

    assert_eq!(tracker.observe(fingerprint.clone()), 1);
    assert_eq!(tracker.observe(fingerprint), 2);
    assert_eq!(tracker.observe(None), 0);
}

#[test]
fn tool_call_malformed_tracker_limit_zero_disables_breaker() {
    let call = ContentBlock::ToolUse {
        id: "bad".into(),
        name: "".into(),
        input: json(r#"{}"#),
        extra: None,
    };
    let fingerprint = tool_call_malformed_fingerprint(&[call], &[Some(ToolCallMalformedReason::EmptyFunctionName)]);
    let mut tracker = ToolCallMalformedTracker::new(0);

    assert_eq!(tracker.observe(fingerprint.clone()), 1);
    assert!(!tracker.is_limit_exceeded());
    assert_eq!(tracker.observe(fingerprint), 2);
    assert!(!tracker.is_limit_exceeded());
}

#[test]
fn tool_call_failure_tracker_counts_only_same_fingerprint() {
    let command_a = ContentBlock::ToolUse {
        id: "call-a".into(),
        name: "ExecCommand".into(),
        input: json(r#"{ "cmd": "python update_config.py" }"#),
        extra: None,
    };
    let command_a_reissued = ContentBlock::ToolUse {
        id: "call-a-reissued".into(),
        name: "ExecCommand".into(),
        input: json(r#"{ "cmd": "python update_config.py" }"#),
        extra: None,
    };
    let command_b = ContentBlock::ToolUse {
        id: "call-b".into(),
        name: "ExecCommand".into(),
        input: json(r#"{ "cmd": "aioncore assistants update" }"#),
        extra: None,
    };
    let command_a = tool_call_failure_fingerprint(&[command_a]);
    let command_a_reissued = tool_call_failure_fingerprint(&[command_a_reissued]);
    let command_b = tool_call_failure_fingerprint(&[command_b]);
    let mut tracker = ToolCallFailureTracker::new(3);

    assert_eq!(tracker.observe(command_a.clone()), 1);
    assert_eq!(tracker.observe(command_a_reissued), 2);
    assert_eq!(tracker.observe(command_b), 1);
    assert_eq!(tracker.count(), 1);
    assert!(!tracker.is_limit_exceeded());
    assert_eq!(tracker.observe(None), 0);
    assert_eq!(tracker.observe(command_a.clone()), 1);
    assert_eq!(tracker.observe(command_a.clone()), 2);
    assert_eq!(tracker.observe(command_a), 3);
    assert!(tracker.is_limit_exceeded());
    assert_eq!(tracker.limit(), 3);
}

#[test]
fn tool_call_failure_tracker_limit_zero_disables_breaker() {
    let call = ContentBlock::ToolUse {
        id: "call-a".into(),
        name: "ExecCommand".into(),
        input: json(r#"{ "cmd": "python update_config.py" }"#),
        extra: None,
    };
    let fingerprint = tool_call_failure_fingerprint(&[call]);
    let mut tracker = ToolCallFailureTracker::new(0);

    assert_eq!(tracker.observe(fingerprint.clone()), 1);
    assert!(!tracker.is_limit_exceeded());
    assert_eq!(tracker.observe(fingerprint), 2);
    assert!(!tracker.is_limit_exceeded());
}

#[test]
fn results_come_back_in_the_order_of_the_calls() {
    let call = |id: &str, name: &str| ContentBlock::ToolUse {
        id: id.into(),
        name: name.into(),
        input: json(r#"{}"#),
        extra: None,
    };
    let result = |id: &str, content: &str| ContentBlock::ToolResult {
        tool_use_id: id.into(),
        content: content.into(),
        is_error: false,
    };
    let calls = [call("a", "Read"), call("b", ""), call("", "Grep"), call("d", "Glob")];
    let reasons = [
        None,
        Some(ToolCallMalformedReason::EmptyFunctionName),
        Some(ToolCallMalformedReason::EmptyToolCallId),
        None,
    ];
    let modifier = ContextModifier {
        model: Some("m".into()),
        effort: None,
        allowed_tools: Vec::new(),
        plan_mode_transition: None,
    };
    let (results, modifiers) = merge_tool_results(
        &calls,
        &reasons,
        vec![result("a", "first"), result("d", "second")],
        vec![None, Some(modifier)],
    );
    let shown: Vec<(String, String, bool)> = results
        .into_iter()
        .map(|r| match r {
            ContentBlock::ToolResult { tool_use_id, content, is_error } => {
                (tool_use_id, content, is_error)
            }
            other => panic!("unexpected {other:?}"),
        })
        .collect();
    assert_eq!(shown[0], ("a".to_string(), "first".to_string(), false));
    assert_eq!((shown[1].0.as_str(), shown[1].2), ("b", true));
    assert!(shown[1].1.starts_with("Malformed tool call: "));
    assert_eq!((shown[2].0.as_str(), shown[2].2), ("", true));
    assert!(shown[2].1.ends_with(" if still needed, or answer in text."));
    assert_eq!(shown[3], ("d".to_string(), "second".to_string(), false));
    assert_eq!(modifiers.len(), 4);
    assert!(modifiers[0].is_none() && modifiers[1].is_none() && modifiers[2].is_none());
    assert_eq!(modifiers[3].as_ref().unwrap().model.as_deref(), Some("m"));
}

#[test]
fn trackers_trip_at_their_limit_and_start_over_on_another_round() {
    let failed = |id: &str, path: &str| {
        tool_call_failure_fingerprint(&[ContentBlock::ToolUse {
            id: id.into(),
            name: "Read".into(),
            input: json(&format!("{{\"path\":\"{path}\"}}")),
            extra: None,
        }])
    };
    let mut tracker = ToolCallFailureTracker::new(2);
    assert_eq!(tracker.observe(failed("1", "x")), 1);
    assert_eq!(tracker.observe(failed("2", "y")), 1);
    assert!(!tracker.is_limit_exceeded());
    assert_eq!(tracker.observe(failed("3", "y")), 2);
    assert!(tracker.is_limit_exceeded());
    assert_eq!(tracker.observe(None), 0);
    assert!(!tracker.is_limit_exceeded());
}
