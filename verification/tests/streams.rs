use aion::anthropic_stream::{apply_sse_event, StreamState};
use aion::framing::{ChatStream, Frame, FrameKind, SseLineFramer};
use aion::json::JsonValue;
use aion::llm::{LlmEvent, ProviderError};
use aion::message::{StopReason, TokenUsage};
use aion::openai_stream;
use aion::sse::{split_lines, BlockStream, SseBlockFramer, StreamOutcome};
use aion::stream::{build_assistant_content, StreamOutcome as Reply};
use aion::tool_ids::IdGenerator;

fn json(text: &str) -> JsonValue {
    JsonValue::parse(text).unwrap()
}

fn error() -> ProviderError {
    ProviderError::Connection("gone".to_string())
}

const REPLY: &str = "event: message_start\ndata: {\"message\":{\"usage\":{\"input_tokens\":7,\"cache_read_input_tokens\":2}}}\n\n\
event: content_block_start\ndata: {\"content_block\":{\"type\":\"tool_use\",\"id\":\"t1\",\"name\":\"Read\"}}\n\n\
event: content_block_delta\ndata: {\"delta\":{\"type\":\"input_json_delta\",\"partial_json\":\"{\\\"p\\\":\"}}\n\n\
event: content_block_delta\r\ndata: {\"delta\":{\"type\":\"input_json_delta\",\"partial_json\":\"1}\"}}\n\n\
event: content_block_stop\ndata: {}\n\n\
: comment\n\n\
event: message_delta\ndata: {\"delta\":{\"stop_reason\":\"tool_use\"},\"usage\":{\"output_tokens\":3}}\n\n";

fn show(events: &[LlmEvent]) -> Vec<String> {
    events.iter().map(|e| format!("{e:?}")).collect()
}

#[test]
fn lines_are_split_as_std_does() {
    for s in ["", "a", "a\n", "a\nb", "a\r\nb\r", "\n\n", "a\r\r\nb", "\r\n"] {
        let expected: Vec<String> = s.lines().map(|l| l.to_string()).collect();
        assert_eq!(split_lines(s), expected, "{s:?}");
    }
}

#[test]
fn replies_may_be_cut_anywhere() {
    let mut whole = BlockStream::new();
    let expected = show(&whole.push_text(REPLY));
    assert_eq!(expected.len(), 2);
    for cut in 0..REPLY.len() {
        let mut s = BlockStream::new();
        let mut events = s.push_bytes(REPLY[..cut].as_bytes());
        events.extend(s.push_bytes(REPLY[cut..].as_bytes()));
        assert_eq!(show(&events), expected);
        assert!(s.emitted_content);
    }
    let mut s = BlockStream::new();
    let events = s.push_text(REPLY);
    match &events[0] {
        LlmEvent::ToolUse { id, name, input, extra } => {
            assert_eq!((id.as_str(), name.as_str()), ("t1", "Read"));
            assert_eq!(input.to_text(), "{\"p\":1}");
            assert!(extra.is_none());
        }
        other => panic!("unexpected {other:?}"),
    }
    match &events[1] {
        LlmEvent::Done { stop_reason, usage } => {
            assert_eq!(*stop_reason, StopReason::ToolUse);
            assert_eq!(
                (usage.input_tokens, usage.output_tokens, usage.cache_read_tokens),
                (7, 3, 2)
            );
        }
        other => panic!("unexpected {other:?}"),
    }
}

#[test]
fn framers_hand_out_types_and_payloads() {
    let mut f = SseBlockFramer::new();
    assert!(f.push_text("event: a\ndata: 1\ndata: 2\n").is_empty());
    let messages = f.push_text("\ndata: 3\n\nrest");
    let all: Vec<(String, String)> =
        messages.into_iter().map(|m| (m.event_type, m.data)).collect();
    assert_eq!(
        all,
        vec![
            ("a".to_string(), "1".to_string()),
            ("a".to_string(), "2".to_string()),
            ("a".to_string(), "3".to_string()),
        ]
    );
    assert_eq!(f.buffer, "rest");
}

#[test]
fn broken_replies_tell_whether_anything_was_shown() {
    let mut s = BlockStream::new();
    assert!(matches!(s.failed(error()), StreamOutcome::FailedEmpty(ProviderError::Connection(_))));
    s.push_text("event: message_delta\ndata: {\"delta\":{}}\n\n");
    assert!(matches!(s.failed(error()), StreamOutcome::FailedEmpty(_)));
    s.push_text("event: content_block_delta\ndata: {\"delta\":{\"type\":\"text_delta\",\"text\":\"x\"}}\n\n");
    assert!(matches!(s.failed(error()), StreamOutcome::FailedPartial(_)));
}

#[test]
fn events_of_other_kinds_are_read() {
    let mut state = StreamState::default();
    let events = apply_sse_event("error", &json("{}"), None, &mut state);
    assert!(matches!(&events[0], LlmEvent::Error(e) if e == "Unknown API error"));
    let events =
        apply_sse_event("error", &json(r#"{"error":{"message":"m"}}"#), None, &mut state);
    assert!(matches!(&events[0], LlmEvent::Error(e) if e == "m"));
    let events = apply_sse_event(
        "message_delta",
        &json(r#"{"delta":{"stop_reason":"max_tokens"}}"#),
        None,
        &mut state,
    );
    assert!(matches!(&events[0], LlmEvent::Done { stop_reason: StopReason::MaxTokens, .. }));
    apply_sse_event(
        "content_block_start",
        &json(r#"{"content_block":{"type":"text"}}"#),
        None,
        &mut state,
    );
    assert_eq!(state.current_block_type, Some("text".to_string()));
    assert!(apply_sse_event("content_block_stop", &json("{}"), None, &mut state).is_empty());
    assert_eq!(state.current_block_type, None);
    state.current_block_type = Some("tool_use".to_string());
    let events = apply_sse_event("content_block_stop", &json("{}"), None, &mut state);
    assert!(matches!(&events[0], LlmEvent::ToolUse { input, .. } if input.to_text() == "{}"));
}

#[test]
fn bytes_that_are_no_text_are_replaced() {
    let mut f = SseLineFramer::default();
    let frames = f.push_bytes(b"data: \xff\n", "[DONE]");
    assert_eq!(frames[0].data, "\u{fffd}");
}

#[test]
fn chat_lines_become_frames() {
    let text = "data: {\"a\":1}\r\n\n: x\n  data: [DONE]  \ndata: late";
    for cut in 0..text.len() {
        let mut f = SseLineFramer::default();
        let mut frames = f.push_text(&text[..cut], "[DONE]");
        frames.extend(f.push_text(&text[cut..], "[DONE]"));
        assert_eq!(frames.len(), 2);
        assert_eq!(frames[0].kind, FrameKind::Data);
        assert_eq!(frames[0].data, "{\"a\":1}");
        assert_eq!(frames[1].kind, FrameKind::Done);
        assert_eq!(f.buffer, "data: late");
    }
}

#[test]
fn chat_replies_end_with_the_marker() {
    let mut s = ChatStream::new(true);
    let data = |s: &str| Frame { kind: FrameKind::Data, data: s.to_string() };
    let done = Frame { kind: FrameKind::Done, data: "[DONE]".to_string() };
    assert!(s.push_frame(&data("not json")).unwrap().is_empty());
    assert!(matches!(s.failed(error()), StreamOutcome::FailedEmpty(_)));
    let events = s
        .push_frame(&data(
            r#"{"choices":[{"delta":{"reasoning_content":"r","content":"c"},"finish_reason":"length"}]}"#,
        ))
        .unwrap();
    assert!(matches!(&events[0], LlmEvent::ThinkingDelta(t) if t == "r"));
    assert!(matches!(&events[1], LlmEvent::TextDelta(t) if t == "c"));
    assert!(matches!(s.failed(error()), StreamOutcome::FailedPartial(_)));
    let events = s.push_frame(&done).unwrap();
    assert!(matches!(&events[0], LlmEvent::Done { stop_reason: StopReason::MaxTokens, .. }));
    assert!(s.finish().is_empty());
}

#[test]
fn chat_counts_that_overflow_are_refused() {
    let mut s = ChatStream::new(false);
    let data = format!(
        "{{\"usage\":{{\"prompt_tokens\":{},\"prompt_cache_hit_tokens\":1}}}}",
        u64::MAX
    );
    assert!(s.push_frame(&Frame { kind: FrameKind::Data, data: data.clone() }).is_none());
    let mut state = openai_stream::StreamState::new();
    assert!(openai_stream::checked_parse_sse_chunk(&data, &mut state, false).is_none());
    assert_eq!(state.input_tokens, 0);
}

#[test]
fn chat_tool_calls_are_put_together() {
    let mut one = openai_stream::StreamState::new();
    let mut two = openai_stream::StreamState::new();
    let a = r#"{"index":1,"id":"c1","function":{"name":"Read","arguments":"{\"p\""}}"#;
    let b = r#"{"index":1,"function":{"name":"","arguments":":1}"},"extra_content":{"s":1}}"#;
    let chunk = |calls: String| {
        json(&format!("{{\"choices\":[{{\"delta\":{{\"tool_calls\":[{calls}]}}}}]}}"))
    };
    openai_stream::apply_delta(&chunk(format!("{a},{b}")), &mut one);
    openai_stream::apply_delta(&chunk(a.to_string()), &mut two);
    openai_stream::apply_delta(&chunk(b.to_string()), &mut two);
    assert_eq!(format!("{one:?}"), format!("{two:?}"));
    assert_eq!(one.tool_calls.len(), 2);
    assert_eq!(one.tool_calls[1].name, "Read");
    assert_eq!(one.tool_calls[1].arguments, "{\"p\":1}");
    let ids = vec!["call_0".to_string(), "call_1".to_string()];
    let inputs = vec![None, Some(json("{\"p\":1}"))];
    let events = openai_stream::apply_finish("tool_calls", true, &ids, &inputs, &mut one);
    match (&events[0], &events[1]) {
        (
            LlmEvent::ToolUse { id: first, input: empty, .. },
            LlmEvent::ToolUse { id: second, input, extra, .. },
        ) => {
            assert_eq!((first.as_str(), second.as_str()), ("call_0", "c1"));
            assert_eq!(empty.to_text(), "{}");
            assert_eq!(input.to_text(), "{\"p\":1}");
            assert_eq!(extra.as_ref().unwrap().to_text(), "{\"s\":1}");
        }
        other => panic!("unexpected {other:?}"),
    }
    assert!(one.tool_calls.is_empty());
    assert_eq!(one.pending_done, Some(StopReason::ToolUse));
    openai_stream::apply_finish("content_filter", true, &ids, &inputs, &mut two);
    assert_eq!(two.pending_done, None);
    assert_eq!(two.tool_calls.len(), 2);
}

#[test]
fn replies_are_collected() {
    let mut reply = Reply::start();
    for e in [
        LlmEvent::TextDelta("a".to_string()),
        LlmEvent::ThinkingDelta("t".to_string()),
        LlmEvent::TextDelta("b".to_string()),
    ] {
        assert!(reply.push_event(e).unwrap().is_some());
    }
    assert_eq!(reply.assistant_text, "ab");
    assert_eq!(reply.thinking_text, "t");
    assert_eq!(build_assistant_content(&reply).len(), 2);
    assert!(reply.push_event(LlmEvent::Error("e".to_string())).is_err());
}

#[test]
fn the_last_signature_and_end_count() {
    let mut reply = Reply::start();
    let end = |stop_reason, input_tokens| LlmEvent::Done {
        stop_reason,
        usage: TokenUsage { input_tokens, ..TokenUsage::default() },
    };
    for e in [
        LlmEvent::ThinkingDelta("a".to_string()),
        LlmEvent::ThinkingSignature("s1".to_string()),
        end(StopReason::ToolUse, 1),
        LlmEvent::ThinkingDelta("b".to_string()),
        LlmEvent::ThinkingSignature("s2".to_string()),
        end(StopReason::MaxTokens, 2),
    ] {
        reply.push_event(e).unwrap();
    }
    assert_eq!(reply.thinking_text, "ab");
    assert_eq!(reply.thinking_signature.as_deref(), Some("s2"));
    assert_eq!(reply.stop_reason, StopReason::MaxTokens);
    assert_eq!(reply.usage.input_tokens, 2);
}

#[test]
fn replies_of_one_generator_share_no_ids() {
    let call = r#"{"choices":[{"delta":{"tool_calls":[{"index":0,"function":{"name":"Read"}}]},"finish_reason":"tool_calls"}]}"#;
    let frame = Frame { kind: FrameKind::Data, data: call.to_string() };
    let mut generator = IdGenerator::new();
    let mut ids = Vec::new();
    for _ in 0..50 {
        let mut reply = ChatStream::with_generator(true, generator);
        for event in reply.push_frame(&frame).unwrap() {
            if let LlmEvent::ToolUse { id, .. } = event {
                ids.push(id);
            }
        }
        generator = reply.generator;
    }
    assert_eq!(ids.len(), 50);
    ids.sort();
    ids.dedup();
    assert_eq!(ids.len(), 50);
}
