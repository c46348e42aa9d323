use aion::json::{JsonObject, JsonValue};
use aion::message::{ContentBlock, ImageUrl, Message, Role, TokenUsage};
use aion::schema::sanitize_json_schema;
use aion::text::{
    blank, chars_of, contains_text, format_base, format_hex_padded, format_i32, format_u64,
    is_whitespace, joined, remove_pattern, remove_patterns, str_eq, strip_prefix,
    trimmed,
};
use aion::tool_call_sanitize::{format_dropped_arguments, truncate_chars, DroppedToolCallReason};
use aion::clock::{nanos_since_epoch, Timestamp};
use aion::tool_ids::{
    call_id_at, fresh_ids, generate_call_id, generate_tool_id, ids_for, ids_from, reading_after,
    reading_at, tool_id_at, IdGenerator, IdStyle, LAST_READING,
};

fn json(text: &str) -> JsonValue {
    JsonValue::parse(text).unwrap()
}

// --- text ---

#[test]
fn whitespace_is_trimmed_at_both_ends() {
    assert_eq!(trimmed(" \t\u{a0}a b\u{3000}\n"), "a b");
    assert_eq!(trimmed(" \u{2003} "), "");
    assert!(blank("\u{85}\u{1680}\u{202f}"));
    assert!(!blank("\u{200b}"));
    for code in 0..0x3100u32 {
        if let Some(c) = char::from_u32(code) {
            assert_eq!(is_whitespace(c), c.is_whitespace(), "{code:x}");
        }
    }
}

#[test]
fn texts_are_compared_and_searched() {
    assert!(str_eq("héllo", "héllo"));
    assert!(!str_eq("a", "b"));
    assert!(!str_eq("a", "ab"));
    assert_eq!(chars_of("aé中"), vec!['a', 'é', '中']);
    assert_eq!(strip_prefix("event: ping", "event: "), Some("ping".to_string()));
    assert_eq!(strip_prefix("ping", "event: "), None);
    assert!(contains_text(&vec!["a".to_string(), "b".to_string()], "b"));
    assert!(!contains_text(&vec!["a".to_string()], "A"));
}

#[test]
fn patterns_are_removed_from_the_left() {
    for (s, p) in [("aaaa", "aa"), ("aaa", "aa"), ("xaby", "ab"), ("", "a"), ("abc", ""), ("中中", "中")] {
        assert_eq!(remove_pattern(s, p), s.replace(p, ""), "{s} {p}");
    }
    assert_eq!(remove_patterns("abcabc", &vec!["b".to_string(), "ac".to_string()]), "");
    assert_eq!(joined(&vec!["a".to_string(), "".to_string(), "b".to_string()], "--"), "a----b");
    assert_eq!(joined(&vec![], ","), "");
}

#[test]
fn numbers_are_written_out() {
    for n in [0u64, 9, 10, 99, 12345, u64::MAX] {
        assert_eq!(format_u64(n), n.to_string());
        assert_eq!(format_base(n as u128, 16), format!("{n:x}"));
    }
    for n in [0i32, -1, 1, i32::MIN, i32::MAX] {
        assert_eq!(format_i32(n), n.to_string());
    }
    assert_eq!(format_hex_padded(0xabc, 8), "00000abc");
    assert_eq!(format_hex_padded(0x123456789, 8), "123456789");
}

#[test]
fn texts_are_cut_between_characters() {
    assert_eq!(truncate_chars("中中中", 2), "中中…");
    assert_eq!(truncate_chars("中中", 2), "中中");
    assert_eq!(
        format_dropped_arguments(DroppedToolCallReason::EmptyId, "xy"),
        "[tool call skipped: malformed (empty tool call id). arguments=xy. This call was not executed; re-issue with a valid id if still needed.]"
    );
    assert_eq!(DroppedToolCallReason::EmptyName.log_reason(), "empty_name");
    assert_eq!(DroppedToolCallReason::EmptyId.log_reason(), "empty_id");
}

// --- JSON ---

#[test]
fn json_is_read_and_written() {
    let v = json(r#" { "b" : [1, -2, 2.5, null, true], "a" : { "x": "y" } } "#);
    assert_eq!(v.to_text(), r#"{"a":{"x":"y"},"b":[1,-2,2.5,null,true]}"#);
    assert!(JsonValue::parse("{").is_none());
    assert!(JsonValue::parse("").is_none());
    assert_eq!(v.get("a").unwrap().get("x").unwrap().as_str(), Some("y"));
    let items = v.get("b").unwrap().as_array().unwrap();
    assert_eq!(items[0].as_u64(), Some(1));
    assert_eq!(items[1].as_u64(), None);
    assert_eq!(items[2].as_u64(), None);
    assert!(items[3].is_null());
    assert!(v.get("c").is_none());
    assert!(items[0].get("x").is_none());
    assert_eq!(v.clone().to_text(), v.to_text());
    assert_eq!(JsonValue::empty_object().to_text(), "{}");
    assert_eq!(JsonValue::string("a\"b").to_text(), r#""a\"b""#);
}

#[test]
fn json_objects_hold_the_last_of_each_key() {
    let mut o = JsonObject::new();
    o.set("k", json("1"));
    o.set("l", json("2"));
    o.set("k", json("3"));
    assert_eq!(o.get("k").unwrap().as_u64(), Some(3));
    assert_eq!(o.entries.len(), 2);
    let doubled = JsonObject {
        entries: vec![
            ("k".to_string(), json("1")),
            ("k".to_string(), json("2")),
        ],
    };
    assert_eq!(doubled.get("k").unwrap().as_u64(), Some(2));
    assert_eq!(JsonValue::Object(doubled).to_text(), r#"{"k":2}"#);
    assert_eq!(JsonValue::Object(o.without("k")).to_text(), r#"{"l":2}"#);
    assert_eq!(json(r#"{"a":1,"a":2}"#).to_text(), r#"{"a":2}"#);
}

#[test]
fn strict_schemas_are_stripped_at_any_depth() {
    let schema = json(
        r#"{"type":"object","additionalProperties":false,"properties":{"a":{"type":["null","array"],"items":[{"additionalProperties":{},"type":["string","integer","null"]}]}}}"#,
    );
    assert_eq!(
        sanitize_json_schema(&schema).to_text(),
        r#"{"properties":{"a":{"items":[{"type":["string","integer","null"]}],"type":"array"}},"type":"object"}"#
    );
    assert_eq!(
        sanitize_json_schema(&json("true")).to_text(),
        r#"{"properties":{"value":true},"required":["value"],"type":"object"}"#
    );
}

// --- ids ---

#[test]
fn ids_are_made_from_the_time() {
    assert_eq!(tool_id_at(0), "toolu_0_00000000");
    let millis: u128 = 1_700_000_000_123;
    let mixed = (millis as u32).wrapping_mul(2654435761);
    assert_eq!(tool_id_at(millis), format!("toolu_{millis:x}_{mixed:08x}"));
    let nanos: u128 = 1_700_000_000_123_456_789;
    let mixed = (nanos as u64).wrapping_mul(6364136223846793005);
    assert_eq!(call_id_at(nanos), format!("call_{mixed:016x}"));
    let mut generator = IdGenerator::new();
    let id = generate_tool_id(&mut generator);
    assert!(id.starts_with("toolu_1"));
    assert_eq!(id, tool_id_at(generator.last));
    assert!(generator.last > 1_700_000_000_000);
    assert_eq!(generate_call_id(&mut generator).len(), 21);
}

#[test]
fn generated_ids_never_repeat() {
    let mut tools = IdGenerator::new();
    let mut ids: Vec<String> = (0..200).map(|_| generate_tool_id(&mut tools)).collect();
    let mut calls = IdGenerator::new();
    ids.extend((0..200).map(|_| generate_call_id(&mut calls)));
    ids.extend(calls.next_ids(IdStyle::Call, 50));
    ids.extend(calls.next_ids(IdStyle::Call, 50));
    let mut unique = ids.clone();
    unique.sort();
    unique.dedup();
    assert_eq!(unique.len(), ids.len());
    // a clock that stands still or goes back
    assert_eq!(reading_after(7, 7), 8);
    assert_eq!(reading_after(3, 7), 8);
    assert_eq!(reading_after(9, 7), 9);
    assert_eq!(reading_after(9, LAST_READING), 9);
    let time = Timestamp { secs: 5, nanos: 7_000_001 };
    assert_eq!(reading_at(IdStyle::Tool, time), 5_007);
    assert_eq!(reading_at(IdStyle::Call, time), 5_007_000_001);
    assert_eq!(ids_from(IdStyle::Tool, 4, 2), vec![tool_id_at(4), tool_id_at(5)]);
}

#[test]
fn times_are_counted_in_nanoseconds() {
    assert_eq!(nanos_since_epoch(Timestamp { secs: 2, nanos: 5 }), 2_000_000_005);
    assert_eq!(nanos_since_epoch(Timestamp { secs: -1, nanos: 999_999_999 }), 0);
}

#[test]
fn one_id_is_made_for_each_call_without_one() {
    let call = |id: &str| ContentBlock::ToolUse {
        id: id.to_string(),
        name: "n".to_string(),
        input: json("{}"),
        extra: None,
    };
    let messages = vec![
        Message::new(Role::Assistant, vec![call(""), call("x"), call("")]),
        Message::new(Role::User, vec![call("")]),
    ];
    assert_eq!(
        ids_for(&messages, IdStyle::Tool, 9),
        vec![tool_id_at(9), tool_id_at(10), tool_id_at(11)]
    );
    let mut generator = IdGenerator::new();
    let ids = fresh_ids(&messages, IdStyle::Tool, &mut generator);
    assert_eq!(ids[2], tool_id_at(generator.last));
    assert_eq!(ids.len(), 3);
    assert!(ids.iter().all(|id| id.starts_with("toolu_")));
    assert!(fresh_ids(&messages[1..], IdStyle::Call, &mut generator)[0].starts_with("call_"));
}

// --- messages ---

#[test]
fn ids_made_together_differ() {
    assert_ne!(tool_id_at(5), tool_id_at(6));
    assert_ne!(call_id_at(5), call_id_at(6));
    assert_eq!(call_id_at(5), call_id_at(5 + (1u128 << 64)));
    let call = || ContentBlock::ToolUse {
        id: String::new(),
        name: "Read".to_string(),
        input: json("{}"),
        extra: None,
    };
    let messages = vec![
        Message::new(Role::Assistant, (0..40).map(|_| call()).collect()),
        Message::new(Role::Assistant, (0..40).map(|_| call()).collect()),
    ];
    for style in [IdStyle::Tool, IdStyle::Call] {
        let mut ids = fresh_ids(&messages, style, &mut IdGenerator::new());
        assert_eq!(ids.len(), 80);
        ids.sort();
        ids.dedup();
        assert_eq!(ids.len(), 80);
    }
}

#[test]
fn sanitizing_a_schema_again_changes_nothing() {
    let schema = json(
        r#"{"type":"object","properties":{"a":{"type":["string","null"],"additionalProperties":false},"b":{"type":["string","number"]}}}"#,
    );
    let once = sanitize_json_schema(&schema);
    assert_eq!(
        once.to_text(),
        r#"{"properties":{"a":{"type":"string"},"b":{"type":["string","number"]}},"type":"object"}"#
    );
    assert_eq!(sanitize_json_schema(&once).to_text(), once.to_text());
    // a list in a list loses one list at a time
    let nested = json(r#"{"type":"object","properties":{"a":{"type":[["string"]]}}}"#);
    let first = sanitize_json_schema(&nested);
    assert_eq!(first.to_text(), r#"{"properties":{"a":{"type":["string"]}},"type":"object"}"#);
    assert_eq!(
        sanitize_json_schema(&first).to_text(),
        r#"{"properties":{"a":{"type":"string"}},"type":"object"}"#
    );
}

#[test]
fn messages_are_stamped_on_demand() {
    let m = Message::new(Role::User, vec![]);
    assert!(m.timestamp.is_none());
    let m = Message::now(
        Role::User,
        vec![ContentBlock::Image { image_url: ImageUrl { url: "u".to_string() } }],
    );
    assert!(m.timestamp.unwrap().secs > 1_600_000_000);
    assert_eq!(m.clone().content.len(), 1);
    assert_eq!(TokenUsage::default().input_tokens, 0);
}
