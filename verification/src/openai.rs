//! Requests in the OpenAI chat format.

use vstd::hash_set::StringHashSet;
use vstd::prelude::*;

use crate::compat::{setting, ProviderCompat};
use crate::json::{json_text, json_views, JsonObject, JsonValue, JsonView};
use crate::llm::{tool_views, ToolDef, ToolDefView};
use crate::message::{
    block_views, copy_opt_json, message_views, opt_json, BlockView, ContentBlock, Message,
    MessageView, Role,
};
use crate::text::{
    concat2, copy_text, is_empty, join, joined, opt_view, views,
};
use crate::tool_call_sanitize::{dropped_line, format_dropped_tool_call};
use crate::tool_ids::{
    after_call, after_result, are_fresh, call_fate, calls_without_id, empty_ledger, fresh_ids,
    ids_needed, lemma_calls_without_id_prefix, lemma_ids_needed_prefix, result_fate, rules_of,
    tool_id_rules, CallFate, CallPlan, IdGenerator, IdStyle, LedgerView, ResultFate, ResultPlan,
    ToolIdLedger, ToolIdRules,
};
use crate::wire::{
    deferred_description, describe_deferred, empty_schema, schema_without_properties,
    strip_patterns_from_text, stripped_text,
};

verus! {

broadcast use vstd::string::group_string_axioms;

// ---------------------------------------------------------------------------
// Chat messages
// ---------------------------------------------------------------------------

#[derive(Debug, Clone, Copy, PartialEq, Eq, Structural)]
pub enum ChatRole {
    System,
    User,
    Assistant,
    Tool,
}

/// A tool call in an assistant message.
#[derive(Debug)]
pub struct ChatToolCall {
    pub id: String,
    pub name: String,
    pub arguments: String,
    pub extra: Option<JsonValue>,
}

/// A message in the chat format. An empty list of calls is not written.
#[derive(Debug)]
pub struct ChatMessage {
    pub role: ChatRole,
    pub content: Option<String>,
    pub reasoning_content: Option<String>,
    pub tool_calls: Vec<ChatToolCall>,
    pub tool_call_id: Option<String>,
}

#[verifier::ext_equal]
pub struct CallView {
    pub id: Seq<char>,
    pub name: Seq<char>,
    pub arguments: Seq<char>,
    pub extra: Option<JsonView>,
}

#[verifier::ext_equal]
pub struct ChatView {
    pub role: ChatRole,
    pub content: Option<Seq<char>>,
    pub reasoning_content: Option<Seq<char>>,
    pub tool_calls: Seq<CallView>,
    pub tool_call_id: Option<Seq<char>>,
}

impl ChatToolCall {
    pub open spec fn view(&self) -> CallView {
        CallView {
            id: self.id@,
            name: self.name@,
            arguments: self.arguments@,
            extra: opt_json(self.extra),
        }
    }
}

pub open spec fn call_views(calls: Seq<ChatToolCall>) -> Seq<CallView> {
    Seq::new(calls.len(), |i: int| calls[i]@)
}

impl ChatMessage {
    pub open spec fn view(&self) -> ChatView {
        ChatView {
            role: self.role,
            content: opt_view(self.content),
            reasoning_content: opt_view(self.reasoning_content),
            tool_calls: call_views(self.tool_calls@),
            tool_call_id: opt_view(self.tool_call_id),
        }
    }
}

pub open spec fn chat_views(messages: Seq<ChatMessage>) -> Seq<ChatView> {
    Seq::new(messages.len(), |i: int| messages[i]@)
}

// ---------------------------------------------------------------------------
// Model: from the conversation to chat messages
// ---------------------------------------------------------------------------

/// The texts among some blocks, in order.
pub open spec fn texts_of(blocks: Seq<BlockView>) -> Seq<Seq<char>>
    decreases blocks.len(),
{
    if blocks.len() == 0 {
        Seq::empty()
    } else {
        let rest = texts_of(blocks.drop_last());
        match blocks.last() {
            BlockView::Text { text } => rest.push(text),
            _ => rest,
        }
    }
}

/// The thoughts among some blocks, in order.
pub open spec fn thoughts_of(blocks: Seq<BlockView>) -> Seq<Seq<char>>
    decreases blocks.len(),
{
    if blocks.len() == 0 {
        Seq::empty()
    } else {
        let rest = thoughts_of(blocks.drop_last());
        match blocks.last() {
            BlockView::Thinking { thinking, .. } => rest.push(thinking),
            _ => rest,
        }
    }
}

/// Some block is a tool result.
pub open spec fn has_results(blocks: Seq<BlockView>) -> bool {
    exists|i: int| 0 <= i < blocks.len() && (#[trigger] blocks[i]) is ToolResult
}

/// Some assistant message holds a thought.
pub open spec fn has_thoughts(messages: Seq<MessageView>) -> bool {
    exists|i: int, j: int|
        0 <= i < messages.len() && 0 <= j < messages[i].content.len() && messages[i].role
            == Role::Assistant && (#[trigger] messages[i].content[j]) is Thinking
}

/// The messages so far, and what has gone out in them.
#[verifier::ext_equal]
pub struct ChatAcc {
    pub ledger: LedgerView,
    pub out: Seq<ChatView>,
}

pub open spec fn plain_message(role: ChatRole, content: Seq<char>) -> ChatView {
    ChatView {
        role,
        content: Some(content),
        reasoning_content: None,
        tool_calls: Seq::empty(),
        tool_call_id: None,
    }
}

pub open spec fn tool_message(id: Seq<char>, content: Seq<char>) -> ChatView {
    ChatView {
        role: ChatRole::Tool,
        content: Some(content),
        reasoning_content: None,
        tool_calls: Seq::empty(),
        tool_call_id: Some(id),
    }
}

/// The tool messages for the results among some blocks.
pub open spec fn with_results(acc: ChatAcc, rules: ToolIdRules, blocks: Seq<BlockView>) -> ChatAcc
    decreases blocks.len(),
{
    if blocks.len() == 0 {
        acc
    } else {
        let before = with_results(acc, rules, blocks.drop_last());
        match blocks.last() {
            BlockView::ToolResult { tool_use_id, content, .. } => ChatAcc {
                ledger: after_result(before.ledger, tool_use_id),
                out: match result_fate(before.ledger, rules, tool_use_id) {
                    ResultFate::Sent(id) => before.out.push(tool_message(id, content)),
                    _ => before.out,
                },
            },
            _ => before,
        }
    }
}

/// The calls of an assistant message, and the lines for those that do not go out.
#[verifier::ext_equal]
pub struct CallsAcc {
    pub ledger: LedgerView,
    pub calls: Seq<CallView>,
    pub lines: Seq<Seq<char>>,
}

pub open spec fn with_calls(
    ledger: LedgerView,
    rules: ToolIdRules,
    ids: Seq<Seq<char>>,
    blocks: Seq<BlockView>,
) -> CallsAcc
    decreases blocks.len(),
{
    if blocks.len() == 0 {
        CallsAcc { ledger, calls: Seq::empty(), lines: Seq::empty() }
    } else {
        let before = with_calls(ledger, rules, ids, blocks.drop_last());
        match blocks.last() {
            BlockView::ToolUse { id, name, input, extra } => {
                let ledger = after_call(before.ledger, rules, ids, id, name);
                match call_fate(before.ledger, rules, ids, id, name) {
                    CallFate::Dropped(reason) => CallsAcc {
                        ledger,
                        calls: before.calls,
                        lines: before.lines.push(dropped_line(reason, input)),
                    },
                    CallFate::Sent(sent) => CallsAcc {
                        ledger,
                        calls: before.calls.push(
                            CallView { id: sent, name, arguments: json_text(input), extra },
                        ),
                        lines: before.lines,
                    },
                }
            },
            _ => before,
        }
    }
}

/// The content of an assistant message: its text and the lines, where there are
/// any, and else an empty text unless there are calls.
pub open spec fn assistant_text(
    text: Seq<char>,
    lines: Seq<Seq<char>>,
    calls: Seq<CallView>,
) -> Option<Seq<char>> {
    let parts = if text.len() == 0 {
        lines
    } else {
        seq![text] + lines
    };
    let combined = join(parts, "\n\n"@);
    if combined.len() > 0 {
        Some(combined)
    } else if calls.len() == 0 {
        Some(Seq::empty())
    } else {
        None
    }
}

/// The messages so far and those for one more message of the conversation.
pub open spec fn with_message(
    acc: ChatAcc,
    compat: ProviderCompat,
    ids: Seq<Seq<char>>,
    thoughts: bool,
    msg: MessageView,
) -> ChatAcc {
    let rules = rules_of(compat);
    match msg.role {
        Role::User => if has_results(msg.content) {
            with_results(acc, rules, msg.content)
        } else {
            let text = stripped_text(join(texts_of(msg.content), "\n"@), compat);
            ChatAcc { out: acc.out.push(plain_message(ChatRole::User, text)), ..acc }
        },
        Role::Assistant => {
            let parts = with_calls(acc.ledger, rules, ids, msg.content);
            let text = stripped_text(join(texts_of(msg.content), ""@), compat);
            ChatAcc {
                ledger: parts.ledger,
                out: acc.out.push(
                    ChatView {
                        role: ChatRole::Assistant,
                        content: assistant_text(text, parts.lines, parts.calls),
                        reasoning_content: if thoughts {
                            Some(join(thoughts_of(msg.content), ""@))
                        } else {
                            None
                        },
                        tool_calls: parts.calls,
                        tool_call_id: None,
                    },
                ),
            }
        },
        Role::System => acc,
        Role::Tool => with_results(acc, rules, msg.content),
    }
}

pub open spec fn with_messages(
    acc: ChatAcc,
    compat: ProviderCompat,
    ids: Seq<Seq<char>>,
    thoughts: bool,
    messages: Seq<MessageView>,
) -> ChatAcc
    decreases messages.len(),
{
    if messages.len() == 0 {
        acc
    } else {
        with_message(
            with_messages(acc, compat, ids, thoughts, messages.drop_last()),
            compat,
            ids,
            thoughts,
            messages.last(),
        )
    }
}

/// The system prompt, where there is one.
pub open spec fn system_messages(system: Seq<char>) -> Seq<ChatView> {
    if system.len() == 0 {
        Seq::empty()
    } else {
        seq![plain_message(ChatRole::System, system)]
    }
}

/// The chat messages before any clean-up.
pub open spec fn projected(
    messages: Seq<MessageView>,
    system: Seq<char>,
    compat: ProviderCompat,
    ids: Seq<Seq<char>>,
) -> ChatAcc {
    with_messages(
        ChatAcc { ledger: empty_ledger(), out: system_messages(system) },
        compat,
        ids,
        has_thoughts(messages),
        messages,
    )
}

// ---------------------------------------------------------------------------
// Model: clean-up
// ---------------------------------------------------------------------------

/// The id that a tool message answers.
pub open spec fn answered_id(m: ChatView) -> Option<Seq<char>> {
    if m.role == ChatRole::Tool {
        m.tool_call_id
    } else {
        None
    }
}

/// A later tool message answers the same call.
pub open spec fn superseded(ms: Seq<ChatView>, i: int) -> bool {
    answered_id(ms[i]) is Some && exists|j: int|
        i < j < ms.len() && answered_id(#[trigger] ms[j]) == answered_id(ms[i])
}

/// Of the first `n` messages, those that no later one supersedes.
pub open spec fn latest(ms: Seq<ChatView>, n: nat) -> Seq<ChatView>
    decreases n,
{
    if n == 0 {
        Seq::empty()
    } else {
        let rest = latest(ms, (n - 1) as nat);
        if superseded(ms, n - 1) {
            rest
        } else {
            rest.push(ms[n - 1])
        }
    }
}

/// The messages with one tool message for each call, the last.
pub open spec fn deduplicated(ms: Seq<ChatView>) -> Seq<ChatView> {
    latest(ms, ms.len())
}

/// Some tool message answers this id.
pub open spec fn is_answered(ms: Seq<ChatView>, id: Seq<char>) -> bool {
    exists|j: int| 0 <= j < ms.len() && answered_id(#[trigger] ms[j]) == Some(id)
}

/// The calls that were answered, and where told so those without a name.
pub open spec fn answered_calls(
    ms: Seq<ChatView>,
    calls: Seq<CallView>,
    retain_unnamed: bool,
) -> Seq<CallView>
    decreases calls.len(),
{
    if calls.len() == 0 {
        Seq::empty()
    } else {
        let rest = answered_calls(ms, calls.drop_last(), retain_unnamed);
        let call = calls.last();
        if (retain_unnamed && call.name.len() == 0) || is_answered(ms, call.id) {
            rest.push(call)
        } else {
            rest
        }
    }
}

/// A message without its unanswered calls.
pub open spec fn without_orphans(ms: Seq<ChatView>, m: ChatView, retain_unnamed: bool) -> ChatView {
    if m.role == ChatRole::Assistant && m.tool_calls.len() > 0 {
        let kept = answered_calls(ms, m.tool_calls, retain_unnamed);
        ChatView {
            tool_calls: kept,
            content: if kept.len() == 0 && m.content is None {
                Some(Seq::empty())
            } else {
                m.content
            },
            ..m
        }
    } else {
        m
    }
}

pub open spec fn without_orphan_calls(ms: Seq<ChatView>, retain_unnamed: bool) -> Seq<ChatView> {
    Seq::new(ms.len(), |i: int| without_orphans(ms, ms[i], retain_unnamed))
}

/// One optional text after the other; the first where that is empty.
pub open spec fn merged_text(a: Option<Seq<char>>, b: Option<Seq<char>>) -> Option<Seq<char>> {
    let both = setting(a, Seq::empty()) + setting(b, Seq::empty());
    if both.len() > 0 {
        Some(both)
    } else {
        a
    }
}

/// Two assistant messages as one.
pub open spec fn combined(a: ChatView, b: ChatView) -> ChatView {
    ChatView {
        content: merged_text(a.content, b.content),
        reasoning_content: merged_text(a.reasoning_content, b.reasoning_content),
        tool_calls: a.tool_calls + b.tool_calls,
        ..a
    }
}

/// The messages with each run of assistant messages made one.
pub open spec fn assistants_merged(ms: Seq<ChatView>) -> Seq<ChatView>
    decreases ms.len(),
{
    if ms.len() == 0 {
        Seq::empty()
    } else {
        let rest = assistants_merged(ms.drop_last());
        let m = ms.last();
        if rest.len() > 0 && rest.last().role == ChatRole::Assistant && m.role
            == ChatRole::Assistant {
            rest.drop_last().push(combined(rest.last(), m))
        } else {
            rest.push(m)
        }
    }
}

/// The chat messages of a request.
pub open spec fn chat_messages(
    messages: Seq<MessageView>,
    system: Seq<char>,
    compat: ProviderCompat,
    ids: Seq<Seq<char>>,
) -> Seq<ChatView> {
    let all = projected(messages, system, compat, ids).out;
    let unique = if setting(compat.messages.dedup_tool_results, false) {
        deduplicated(all)
    } else {
        all
    };
    let answered = if setting(compat.tools.clean_orphan_tool_calls, false) {
        without_orphan_calls(unique, !rules_of(compat).sanitize)
    } else {
        unique
    };
    if setting(compat.messages.merge_assistant_messages, false) {
        assistants_merged(answered)
    } else {
        answered
    }
}

// ---------------------------------------------------------------------------
// Model: JSON
// ---------------------------------------------------------------------------

pub open spec fn role_name(role: ChatRole) -> Seq<char> {
    match role {
        ChatRole::System => "system"@,
        ChatRole::User => "user"@,
        ChatRole::Assistant => "assistant"@,
        ChatRole::Tool => "tool"@,
    }
}

pub open spec fn call_json(call: CallView) -> JsonView {
    let function = Map::<Seq<char>, JsonView>::empty().insert(
        "name"@,
        JsonView::String(call.name),
    ).insert("arguments"@, JsonView::String(call.arguments));
    let base = Map::<Seq<char>, JsonView>::empty().insert("id"@, JsonView::String(call.id)).insert(
        "type"@,
        JsonView::String("function"@),
    ).insert("function"@, JsonView::Object(function));
    match call.extra {
        Some(extra) => JsonView::Object(base.insert("extra_content"@, extra)),
        None => JsonView::Object(base),
    }
}

/// An object with one more member where there is a text for it.
pub open spec fn with_text(
    m: Map<Seq<char>, JsonView>,
    key: Seq<char>,
    text: Option<Seq<char>>,
) -> Map<Seq<char>, JsonView> {
    match text {
        Some(text) => m.insert(key, JsonView::String(text)),
        None => m,
    }
}

pub open spec fn chat_json(m: ChatView) -> JsonView {
    let base = Map::<Seq<char>, JsonView>::empty().insert(
        "role"@,
        JsonView::String(role_name(m.role)),
    );
    let texts = with_text(
        with_text(
            with_text(base, "reasoning_content"@, m.reasoning_content),
            "content"@,
            m.content,
        ),
        "tool_call_id"@,
        m.tool_call_id,
    );
    if m.tool_calls.len() == 0 {
        JsonView::Object(texts)
    } else {
        JsonView::Object(
            texts.insert(
                "tool_calls"@,
                JsonView::Array(m.tool_calls.map_values(|c: CallView| call_json(c))),
            ),
        )
    }
}

pub open spec fn tool_json(t: ToolDefView) -> JsonView {
    let function = Map::<Seq<char>, JsonView>::empty().insert(
        "name"@,
        JsonView::String(t.name),
    ).insert(
        "description"@,
        JsonView::String(
            if t.deferred {
                deferred_description(t.summary)
            } else {
                t.description
            },
        ),
    ).insert(
        "parameters"@,
        if t.deferred {
            empty_schema()
        } else {
            t.input_schema
        },
    );
    JsonView::Object(
        Map::<Seq<char>, JsonView>::empty().insert("type"@, JsonView::String("function"@)).insert(
            "function"@,
            JsonView::Object(function),
        ),
    )
}

// ---------------------------------------------------------------------------
// Executable: from the conversation to chat messages
// ---------------------------------------------------------------------------

fn collect_texts(blocks: &Vec<ContentBlock>) -> (r: Vec<String>)
    ensures
        views(r@) == texts_of(block_views(blocks@)),
{
    let mut r: Vec<String> = Vec::new();
    let ghost all = block_views(blocks@);
    assert(views(r@) =~= texts_of(all.take(0)));
    for i in 0..blocks.len()
        invariant
            all == block_views(blocks@),
            views(r@) == texts_of(all.take(i as int)),
    {
        assert(all.take(i + 1).drop_last() =~= all.take(i as int));
        if let ContentBlock::Text { text } = &blocks[i] {
            let ghost before = views(r@);
            r.push(text.clone());
            assert(views(r@) =~= before.push(text@));
        }
    }
    assert(all.take(all.len() as int) =~= all);
    r
}

fn collect_thoughts(blocks: &Vec<ContentBlock>) -> (r: Vec<String>)
    ensures
        views(r@) == thoughts_of(block_views(blocks@)),
{
    let mut r: Vec<String> = Vec::new();
    let ghost all = block_views(blocks@);
    assert(views(r@) =~= thoughts_of(all.take(0)));
    for i in 0..blocks.len()
        invariant
            all == block_views(blocks@),
            views(r@) == thoughts_of(all.take(i as int)),
    {
        assert(all.take(i + 1).drop_last() =~= all.take(i as int));
        if let ContentBlock::Thinking { thinking, .. } = &blocks[i] {
            let ghost before = views(r@);
            r.push(thinking.clone());
            assert(views(r@) =~= before.push(thinking@));
        }
    }
    assert(all.take(all.len() as int) =~= all);
    r
}

fn contains_results(blocks: &Vec<ContentBlock>) -> (r: bool)
    ensures
        r == has_results(block_views(blocks@)),
{
    for i in 0..blocks.len()
        invariant
            forall|j: int| 0 <= j < i ==> !((#[trigger] block_views(blocks@)[j]) is ToolResult),
    {
        if let ContentBlock::ToolResult { .. } = &blocks[i] {
            assert(block_views(blocks@)[i as int] is ToolResult);
            return true;
        }
    }
    false
}

fn contains_thoughts(messages: &[Message]) -> (r: bool)
    ensures
        r == has_thoughts(message_views(messages@)),
{
    let ghost all = message_views(messages@);
    for i in 0..messages.len()
        invariant
            all == message_views(messages@),
            forall|a: int, b: int|
                0 <= a < i && 0 <= b < all[a].content.len() && all[a].role == Role::Assistant ==> !((
                #[trigger] all[a].content[b]) is Thinking),
    {
        if messages[i].role == Role::Assistant {
            let blocks = &messages[i].content;
            for j in 0..blocks.len()
                invariant
                    all == message_views(messages@),
                    i < messages@.len(),
                    messages@[i as int].role == Role::Assistant,
                    *blocks == messages@[i as int].content,
                    forall|b: int|
                        0 <= b < j ==> !((#[trigger] all[i as int].content[b]) is Thinking),
            {
                if let ContentBlock::Thinking { .. } = &blocks[j] {
                    assert(all[i as int].content[j as int] is Thinking);
                    return true;
                }
            }
        }
    }
    false
}

fn message_of_text(role: ChatRole, content: String) -> (r: ChatMessage)
    ensures
        r@ == plain_message(role, content@),
{
    let r = ChatMessage {
        role,
        content: Some(content),
        reasoning_content: None,
        tool_calls: Vec::new(),
        tool_call_id: None,
    };
    assert(r@.tool_calls =~= Seq::empty());
    r
}

proof fn lemma_chat_push(out: Seq<ChatMessage>, m: ChatMessage)
    ensures
        chat_views(out.push(m)) == chat_views(out).push(m@),
{
    assert(chat_views(out.push(m)) =~= chat_views(out).push(m@));
}

/// Adds the tool messages for the results among some blocks.
fn push_results(
    ledger: &mut ToolIdLedger,
    out: &mut Vec<ChatMessage>,
    rules: ToolIdRules,
    blocks: &Vec<ContentBlock>,
)
    ensures
        ({
            let before = ChatAcc { ledger: old(ledger)@, out: chat_views(old(out)@) };
            let after = with_results(before, rules, block_views(blocks@));
            final(ledger)@ == after.ledger && chat_views(final(out)@) == after.out
        }),
{
    let ghost all = block_views(blocks@);
    let ghost start = ChatAcc { ledger: ledger@, out: chat_views(out@) };
    for i in 0..blocks.len()
        invariant
            all == block_views(blocks@),
            ledger@ == with_results(start, rules, all.take(i as int)).ledger,
            chat_views(out@) == with_results(start, rules, all.take(i as int)).out,
    {
        assert(all.take(i + 1).drop_last() =~= all.take(i as int));
        if let ContentBlock::ToolResult { tool_use_id, content, .. } = &blocks[i] {
            match ledger.result(rules, tool_use_id.as_str()) {
                ResultPlan::Sent(id) => {
                    let mut m = message_of_text(ChatRole::Tool, content.clone());
                    m.tool_call_id = Some(id);
                    proof {
                        lemma_chat_push(out@, m);
                    }
                    out.push(m);
                },
                ResultPlan::Dropped(_) => {},
                ResultPlan::Orphan => {},
            }
        }
    }
    assert(all.take(all.len() as int) =~= all);
}

/// The most generated ids that some blocks can have used.
proof fn lemma_calls_drawn(
    ledger: LedgerView,
    rules: ToolIdRules,
    ids: Seq<Seq<char>>,
    blocks: Seq<BlockView>,
)
    ensures
        with_calls(ledger, rules, ids, blocks).ledger.drawn <= ledger.drawn + calls_without_id(
            blocks,
        ),
    decreases blocks.len(),
{
    if blocks.len() > 0 {
        lemma_calls_drawn(ledger, rules, ids, blocks.drop_last());
    }
}

/// Collects the calls of an assistant message, and the lines for those that do
/// not go out.
fn collect_calls(
    ledger: &mut ToolIdLedger,
    rules: ToolIdRules,
    ids: &Vec<String>,
    blocks: &Vec<ContentBlock>,
) -> (r: (Vec<ChatToolCall>, Vec<String>))
    requires
        old(ledger).drawn + calls_without_id(block_views(blocks@)) <= ids@.len(),
    ensures
        ({
            let acc = with_calls(old(ledger)@, rules, views(ids@), block_views(blocks@));
            &&& final(ledger)@ == acc.ledger
            &&& call_views(r.0@) == acc.calls
            &&& views(r.1@) == acc.lines
        }),
{
    let mut calls: Vec<ChatToolCall> = Vec::new();
    let mut lines: Vec<String> = Vec::new();
    let ghost all = block_views(blocks@);
    let ghost start = ledger@;
    let ghost supply = views(ids@);
    assert(call_views(calls@) =~= Seq::empty());
    assert(views(lines@) =~= Seq::empty());
    for i in 0..blocks.len()
        invariant
            all == block_views(blocks@),
            supply == views(ids@),
            start.drawn + calls_without_id(all) <= ids@.len(),
            ledger@ == with_calls(start, rules, supply, all.take(i as int)).ledger,
            call_views(calls@) == with_calls(start, rules, supply, all.take(i as int)).calls,
            views(lines@) == with_calls(start, rules, supply, all.take(i as int)).lines,
    {
        proof {
            assert(all.take(i + 1).drop_last() =~= all.take(i as int));
            lemma_calls_drawn(start, rules, supply, all.take(i as int));
            lemma_calls_without_id_prefix(all, i + 1);
        }
        if let ContentBlock::ToolUse { id, name, input, extra } = &blocks[i] {
            match ledger.call(rules, ids, id.as_str(), name.as_str()) {
                CallPlan::Dropped(reason) => {
                    let ghost before = views(lines@);
                    let line = format_dropped_tool_call(reason, input);
                    lines.push(line);
                    assert(views(lines@) =~= before.push(line@));
                },
                CallPlan::Sent(sent) => {
                    let ghost before = call_views(calls@);
                    let call = ChatToolCall {
                        id: sent,
                        name: name.clone(),
                        arguments: input.to_text(),
                        extra: copy_opt_json(extra),
                    };
                    calls.push(call);
                    assert(call_views(calls@) =~= before.push(call@));
                },
            }
        }
    }
    assert(all.take(all.len() as int) =~= all);
    (calls, lines)
}

/// The content of an assistant message.
fn compose_content(text: String, lines: Vec<String>, calls: &Vec<ChatToolCall>) -> (r: Option<
    String,
>)
    ensures
        opt_view(r) == assistant_text(text@, views(lines@), call_views(calls@)),
{
    let mut parts: Vec<String> = Vec::new();
    let ghost text_view = text@;
    let ghost line_views = views(lines@);
    if !is_empty(text.as_str()) {
        parts.push(text);
    }
    let mut lines = lines;
    let ghost head = views(parts@);
    parts.append(&mut lines);
    assert(views(parts@) =~= head + line_views);
    assert(text_view.len() > 0 ==> head =~= seq![text_view]);
    assert(text_view.len() == 0 ==> head + line_views =~= line_views);
    let combined = joined(&parts, "\n\n");
    if !is_empty(combined.as_str()) {
        Some(combined)
    } else if calls.len() == 0 {
        let empty = String::new();
        assert(empty@ =~= Seq::empty());
        Some(empty)
    } else {
        None
    }
}

/// The most generated ids that some messages can have used.
proof fn lemma_messages_drawn(
    acc: ChatAcc,
    compat: ProviderCompat,
    ids: Seq<Seq<char>>,
    thoughts: bool,
    messages: Seq<MessageView>,
)
    ensures
        with_messages(acc, compat, ids, thoughts, messages).ledger.drawn <= acc.ledger.drawn
            + ids_needed(messages),
    decreases messages.len(),
{
    if messages.len() > 0 {
        lemma_messages_drawn(acc, compat, ids, thoughts, messages.drop_last());
        let before = with_messages(acc, compat, ids, thoughts, messages.drop_last());
        lemma_results_draw_nothing(before, rules_of(compat), messages.last().content);
        lemma_calls_drawn(before.ledger, rules_of(compat), ids, messages.last().content);
    }
}

proof fn lemma_results_draw_nothing(acc: ChatAcc, rules: ToolIdRules, blocks: Seq<BlockView>)
    ensures
        with_results(acc, rules, blocks).ledger.drawn == acc.ledger.drawn,
    decreases blocks.len(),
{
    if blocks.len() > 0 {
        lemma_results_draw_nothing(acc, rules, blocks.drop_last());
    }
}

/// Adds the chat messages for one message of the conversation.
fn push_message(
    ledger: &mut ToolIdLedger,
    out: &mut Vec<ChatMessage>,
    compat: &ProviderCompat,
    ids: &Vec<String>,
    thoughts: bool,
    msg: &Message,
)
    requires
        old(ledger).drawn + calls_without_id(msg@.content) <= ids@.len(),
    ensures
        ({
            let before = ChatAcc { ledger: old(ledger)@, out: chat_views(old(out)@) };
            let after = with_message(before, *compat, views(ids@), thoughts, msg@);
            final(ledger)@ == after.ledger && chat_views(final(out)@) == after.out
        }),
{
    let rules = tool_id_rules(compat);
    match msg.role {
        Role::User => {
            if contains_results(&msg.content) {
                push_results(ledger, out, rules, &msg.content);
            } else {
                let text = joined(&collect_texts(&msg.content), "\n");
                let text = strip_patterns_from_text(text.as_str(), compat);
                let m = message_of_text(ChatRole::User, text);
                proof {
                    lemma_chat_push(out@, m);
                }
                out.push(m);
            }
        },
        Role::Assistant => {
            let reasoning_content = if thoughts {
                Some(joined(&collect_thoughts(&msg.content), ""))
            } else {
                None
            };
            let text = joined(&collect_texts(&msg.content), "");
            let text = strip_patterns_from_text(text.as_str(), compat);
            let (tool_calls, lines) = collect_calls(ledger, rules, ids, &msg.content);
            let content = compose_content(text, lines, &tool_calls);
            let m = ChatMessage {
                role: ChatRole::Assistant,
                content,
                reasoning_content,
                tool_calls,
                tool_call_id: None,
            };
            proof {
                lemma_chat_push(out@, m);
            }
            out.push(m);
        },
        Role::System => {},
        Role::Tool => {
            push_results(ledger, out, rules, &msg.content);
        },
    }
}

/// The chat messages before any clean-up.
fn project_messages(
    messages: &[Message],
    system: &str,
    compat: &ProviderCompat,
    ids: &Vec<String>,
) -> (r: Vec<ChatMessage>)
    requires
        ids_needed(message_views(messages@)) <= ids@.len(),
    ensures
        chat_views(r@) == projected(
            message_views(messages@),
            system@,
            *compat,
            views(ids@),
        ).out,
{
    let mut out: Vec<ChatMessage> = Vec::new();
    let ghost all = message_views(messages@);
    let ghost supply = views(ids@);
    let thoughts = contains_thoughts(messages);
    if !is_empty(system) {
        out.push(message_of_text(ChatRole::System, copy_text(system)));
    }
    assert(chat_views(out@) =~= system_messages(system@));
    let mut ledger = ToolIdLedger::new();
    let ghost start = ChatAcc { ledger: ledger@, out: chat_views(out@) };
    for i in 0..messages.len()
        invariant
            all == message_views(messages@),
            supply == views(ids@),
            start.ledger.drawn == 0,
            ids_needed(all) <= ids@.len(),
            ledger@ == with_messages(start, *compat, supply, thoughts, all.take(i as int)).ledger,
            chat_views(out@) == with_messages(
                start,
                *compat,
                supply,
                thoughts,
                all.take(i as int),
            ).out,
    {
        proof {
            assert(all.take(i + 1).drop_last() =~= all.take(i as int));
            lemma_messages_drawn(start, *compat, supply, thoughts, all.take(i as int));
            lemma_ids_needed_prefix(all, i + 1);
        }
        push_message(&mut ledger, &mut out, compat, ids, thoughts, &messages[i]);
    }
    assert(all.take(all.len() as int) =~= all);
    out
}

// ---------------------------------------------------------------------------
// Executable: clean-up
// ---------------------------------------------------------------------------

/// Deduplicate tool results: keep last occurrence of each tool_call_id
pub fn dedup_tool_results(messages: Vec<ChatMessage>) -> (r: Vec<ChatMessage>)
    ensures
        chat_views(r@) == deduplicated(chat_views(messages@)),
{
    let ghost all = chat_views(messages@);
    let n: usize = messages.len();
    // Walk backwards: a tool message whose id was seen already is superseded.
    let mut seen = StringHashSet::new();
    let mut drop_flags: Vec<bool> = Vec::new();
    let mut i: usize = n;
    while i > 0
        invariant
            i <= n == messages@.len(),
            all == chat_views(messages@),
            drop_flags@.len() == n - i,
            forall|k: int| 0 <= k < n - i ==> drop_flags@[k] == superseded(all, n - 1 - k),
            forall|id: Seq<char>| #[trigger]
                seen@.contains(id) <==> exists|j: int|
                    i <= j < n && answered_id(#[trigger] all[j]) == Some(id),
        decreases i,
    {
        i -= 1;
        let mut is_superseded = false;
        let ghost before = seen@;
        if messages[i].role == ChatRole::Tool {
            if let Some(id) = &messages[i].tool_call_id {
                assert(answered_id(all[i as int]) == Some(id@));
                is_superseded = seen.contains(id.as_str());
                assert(is_superseded == superseded(all, i as int));
                seen.insert(id.clone());
            }
        }
        assert(is_superseded == superseded(all, i as int));
        assert forall|id: Seq<char>| #[trigger] seen@.contains(id) <==> exists|j: int|
            i <= j < n && answered_id(#[trigger] all[j]) == Some(id) by {
            if seen@.contains(id) {
                if before.contains(id) {
                    let j = choose|j: int|
                        i + 1 <= j < n && answered_id(#[trigger] all[j]) == Some(id);
                    assert(answered_id(all[j]) == Some(id));
                } else {
                    assert(answered_id(all[i as int]) == Some(id));
                }
            }
            if exists|j: int| i <= j < n && answered_id(#[trigger] all[j]) == Some(id) {
                let j = choose|j: int| i <= j < n && answered_id(#[trigger] all[j]) == Some(id);
                if j != i {
                    assert(before.contains(id));
                }
            }
        }
        drop_flags.push(is_superseded);
        assert forall|k: int| 0 <= k < n - i implies drop_flags@[k] == superseded(all, n - 1 - k) by {
            if k == n - i - 1 {
                assert(n - 1 - k == i);
            }
        }
    }
    let mut out: Vec<ChatMessage> = Vec::new();
    assert(chat_views(out@) =~= latest(all, 0));
    for m in it: messages
        invariant
            it.seq() == messages@,
            n == messages@.len(),
            all == chat_views(messages@),
            drop_flags@.len() == n - it.index(),
            forall|k: int|
                0 <= k < drop_flags@.len() ==> drop_flags@[k] == superseded(all, n - 1 - k),
            chat_views(out@) == latest(all, it.index() as nat),
    {
        assert(m@ == all[it.index() as int]);
        let is_superseded = drop_flags.pop().unwrap();
        assert(is_superseded == superseded(all, it.index() as int));
        if !is_superseded {
            proof {
                lemma_chat_push(out@, m);
            }
            out.push(m);
        }
    }
    out
}

/// The ids that tool messages answer.
fn answered_ids(messages: &Vec<ChatMessage>) -> (r: StringHashSet)
    ensures
        forall|id: Seq<char>| #[trigger]
            r@.contains(id) <==> is_answered(chat_views(messages@), id),
{
    let mut r = StringHashSet::new();
    let ghost all = chat_views(messages@);
    for i in 0..messages.len()
        invariant
            all == chat_views(messages@),
            forall|id: Seq<char>| #[trigger]
                r@.contains(id) <==> exists|j: int|
                    0 <= j < i && answered_id(#[trigger] all[j]) == Some(id),
    {
        let ghost before = r@;
        if messages[i].role == ChatRole::Tool {
            if let Some(id) = &messages[i].tool_call_id {
                assert(answered_id(all[i as int]) == Some(id@));
                r.insert(id.clone());
            }
        }
        assert forall|id: Seq<char>| #[trigger] r@.contains(id) <==> exists|j: int|
            0 <= j < i + 1 && answered_id(#[trigger] all[j]) == Some(id) by {
            if r@.contains(id) {
                if before.contains(id) {
                    let j = choose|j: int| 0 <= j < i && answered_id(#[trigger] all[j]) == Some(id);
                    assert(answered_id(all[j]) == Some(id));
                } else {
                    assert(answered_id(all[i as int]) == Some(id));
                }
            }
            if exists|j: int| 0 <= j < i + 1 && answered_id(#[trigger] all[j]) == Some(id) {
                let j = choose|j: int| 0 <= j < i + 1 && answered_id(#[trigger] all[j]) == Some(id);
                if j != i {
                    assert(before.contains(id));
                }
            }
        }
    }
    r
}

/// The calls that were answered, and where told so those without a name.
fn retain_answered(
    calls: Vec<ChatToolCall>,
    answered: &StringHashSet,
    retain_unnamed: bool,
    Ghost(ms): Ghost<Seq<ChatView>>,
) -> (r: Vec<ChatToolCall>)
    requires
        forall|id: Seq<char>| #[trigger] answered@.contains(id) <==> is_answered(ms, id),
    ensures
        call_views(r@) == answered_calls(ms, call_views(calls@), retain_unnamed),
{
    let ghost all = call_views(calls@);
    let mut out: Vec<ChatToolCall> = Vec::new();
    assert(call_views(out@) =~= answered_calls(ms, all.take(0), retain_unnamed));
    for call in it: calls
        invariant
            it.seq() == calls@,
            all == call_views(calls@),
            forall|id: Seq<char>| #[trigger] answered@.contains(id) <==> is_answered(ms, id),
            call_views(out@) == answered_calls(ms, all.take(it.index() as int), retain_unnamed),
    {
        let ghost k = it.index() as int;
        assert(all.take(k + 1).drop_last() =~= all.take(k));
        assert(all.take(k + 1).last() == call@);
        if (retain_unnamed && is_empty(call.name.as_str())) || answered.contains(
            call.id.as_str(),
        ) {
            let ghost before = call_views(out@);
            out.push(call);
            assert(call_views(out@) =~= before.push(call@));
        }
    }
    assert(all.take(all.len() as int) =~= all);
    out
}

/// Remove tool_call entries from assistant messages that have no corresponding tool result
pub fn clean_orphaned_tool_calls(
    messages: Vec<ChatMessage>,
    retain_empty_name_tool_calls: bool,
) -> (r: Vec<ChatMessage>)
    ensures
        chat_views(r@) == without_orphan_calls(
            chat_views(messages@),
            retain_empty_name_tool_calls,
        ),
{
    let ghost all = chat_views(messages@);
    let answered = answered_ids(&messages);
    let mut out: Vec<ChatMessage> = Vec::new();
    for m in it: messages
        invariant
            it.seq() == messages@,
            all == chat_views(messages@),
            forall|id: Seq<char>| #[trigger] answered@.contains(id) <==> is_answered(all, id),
            out@.len() == it.index(),
            forall|j: int|
                0 <= j < out@.len() ==> (#[trigger] out@[j])@ == without_orphans(
                    all,
                    all[j],
                    retain_empty_name_tool_calls,
                ),
    {
        let ghost was = m@;
        assert(was == all[it.index() as int]);
        let mut m = m;
        if m.role == ChatRole::Assistant && m.tool_calls.len() > 0 {
            let kept = retain_answered(
                m.tool_calls,
                &answered,
                retain_empty_name_tool_calls,
                Ghost(all),
            );
            if kept.len() == 0 && m.content.is_none() {
                let empty = String::new();
                assert(empty@ =~= Seq::empty());
                m.content = Some(empty);
            }
            m.tool_calls = kept;
        }
        assert(m@ == without_orphans(all, was, retain_empty_name_tool_calls));
        out.push(m);
    }
    assert(chat_views(out@) =~= without_orphan_calls(all, retain_empty_name_tool_calls));
    out
}

/// One optional text after the other; the first where that is empty.
fn merge_text(a: Option<String>, b: &Option<String>) -> (r: Option<String>)
    ensures
        opt_view(r) == merged_text(opt_view(a), opt_view(*b)),
{
    match b {
        None => {
            assert(setting(opt_view(a), Seq::empty()) + Seq::empty() =~= setting(
                opt_view(a),
                Seq::empty(),
            ));
            a
        },
        Some(b) => {
            let both = match &a {
                Some(a) => concat2(a.as_str(), b.as_str()),
                None => {
                    assert(Seq::empty() + b@ =~= b@);
                    b.clone()
                },
            };
            if is_empty(both.as_str()) {
                a
            } else {
                Some(both)
            }
        },
    }
}

/// Two assistant messages as one.
fn combine(a: ChatMessage, b: ChatMessage) -> (r: ChatMessage)
    ensures
        r@ == combined(a@, b@),
{
    let content = merge_text(a.content, &b.content);
    let reasoning_content = merge_text(a.reasoning_content, &b.reasoning_content);
    let mut tool_calls = a.tool_calls;
    let mut more = b.tool_calls;
    let ghost head = call_views(tool_calls@);
    let ghost tail = call_views(more@);
    tool_calls.append(&mut more);
    assert(call_views(tool_calls@) =~= head + tail);
    ChatMessage {
        role: a.role,
        content,
        reasoning_content,
        tool_calls,
        tool_call_id: a.tool_call_id,
    }
}

/// Merge consecutive assistant messages into one
pub fn merge_consecutive_assistant(messages: Vec<ChatMessage>) -> (r: Vec<ChatMessage>)
    ensures
        chat_views(r@) == assistants_merged(chat_views(messages@)),
{
    let ghost all = chat_views(messages@);
    let mut out: Vec<ChatMessage> = Vec::new();
    assert(chat_views(out@) =~= assistants_merged(all.take(0)));
    for m in it: messages
        invariant
            it.seq() == messages@,
            all == chat_views(messages@),
            chat_views(out@) == assistants_merged(all.take(it.index() as int)),
    {
        let ghost k = it.index() as int;
        assert(all.take(k + 1).drop_last() =~= all.take(k));
        assert(all.take(k + 1).last() == m@);
        let n: usize = out.len();
        if m.role == ChatRole::Assistant && n > 0 && out[n - 1].role == ChatRole::Assistant {
            let ghost before = chat_views(out@);
            let last = out.pop().unwrap();
            assert(before.last() == last@);
            assert(chat_views(out@) =~= before.drop_last());
            let both = combine(last, m);
            proof {
                lemma_chat_push(out@, both);
            }
            out.push(both);
        } else {
            assert(n > 0 ==> chat_views(out@).last() == out@[n - 1]@);
            proof {
                lemma_chat_push(out@, m);
            }
            out.push(m);
        }
    }
    assert(all.take(all.len() as int) =~= all);
    out
}

// ---------------------------------------------------------------------------
// Executable: JSON
// ---------------------------------------------------------------------------

fn call_to_json(call: &ChatToolCall) -> (r: JsonValue)
    ensures
        r@ == call_json(call@),
{
    let function = JsonObject::new().with("name", JsonValue::string(call.name.as_str())).with(
        "arguments",
        JsonValue::string(call.arguments.as_str()),
    );
    let base = JsonObject::new().with("id", JsonValue::string(call.id.as_str())).with(
        "type",
        JsonValue::string("function"),
    ).with("function", JsonValue::Object(function));
    match &call.extra {
        Some(extra) => JsonValue::Object(base.with("extra_content", extra.clone())),
        None => JsonValue::Object(base),
    }
}

fn add_text(o: JsonObject, key: &str, text: &Option<String>) -> (r: JsonObject)
    ensures
        r@ == with_text(o@, key@, opt_view(*text)),
{
    match text {
        Some(text) => o.with(key, JsonValue::string(text.as_str())),
        None => o,
    }
}

fn role_str(role: ChatRole) -> (r: &'static str)
    ensures
        r@ == role_name(role),
{
    match role {
        ChatRole::System => "system",
        ChatRole::User => "user",
        ChatRole::Assistant => "assistant",
        ChatRole::Tool => "tool",
    }
}

impl ChatMessage {
    pub fn to_json(&self) -> (r: JsonValue)
        ensures
            r@ == chat_json(self@),
    {
        let base = JsonObject::new().with("role", JsonValue::string(role_str(self.role)));
        let base = add_text(base, "reasoning_content", &self.reasoning_content);
        let base = add_text(base, "content", &self.content);
        let base = add_text(base, "tool_call_id", &self.tool_call_id);
        if self.tool_calls.len() == 0 {
            JsonValue::Object(base)
        } else {
            let mut calls: Vec<JsonValue> = Vec::new();
            for i in 0..self.tool_calls.len()
                invariant
                    calls@.len() == i,
                    forall|j: int| 0 <= j < i ==> calls@[j]@ == call_json(self.tool_calls@[j]@),
            {
                calls.push(call_to_json(&self.tool_calls[i]));
            }
            let calls = JsonValue::Array(calls);
            assert(calls@->Array_0 =~= self@.tool_calls.map_values(|c: CallView| call_json(c)));
            JsonValue::Object(base.with("tool_calls", calls))
        }
    }
}

// ---------------------------------------------------------------------------
// Provider
// ---------------------------------------------------------------------------

/// An OpenAI-compatible provider.
#[derive(Debug)]
pub struct OpenAIProvider {
    pub api_key: String,
    pub base_url: String,
    pub compat: ProviderCompat,
}

impl OpenAIProvider {
    pub fn new(api_key: &str, base_url: &str, compat: ProviderCompat) -> (r: Self)
        ensures
            r.api_key@ == api_key@,
            r.base_url@ == base_url@,
            r.compat == compat,
    {
        Self { api_key: copy_text(api_key), base_url: copy_text(base_url), compat }
    }

    /// The messages of a request, with `ids` the ids to give to calls without one.
    pub fn build_messages_with_ids(
        messages: &[Message],
        system: &str,
        compat: &ProviderCompat,
        ids: &Vec<String>,
    ) -> (r: Vec<JsonValue>)
        requires
            ids_needed(message_views(messages@)) <= ids@.len(),
        ensures
            json_views(r@) == chat_messages(
                message_views(messages@),
                system@,
                *compat,
                views(ids@),
            ).map_values(|m: ChatView| chat_json(m)),
    {
        let mut chat = project_messages(messages, system, compat, ids);
        if compat.dedup_tool_results() {
            chat = dedup_tool_results(chat);
        }
        if compat.clean_orphan_tool_calls() {
            chat = clean_orphaned_tool_calls(chat, !compat.sanitize_malformed_tool_calls());
        }
        if compat.merge_assistant_messages() {
            chat = merge_consecutive_assistant(chat);
        }
        let ghost model = chat_messages(message_views(messages@), system@, *compat, views(ids@));
        let mut r: Vec<JsonValue> = Vec::new();
        for i in 0..chat.len()
            invariant
                model == chat_views(chat@),
                r@.len() == i,
                forall|j: int| 0 <= j < i ==> r@[j]@ == chat_json(model[j]),
        {
            r.push(chat[i].to_json());
        }
        assert(json_views(r@) =~= model.map_values(|m: ChatView| chat_json(m)));
        r
    }

    /// The messages of a request. Calls without an id get generated ones.
    pub fn build_messages(messages: &[Message], system: &str, compat: &ProviderCompat) -> (r: Vec<
        JsonValue,
    >)
        ensures
            exists|ids: Seq<Seq<char>>|
                {
                    &&& are_fresh(IdStyle::Call, ids, ids_needed(message_views(messages@)))
                    &&& json_views(r@) == (#[trigger] chat_messages(
                        message_views(messages@),
                        system@,
                        *compat,
                        ids,
                    )).map_values(|m: ChatView| chat_json(m))
                },
    {
        let mut generator = IdGenerator::new();
        let ids = fresh_ids(messages, IdStyle::Call, &mut generator);
        assert(views(ids@).len() == ids@.len());
        let r = Self::build_messages_with_ids(messages, system, compat, &ids);
        assert(are_fresh(IdStyle::Call, views(ids@), ids_needed(message_views(messages@))));
        r
    }

    /// The tools of a request. A deferred tool has a short description and an
    /// empty schema.
    pub fn build_tools(tools: &[ToolDef]) -> (r: Vec<JsonValue>)
        ensures
            json_views(r@) == tool_views(tools@).map_values(|t: ToolDefView| tool_json(t)),
    {
        let mut r: Vec<JsonValue> = Vec::new();
        for i in 0..tools.len()
            invariant
                r@.len() == i,
                forall|j: int| 0 <= j < i ==> r@[j]@ == tool_json(tools@[j]@),
        {
            r.push(tool_to_json(&tools[i]));
        }
        assert(json_views(r@) =~= tool_views(tools@).map_values(|t: ToolDefView| tool_json(t)));
        r
    }
}

fn tool_to_json(t: &ToolDef) -> (r: JsonValue)
    ensures
        r@ == tool_json(t@),
{
    let description = if t.deferred {
        describe_deferred(t.summary.as_str())
    } else {
        t.description.clone()
    };
    let parameters = if t.deferred {
        schema_without_properties()
    } else {
        t.input_schema.clone()
    };
    let function = JsonObject::new().with("name", JsonValue::string(t.name.as_str())).with(
        "description",
        JsonValue::String(description),
    ).with("parameters", parameters);
    JsonValue::Object(
        JsonObject::new().with("type", JsonValue::string("function")).with(
            "function",
            JsonValue::Object(function),
        ),
    )
}

} // verus!
