//! Requests in the Anthropic messages format.
//! Used by the Anthropic, Bedrock and Vertex providers.

use vstd::prelude::*;

use crate::compat::{setting, ProviderCompat};
use crate::json::{json_views, JsonObject, JsonValue, JsonView};
use crate::llm::{tool_views, ToolDef, ToolDefView};
use crate::message::{
    block_views, message_views, BlockView, ContentBlock, Message, MessageView, Role,
};
use crate::text::{copy_opt, copy_text, opt_view, views};
use crate::tool_call_sanitize::{dropped_line, format_dropped_tool_call};
use crate::tool_ids::{
    after_call, after_result, are_fresh, call_fate, calls_without_id, empty_ledger, fresh_ids,
    ids_needed, lemma_calls_without_id_prefix, lemma_ids_needed_prefix, result_fate, rules_of,
    tool_id_rules, CallFate, CallPlan, IdGenerator, IdStyle, LedgerView, ResultFate, ResultPlan,
    ToolIdLedger,
};
use crate::wire::{
    deferred_description, describe_deferred, empty_schema, schema_without_properties,
    strip_patterns_from_text, stripped_text,
};

pub use crate::anthropic_stream::{parse_sse_data, StreamState};
pub use crate::sse::StreamOutcome;

verus! {

broadcast use vstd::string::group_string_axioms;

// ---------------------------------------------------------------------------
// Wire messages
// ---------------------------------------------------------------------------

#[derive(Debug, Clone, Copy, PartialEq, Eq, Structural)]
pub enum WireRole {
    User,
    Assistant,
}

/// A content block on the wire.
#[derive(Debug)]
pub enum WireBlock {
    Text { text: String },
    ToolUse { id: String, name: String, input: JsonValue },
    ToolResult { tool_use_id: String, content: String, is_error: bool },
    Thinking { thinking: String, signature: Option<String> },
}

/// A message on the wire.
#[derive(Debug)]
pub struct WireMessage {
    pub role: WireRole,
    pub content: Vec<WireBlock>,
}

#[verifier::ext_equal]
pub enum WireBlockView {
    Text { text: Seq<char> },
    ToolUse { id: Seq<char>, name: Seq<char>, input: JsonView },
    ToolResult { tool_use_id: Seq<char>, content: Seq<char>, is_error: bool },
    Thinking { thinking: Seq<char>, signature: Option<Seq<char>> },
}

#[verifier::ext_equal]
pub struct WireMessageView {
    pub role: WireRole,
    pub content: Seq<WireBlockView>,
}

impl WireBlock {
    pub open spec fn view(&self) -> WireBlockView {
        match self {
            WireBlock::Text { text } => WireBlockView::Text { text: text@ },
            WireBlock::ToolUse { id, name, input } => WireBlockView::ToolUse {
                id: id@,
                name: name@,
                input: input@,
            },
            WireBlock::ToolResult { tool_use_id, content, is_error } => WireBlockView::ToolResult {
                tool_use_id: tool_use_id@,
                content: content@,
                is_error: *is_error,
            },
            WireBlock::Thinking { thinking, signature } => WireBlockView::Thinking {
                thinking: thinking@,
                signature: opt_view(*signature),
            },
        }
    }
}

pub open spec fn wire_block_views(blocks: Seq<WireBlock>) -> Seq<WireBlockView> {
    Seq::new(blocks.len(), |i: int| blocks[i]@)
}

impl WireMessage {
    pub open spec fn view(&self) -> WireMessageView {
        WireMessageView { role: self.role, content: wire_block_views(self.content@) }
    }
}

pub open spec fn wire_views(messages: Seq<WireMessage>) -> Seq<WireMessageView> {
    Seq::new(messages.len(), |i: int| messages[i]@)
}

// ---------------------------------------------------------------------------
// Model: from the conversation to wire messages
// ---------------------------------------------------------------------------

/// The role under which a message goes out; system messages do not.
pub open spec fn wire_role(role: Role) -> Option<WireRole> {
    match role {
        Role::User | Role::Tool => Some(WireRole::User),
        Role::Assistant => Some(WireRole::Assistant),
        Role::System => None,
    }
}

/// The content of a message so far, what has gone out, and the text for a
/// message of which nothing is left.
#[verifier::ext_equal]
pub struct ContentAcc {
    pub ledger: LedgerView,
    pub content: Seq<WireBlockView>,
    pub placeholder: Option<Seq<char>>,
}

pub open spec fn orphan_placeholder() -> Seq<char> {
    "[tool call skipped: malformed (orphan tool result).]"@
}

/// The first placeholder counts.
pub open spec fn or_placeholder(first: Option<Seq<char>>, text: Seq<char>) -> Option<Seq<char>> {
    Some(setting(first, text))
}

/// The content with one more block. Images do not go out.
pub open spec fn with_block(
    acc: ContentAcc,
    compat: ProviderCompat,
    ids: Seq<Seq<char>>,
    block: BlockView,
) -> ContentAcc {
    let rules = rules_of(compat);
    match block {
        BlockView::Text { text } => ContentAcc {
            content: acc.content.push(WireBlockView::Text { text: stripped_text(text, compat) }),
            ..acc
        },
        BlockView::Image { .. } => acc,
        BlockView::ToolUse { id, name, input, .. } => ContentAcc {
            ledger: after_call(acc.ledger, rules, ids, id, name),
            content: acc.content.push(
                match call_fate(acc.ledger, rules, ids, id, name) {
                    CallFate::Dropped(reason) => WireBlockView::Text {
                        text: dropped_line(reason, input),
                    },
                    CallFate::Sent(sent) => WireBlockView::ToolUse { id: sent, name, input },
                },
            ),
            ..acc
        },
        BlockView::ToolResult { tool_use_id, content, is_error } => {
            let ledger = after_result(acc.ledger, tool_use_id);
            match result_fate(acc.ledger, rules, tool_use_id) {
                ResultFate::Dropped(reason) => ContentAcc {
                    ledger,
                    placeholder: or_placeholder(acc.placeholder, reason.placeholder_text()),
                    ..acc
                },
                ResultFate::Orphan => ContentAcc {
                    ledger,
                    placeholder: or_placeholder(acc.placeholder, orphan_placeholder()),
                    ..acc
                },
                ResultFate::Sent(id) => ContentAcc {
                    ledger,
                    content: acc.content.push(
                        WireBlockView::ToolResult { tool_use_id: id, content, is_error },
                    ),
                    ..acc
                },
            }
        },
        BlockView::Thinking { thinking, signature } => ContentAcc {
            content: acc.content.push(WireBlockView::Thinking { thinking, signature }),
            ..acc
        },
    }
}

pub open spec fn with_blocks(
    ledger: LedgerView,
    compat: ProviderCompat,
    ids: Seq<Seq<char>>,
    blocks: Seq<BlockView>,
) -> ContentAcc
    decreases blocks.len(),
{
    if blocks.len() == 0 {
        ContentAcc { ledger, content: Seq::empty(), placeholder: None }
    } else {
        with_block(
            with_blocks(ledger, compat, ids, blocks.drop_last()),
            compat,
            ids,
            blocks.last(),
        )
    }
}

/// The content, or the placeholder where there is one and the content is empty.
pub open spec fn or_text(content: Seq<WireBlockView>, placeholder: Option<Seq<char>>) -> Seq<
    WireBlockView,
> {
    match placeholder {
        Some(text) => if content.len() == 0 {
            seq![WireBlockView::Text { text }]
        } else {
            content
        },
        None => content,
    }
}

/// The messages so far, and what has gone out in them.
#[verifier::ext_equal]
pub struct WireAcc {
    pub ledger: LedgerView,
    pub out: Seq<WireMessageView>,
}

/// The messages with one more, joined to the last where told so and it has the
/// same role.
pub open spec fn with_wire_message(
    out: Seq<WireMessageView>,
    merge: bool,
    m: WireMessageView,
) -> Seq<WireMessageView> {
    if merge && out.len() > 0 && out.last().role == m.role {
        out.drop_last().push(
            WireMessageView { role: m.role, content: out.last().content + m.content },
        )
    } else {
        out.push(m)
    }
}

pub open spec fn with_message(
    acc: WireAcc,
    compat: ProviderCompat,
    ids: Seq<Seq<char>>,
    msg: MessageView,
) -> WireAcc {
    match wire_role(msg.role) {
        None => acc,
        Some(role) => {
            let parts = with_blocks(acc.ledger, compat, ids, msg.content);
            WireAcc {
                ledger: parts.ledger,
                out: with_wire_message(
                    acc.out,
                    setting(compat.messages.merge_same_role, false),
                    WireMessageView { role, content: or_text(parts.content, parts.placeholder) },
                ),
            }
        },
    }
}

pub open spec fn with_messages(
    compat: ProviderCompat,
    ids: Seq<Seq<char>>,
    messages: Seq<MessageView>,
) -> WireAcc
    decreases messages.len(),
{
    if messages.len() == 0 {
        WireAcc { ledger: empty_ledger(), out: Seq::empty() }
    } else {
        with_message(
            with_messages(compat, ids, messages.drop_last()),
            compat,
            ids,
            messages.last(),
        )
    }
}

// ---------------------------------------------------------------------------
// Model: alternation
// ---------------------------------------------------------------------------

pub open spec fn other_role(role: WireRole) -> WireRole {
    match role {
        WireRole::User => WireRole::Assistant,
        WireRole::Assistant => WireRole::User,
    }
}

/// A message that says nothing.
pub open spec fn filler(role: WireRole) -> WireMessageView {
    WireMessageView { role, content: seq![WireBlockView::Text { text: "."@ }] }
}

/// The messages with a filler before each that follows one of its own role.
pub open spec fn spaced(ms: Seq<WireMessageView>) -> Seq<WireMessageView>
    decreases ms.len(),
{
    if ms.len() == 0 {
        Seq::empty()
    } else {
        let rest = spaced(ms.drop_last());
        let m = ms.last();
        if rest.len() > 0 && rest.last().role == m.role {
            rest.push(filler(other_role(m.role))).push(m)
        } else {
            rest.push(m)
        }
    }
}

/// The messages with fillers, so that roles alternate from a user message on.
pub open spec fn alternated(ms: Seq<WireMessageView>) -> Seq<WireMessageView> {
    if ms.len() > 0 && ms[0].role == WireRole::Assistant {
        spaced(seq![filler(WireRole::User)] + ms)
    } else {
        spaced(ms)
    }
}

/// The messages of a request.
pub open spec fn wire_messages(
    messages: Seq<MessageView>,
    compat: ProviderCompat,
    ids: Seq<Seq<char>>,
) -> Seq<WireMessageView> {
    let all = with_messages(compat, ids, messages).out;
    if setting(compat.messages.ensure_alternation, false) {
        alternated(all)
    } else {
        all
    }
}

// ---------------------------------------------------------------------------
// Model: JSON
// ---------------------------------------------------------------------------

pub open spec fn text_block_json(text: Seq<char>) -> JsonView {
    JsonView::Object(
        Map::<Seq<char>, JsonView>::empty().insert("type"@, JsonView::String("text"@)).insert(
            "text"@,
            JsonView::String(text),
        ),
    )
}

pub open spec fn block_json(block: WireBlockView) -> JsonView {
    match block {
        WireBlockView::Text { text } => text_block_json(text),
        WireBlockView::ToolUse { id, name, input } => JsonView::Object(
            Map::<Seq<char>, JsonView>::empty().insert(
                "type"@,
                JsonView::String("tool_use"@),
            ).insert("id"@, JsonView::String(id)).insert("name"@, JsonView::String(name)).insert(
                "input"@,
                input,
            ),
        ),
        WireBlockView::ToolResult { tool_use_id, content, is_error } => JsonView::Object(
            Map::<Seq<char>, JsonView>::empty().insert(
                "type"@,
                JsonView::String("tool_result"@),
            ).insert("tool_use_id"@, JsonView::String(tool_use_id)).insert(
                "content"@,
                JsonView::String(content),
            ).insert("is_error"@, JsonView::Bool(is_error)),
        ),
        WireBlockView::Thinking { thinking, signature } => {
            let base = Map::<Seq<char>, JsonView>::empty().insert(
                "type"@,
                JsonView::String("thinking"@),
            ).insert("thinking"@, JsonView::String(thinking));
            match signature {
                Some(signature) => JsonView::Object(
                    base.insert("signature"@, JsonView::String(signature)),
                ),
                None => JsonView::Object(base),
            }
        },
    }
}

pub open spec fn wire_role_name(role: WireRole) -> Seq<char> {
    match role {
        WireRole::User => "user"@,
        WireRole::Assistant => "assistant"@,
    }
}

pub open spec fn message_json(m: WireMessageView) -> JsonView {
    JsonView::Object(
        Map::<Seq<char>, JsonView>::empty().insert(
            "role"@,
            JsonView::String(wire_role_name(m.role)),
        ).insert(
            "content"@,
            JsonView::Array(m.content.map_values(|b: WireBlockView| block_json(b))),
        ),
    )
}

pub open spec fn tool_json(t: ToolDefView) -> JsonView {
    JsonView::Object(
        Map::<Seq<char>, JsonView>::empty().insert("name"@, JsonView::String(t.name)).insert(
            "description"@,
            JsonView::String(
                if t.deferred {
                    deferred_description(t.summary)
                } else {
                    t.description
                },
            ),
        ).insert(
            "input_schema"@,
            if t.deferred {
                empty_schema()
            } else {
                t.input_schema
            },
        ),
    )
}

// ---------------------------------------------------------------------------
// Executable: from the conversation to wire messages
// ---------------------------------------------------------------------------

proof fn lemma_block_push(out: Seq<WireBlock>, b: WireBlock)
    ensures
        wire_block_views(out.push(b)) == wire_block_views(out).push(b@),
{
    assert(wire_block_views(out.push(b)) =~= wire_block_views(out).push(b@));
}

proof fn lemma_wire_push(out: Seq<WireMessage>, m: WireMessage)
    ensures
        wire_views(out.push(m)) == wire_views(out).push(m@),
{
    assert(wire_views(out.push(m)) =~= wire_views(out).push(m@));
}

/// Adds one block to the content of a message.
fn push_block(
    ledger: &mut ToolIdLedger,
    content: &mut Vec<WireBlock>,
    placeholder: &mut Option<&'static str>,
    compat: &ProviderCompat,
    ids: &Vec<String>,
    block: &ContentBlock,
)
    requires
        old(ledger).drawn + calls_without_id(seq![block@]) <= ids@.len(),
    ensures
        ({
            let before = ContentAcc {
                ledger: old(ledger)@,
                content: wire_block_views(old(content)@),
                placeholder: str_view(*old(placeholder)),
            };
            let after = with_block(before, *compat, views(ids@), block@);
            &&& final(ledger)@ == after.ledger
            &&& wire_block_views(final(content)@) == after.content
            &&& str_view(*final(placeholder)) == after.placeholder
        }),
{
    let rules = tool_id_rules(compat);
    match block {
        ContentBlock::Text { text } => {
            let b = WireBlock::Text { text: strip_patterns_from_text(text.as_str(), compat) };
            proof {
                lemma_block_push(content@, b);
            }
            content.push(b);
        },
        ContentBlock::Image { .. } => {},
        ContentBlock::ToolUse { id, name, input, .. } => {
            proof {
                assert(seq![block@].drop_last() =~= Seq::empty());
                assert(seq![block@].last() == block@);
                assert(calls_without_id(Seq::empty()) == 0);
            }
            let b = match ledger.call(rules, ids, id.as_str(), name.as_str()) {
                CallPlan::Dropped(reason) => WireBlock::Text {
                    text: format_dropped_tool_call(reason, input),
                },
                CallPlan::Sent(sent) => WireBlock::ToolUse {
                    id: sent,
                    name: name.clone(),
                    input: input.clone(),
                },
            };
            proof {
                lemma_block_push(content@, b);
            }
            content.push(b);
        },
        ContentBlock::ToolResult { tool_use_id, content: result_content, is_error } => {
            match ledger.result(rules, tool_use_id.as_str()) {
                ResultPlan::Dropped(reason) => {
                    if placeholder.is_none() {
                        *placeholder = Some(reason.short_placeholder());
                    }
                },
                ResultPlan::Orphan => {
                    if placeholder.is_none() {
                        *placeholder = Some("[tool call skipped: malformed (orphan tool result).]");
                    }
                },
                ResultPlan::Sent(id) => {
                    let b = WireBlock::ToolResult {
                        tool_use_id: id,
                        content: result_content.clone(),
                        is_error: *is_error,
                    };
                    proof {
                        lemma_block_push(content@, b);
                    }
                    content.push(b);
                },
            }
        },
        ContentBlock::Thinking { thinking, signature } => {
            let b = WireBlock::Thinking {
                thinking: thinking.clone(),
                signature: copy_opt(signature),
            };
            proof {
                lemma_block_push(content@, b);
            }
            content.push(b);
        },
    }
}

/// The view of an optional text.
pub open spec fn str_view(s: Option<&str>) -> Option<Seq<char>> {
    match s {
        Some(s) => Some(s@),
        None => None,
    }
}

/// The most generated ids that some blocks can have used.
proof fn lemma_blocks_drawn(
    ledger: LedgerView,
    compat: ProviderCompat,
    ids: Seq<Seq<char>>,
    blocks: Seq<BlockView>,
)
    ensures
        with_blocks(ledger, compat, ids, blocks).ledger.drawn <= ledger.drawn + calls_without_id(
            blocks,
        ),
    decreases blocks.len(),
{
    if blocks.len() > 0 {
        lemma_blocks_drawn(ledger, compat, ids, blocks.drop_last());
    }
}

/// The content of an outgoing message.
fn build_content(
    ledger: &mut ToolIdLedger,
    compat: &ProviderCompat,
    ids: &Vec<String>,
    blocks: &Vec<ContentBlock>,
) -> (r: Vec<WireBlock>)
    requires
        old(ledger).drawn + calls_without_id(block_views(blocks@)) <= ids@.len(),
    ensures
        ({
            let acc = with_blocks(old(ledger)@, *compat, views(ids@), block_views(blocks@));
            &&& final(ledger)@ == acc.ledger
            &&& wire_block_views(r@) == or_text(acc.content, acc.placeholder)
        }),
{
    let mut content: Vec<WireBlock> = Vec::new();
    let mut placeholder: Option<&'static str> = None;
    let ghost all = block_views(blocks@);
    let ghost supply = views(ids@);
    let ghost start = ledger@;
    assert(wire_block_views(content@) =~= Seq::empty());
    for i in 0..blocks.len()
        invariant
            all == block_views(blocks@),
            supply == views(ids@),
            start.drawn + calls_without_id(all) <= ids@.len(),
            ledger@ == with_blocks(start, *compat, supply, all.take(i as int)).ledger,
            wire_block_views(content@) == with_blocks(
                start,
                *compat,
                supply,
                all.take(i as int),
            ).content,
            str_view(placeholder) == with_blocks(
                start,
                *compat,
                supply,
                all.take(i as int),
            ).placeholder,
    {
        proof {
            assert(all.take(i + 1).drop_last() =~= all.take(i as int));
            lemma_blocks_drawn(start, *compat, supply, all.take(i as int));
            lemma_calls_without_id_prefix(all, i + 1);
            let one = seq![all[i as int]];
            assert(one.drop_last() =~= Seq::empty());
            assert(calls_without_id(one.drop_last()) == 0);
        }
        push_block(ledger, &mut content, &mut placeholder, compat, ids, &blocks[i]);
    }
    assert(all.take(all.len() as int) =~= all);
    if content.len() == 0 {
        if let Some(text) = placeholder {
            let b = WireBlock::Text { text: copy_text(text) };
            content.push(b);
            assert(wire_block_views(content@) =~= seq![b@]);
        }
    }
    content
}

/// The most generated ids that some messages can have used.
proof fn lemma_messages_drawn(
    compat: ProviderCompat,
    ids: Seq<Seq<char>>,
    messages: Seq<MessageView>,
)
    ensures
        with_messages(compat, ids, messages).ledger.drawn <= ids_needed(messages),
    decreases messages.len(),
{
    if messages.len() > 0 {
        lemma_messages_drawn(compat, ids, messages.drop_last());
        let before = with_messages(compat, ids, messages.drop_last());
        lemma_blocks_drawn(before.ledger, compat, ids, messages.last().content);
    }
}

/// Adds a message, joined to the last where told so and it has the same role.
fn push_wire_message(out: &mut Vec<WireMessage>, merge: bool, role: WireRole, content: Vec<WireBlock>)
    ensures
        wire_views(final(out)@) == with_wire_message(
            wire_views(old(out)@),
            merge,
            WireMessageView { role, content: wire_block_views(content@) },
        ),
{
    let n: usize = out.len();
    if merge && n > 0 && out[n - 1].role == role {
        let ghost before = wire_views(out@);
        let ghost tail = wire_block_views(content@);
        let last = out.pop().unwrap();
        assert(wire_views(out@) =~= before.drop_last());
        assert(before.last() == last@);
        let mut joined = last.content;
        let ghost head = wire_block_views(joined@);
        let mut content = content;
        joined.append(&mut content);
        assert(wire_block_views(joined@) =~= head + tail);
        let m = WireMessage { role, content: joined };
        proof {
            lemma_wire_push(out@, m);
        }
        out.push(m);
    } else {
        assert(n > 0 ==> wire_views(out@).last() == out@[n - 1]@);
        let m = WireMessage { role, content };
        proof {
            lemma_wire_push(out@, m);
        }
        out.push(m);
    }
}

fn project_messages(messages: &[Message], compat: &ProviderCompat, ids: &Vec<String>) -> (r: Vec<
    WireMessage,
>)
    requires
        ids_needed(message_views(messages@)) <= ids@.len(),
    ensures
        wire_views(r@) == with_messages(
            *compat,
            views(ids@),
            message_views(messages@),
        ).out,
{
    let mut out: Vec<WireMessage> = Vec::new();
    let mut ledger = ToolIdLedger::new();
    let merge = compat.merge_same_role();
    let ghost all = message_views(messages@);
    let ghost supply = views(ids@);
    assert(wire_views(out@) =~= Seq::empty());
    for i in 0..messages.len()
        invariant
            all == message_views(messages@),
            supply == views(ids@),
            merge == setting(compat.messages.merge_same_role, false),
            ids_needed(all) <= ids@.len(),
            ledger@ == with_messages(*compat, supply, all.take(i as int)).ledger,
            wire_views(out@) == with_messages(*compat, supply, all.take(i as int)).out,
    {
        proof {
            assert(all.take(i + 1).drop_last() =~= all.take(i as int));
            lemma_messages_drawn(*compat, supply, all.take(i as int));
            lemma_ids_needed_prefix(all, i + 1);
        }
        let role = match messages[i].role {
            Role::User | Role::Tool => Some(WireRole::User),
            Role::Assistant => Some(WireRole::Assistant),
            Role::System => None,  // system is top-level in Anthropic
        };
        if let Some(role) = role {
            let content = build_content(&mut ledger, compat, ids, &messages[i].content);
            push_wire_message(&mut out, merge, role, content);
        }
    }
    assert(all.take(all.len() as int) =~= all);
    out
}

// ---------------------------------------------------------------------------
// Executable: alternation
// ---------------------------------------------------------------------------

fn filler_message(role: WireRole) -> (r: WireMessage)
    ensures
        r@ == filler(role),
{
    let mut content: Vec<WireBlock> = Vec::new();
    content.push(WireBlock::Text { text: copy_text(".") });
    let r = WireMessage { role, content };
    assert(r@.content =~= filler(role).content);
    r
}

/// Insert filler messages to ensure strict user/assistant alternation.
pub fn ensure_message_alternation(messages: Vec<WireMessage>) -> (r: Vec<WireMessage>)
    ensures
        wire_views(r@) == alternated(wire_views(messages@)),
{
    let ghost given = wire_views(messages@);
    let mut messages = messages;
    // If first message is assistant, prepend a user filler
    if messages.len() > 0 && messages[0].role == WireRole::Assistant {
        let ghost before = messages@;
        let f = filler_message(WireRole::User);
        messages.insert(0, f);
        assert(wire_views(messages@) =~= seq![filler(WireRole::User)] + given);
    }
    let ghost all = wire_views(messages@);
    assert(alternated(given) == spaced(all));
    // Walk through and insert fillers where alternation is broken
    let mut out: Vec<WireMessage> = Vec::new();
    assert(wire_views(out@) =~= spaced(all.take(0)));
    for m in it: messages
        invariant
            it.seq() == messages@,
            all == wire_views(messages@),
            wire_views(out@) == spaced(all.take(it.index() as int)),
    {
        let ghost k = it.index() as int;
        assert(all.take(k + 1).drop_last() =~= all.take(k));
        assert(all.take(k + 1).last() == m@);
        let n: usize = out.len();
        assert(n > 0 ==> wire_views(out@).last() == out@[n - 1]@);
        if n > 0 && out[n - 1].role == m.role {
            let f = filler_message(
                match m.role {
                    WireRole::User => WireRole::Assistant,
                    WireRole::Assistant => WireRole::User,
                },
            );
            proof {
                lemma_wire_push(out@, f);
            }
            out.push(f);
        }
        proof {
            lemma_wire_push(out@, m);
        }
        out.push(m);
    }
    assert(all.take(all.len() as int) =~= all);
    out
}

// ---------------------------------------------------------------------------
// Executable: JSON
// ---------------------------------------------------------------------------

fn block_to_json(block: &WireBlock) -> (r: JsonValue)
    ensures
        r@ == block_json(block@),
{
    match block {
        WireBlock::Text { text } => JsonValue::Object(
            JsonObject::new().with("type", JsonValue::string("text")).with(
                "text",
                JsonValue::string(text.as_str()),
            ),
        ),
        WireBlock::ToolUse { id, name, input } => JsonValue::Object(
            JsonObject::new().with("type", JsonValue::string("tool_use")).with(
                "id",
                JsonValue::string(id.as_str()),
            ).with("name", JsonValue::string(name.as_str())).with("input", input.clone()),
        ),
        WireBlock::ToolResult { tool_use_id, content, is_error } => JsonValue::Object(
            JsonObject::new().with("type", JsonValue::string("tool_result")).with(
                "tool_use_id",
                JsonValue::string(tool_use_id.as_str()),
            ).with("content", JsonValue::string(content.as_str())).with(
                "is_error",
                JsonValue::Bool(*is_error),
            ),
        ),
        WireBlock::Thinking { thinking, signature } => {
            let base = JsonObject::new().with("type", JsonValue::string("thinking")).with(
                "thinking",
                JsonValue::string(thinking.as_str()),
            );
            match signature {
                Some(signature) => JsonValue::Object(
                    base.with("signature", JsonValue::string(signature.as_str())),
                ),
                None => JsonValue::Object(base),
            }
        },
    }
}

impl WireMessage {
    pub fn to_json(&self) -> (r: JsonValue)
        ensures
            r@ == message_json(self@),
    {
        let mut blocks: Vec<JsonValue> = Vec::new();
        for i in 0..self.content.len()
            invariant
                blocks@.len() == i,
                forall|j: int| 0 <= j < i ==> blocks@[j]@ == block_json(self.content@[j]@),
        {
            blocks.push(block_to_json(&self.content[i]));
        }
        let content = JsonValue::Array(blocks);
        assert(content@->Array_0 =~= self@.content.map_values(|b: WireBlockView| block_json(b)));
        let role = match self.role {
            WireRole::User => "user",
            WireRole::Assistant => "assistant",
        };
        JsonValue::Object(
            JsonObject::new().with("role", JsonValue::string(role)).with("content", content),
        )
    }
}

/// The messages of a request, with `ids` the ids to give to calls without one.
pub fn build_messages_with_ids(messages: &[Message], compat: &ProviderCompat, ids: &Vec<String>) -> (r:
    Vec<JsonValue>)
    requires
        ids_needed(message_views(messages@)) <= ids@.len(),
    ensures
        json_views(r@) == wire_messages(
            message_views(messages@),
            *compat,
            views(ids@),
        ).map_values(|m: WireMessageView| message_json(m)),
{
    let mut wire = project_messages(messages, compat, ids);
    // Ensure user/assistant alternation (if enabled)
    if compat.ensure_alternation() {
        wire = ensure_message_alternation(wire);
    }
    let ghost model = wire_messages(message_views(messages@), *compat, views(ids@));
    let mut r: Vec<JsonValue> = Vec::new();
    for i in 0..wire.len()
        invariant
            model == wire_views(wire@),
            r@.len() == i,
            forall|j: int| 0 <= j < i ==> r@[j]@ == message_json(model[j]),
    {
        r.push(wire[i].to_json());
    }
    assert(json_views(r@) =~= model.map_values(|m: WireMessageView| message_json(m)));
    r
}

/// Convert internal Message format to Anthropic API message format.
/// Compat flags control merging and alternation behavior. Calls without an id
/// get generated ones.
pub fn build_messages(messages: &[Message], compat: &ProviderCompat) -> (r: Vec<JsonValue>)
    ensures
        exists|ids: Seq<Seq<char>>|
            {
                &&& are_fresh(IdStyle::Tool, ids, ids_needed(message_views(messages@)))
                &&& json_views(r@) == (#[trigger] wire_messages(
                    message_views(messages@),
                    *compat,
                    ids,
                )).map_values(|m: WireMessageView| message_json(m))
            },
{
    let mut generator = IdGenerator::new();
    let ids = fresh_ids(messages, IdStyle::Tool, &mut generator);
    assert(views(ids@).len() == ids@.len());
    let r = build_messages_with_ids(messages, compat, &ids);
    assert(are_fresh(IdStyle::Tool, views(ids@), ids_needed(message_views(messages@))));
    r
}

fn tool_to_json(t: &ToolDef) -> (r: JsonValue)
    ensures
        r@ == tool_json(t@),
{
    let description = if t.deferred {
        describe_deferred(t.summary.as_str())
    } else {
        t.description.clone()
    };
    let input_schema = if t.deferred {
        schema_without_properties()
    } else {
        t.input_schema.clone()
    };
    JsonValue::Object(
        JsonObject::new().with("name", JsonValue::string(t.name.as_str())).with(
            "description",
            JsonValue::String(description),
        ).with("input_schema", input_schema),
    )
}

/// Convert internal ToolDef format to Anthropic API tool format.
/// Deferred tools emit a minimal schema to reduce input token usage;
/// the caller must invoke ToolSearch to retrieve the full schema.
pub fn build_tools(tools: &[ToolDef]) -> (r: Vec<JsonValue>)
    ensures
        json_views(r@) == tool_views(tools@).map_values(|t: ToolDefView| tool_json(t)),
{
    let mut r: Vec<JsonValue> = Vec::new();
    for i in 0..tools.len()
        invariant
            r@.len() == i,
            forall|j: int| 0 <= j < i ==> r@[j]@ == tool_json(tools@[j]@),
    {
        r.push(tool_to_json(&tools[i]));
    }
    assert(json_views(r@) =~= tool_views(tools@).map_values(|t: ToolDefView| tool_json(t)));
    r
}

} // verus!
