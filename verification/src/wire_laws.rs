//! What a request in the Anthropic format says of the conversation that it is made
//! from.

use vstd::prelude::*;

use crate::anthropic_shared::{
    alternated, block_json, filler, message_json, or_text, other_role, spaced, wire_messages,
    with_block, with_blocks, with_message, with_messages, with_wire_message, ContentAcc,
    WireBlockView, WireMessageView, WireRole,
};
use crate::chat_laws::{
    calls_are_complete, goes_out, nameless, object_of, objects_are_their_members, sent_in,
    why_malformed,
};
use crate::compat::{setting, MessageCompat, ProviderCompat};
use crate::json::JsonView;
use crate::message::{BlockView, MessageView, Role};
use crate::sequences::{
    gathered, gathered_by_last, gathered_of_both, gathered_of_more, gathered_of_one, only_if,
};
use crate::tool_call_sanitize::{dropped_line, DroppedToolCallReason};
use crate::tool_ids::{first_entry, result_fate, rules_of, LedgerView, ResultFate};
use crate::wire::stripped_text;

verus! {

broadcast use vstd::string::group_string_axioms;

// ---------------------------------------------------------------------------
// Messages one for one
// ---------------------------------------------------------------------------

/// The messages of a conversation that are part of the talk: all but the system's.
pub open spec fn talk(messages: Seq<MessageView>) -> Seq<MessageView> {
    gathered(messages, |m: MessageView| only_if(m.role != Role::System, m))
}

/// Who speaks: the assistant for itself, the user for everyone else.
pub open spec fn speaker(m: MessageView) -> WireRole {
    if m.role == Role::Assistant {
        WireRole::Assistant
    } else {
        WireRole::User
    }
}

/// The texts that go out of some blocks: their own, and a line for each call that
/// cannot go out.
pub open spec fn texts_to_send(compat: ProviderCompat, blocks: Seq<BlockView>) -> Seq<Seq<char>> {
    gathered(
        blocks,
        |b: BlockView|
            if b is Text {
                seq![stripped_text(b->Text_text, compat)]
            } else {
                only_if(
                    why_malformed(compat, b) is Some,
                    dropped_line(why_malformed(compat, b).unwrap(), b->ToolUse_input),
                )
            },
    )
}

/// The texts of an outgoing message.
pub open spec fn wire_texts(blocks: Seq<WireBlockView>) -> Seq<Seq<char>> {
    gathered(blocks, |b: WireBlockView| only_if(b is Text, b->Text_text))
}

/// The thoughts of an outgoing message, with their signatures.
pub open spec fn wire_thoughts(blocks: Seq<WireBlockView>) -> Seq<
    (Seq<char>, Option<Seq<char>>),
> {
    gathered(
        blocks,
        |b: WireBlockView| only_if(b is Thinking, (b->Thinking_thinking, b->Thinking_signature)),
    )
}

/// The calls of an outgoing message, by name and input.
pub open spec fn wire_calls(blocks: Seq<WireBlockView>) -> Seq<(Seq<char>, JsonView)> {
    gathered(
        blocks,
        |b: WireBlockView| only_if(b is ToolUse, (b->ToolUse_name, b->ToolUse_input)),
    )
}

/// The block tells a result of the message, word for word and as a failure where it
/// is one: under the id that it answers, or where it names none, under one that was
/// given to its call.
pub open spec fn tells_result_of(blocks: Seq<BlockView>, w: WireBlockView) -> bool {
    exists|j: int|
        0 <= j < blocks.len() && (#[trigger] blocks[j]) is ToolResult
            && blocks[j]->ToolResult_content == w->ToolResult_content
            && blocks[j]->ToolResult_is_error == w->ToolResult_is_error && (
        blocks[j]->ToolResult_tool_use_id == w->ToolResult_tool_use_id
            || blocks[j]->ToolResult_tool_use_id.len() == 0)
}

/// The outgoing message says what the message of the conversation says: its texts,
/// thoughts and calls, in order, and only results of its own. Where nothing of it
/// goes out but results were left out, one line stands in for them.
pub open spec fn says_the_same(compat: ProviderCompat, m: MessageView, w: WireMessageView) -> bool {
    &&& w.role == speaker(m)
    &&& wire_thoughts(w.content) == gathered(
        m.content,
        |b: BlockView| only_if(b is Thinking, (b->thinking, b->signature)),
    )
    &&& wire_calls(w.content) == gathered(
        m.content,
        |b: BlockView| only_if(goes_out(compat, b), (b->ToolUse_name, b->ToolUse_input)),
    )
    &&& forall|p: int|
        0 <= p < w.content.len() && (#[trigger] w.content[p]) is ToolResult ==> tells_result_of(
            m.content,
            w.content[p],
        )
    &&& {
        ||| wire_texts(w.content) == texts_to_send(compat, m.content)
        ||| {
            &&& texts_to_send(compat, m.content).len() == 0
            &&& w.content.len() == 1
            &&& exists|j: int| 0 <= j < m.content.len() && (#[trigger] m.content[j]) is ToolResult
        }
    }
}

spec fn generated_for_empty(l: LedgerView) -> bool {
    forall|k: int| 0 <= k < l.generated.len() ==> (#[trigger] l.generated[k]).0.len() == 0
}

proof fn lemma_first_entry_key<T>(entries: Seq<(Seq<char>, T)>, key: Seq<char>, i: nat)
    ensures
        first_entry(entries, key, i) matches Some(k) ==> i <= k < entries.len()
            && entries[k as int].0 == key,
    decreases entries.len() - i,
{
    if i < entries.len() && entries[i as int].0 != key {
        lemma_first_entry_key(entries, key, i + 1);
    }
}

proof fn lemma_blocks_say(
    ledger: LedgerView,
    compat: ProviderCompat,
    ids: Seq<Seq<char>>,
    blocks: Seq<BlockView>,
)
    requires
        generated_for_empty(ledger),
    ensures
        ({
            let acc = with_blocks(ledger, compat, ids, blocks);
            &&& generated_for_empty(acc.ledger)
            &&& wire_texts(acc.content) == texts_to_send(compat, blocks)
            &&& wire_thoughts(acc.content) == gathered(
                blocks,
                |b: BlockView| only_if(b is Thinking, (b->thinking, b->signature)),
            )
            &&& wire_calls(acc.content) == gathered(
                blocks,
                |b: BlockView| only_if(goes_out(compat, b), (b->ToolUse_name, b->ToolUse_input)),
            )
            &&& forall|p: int|
                0 <= p < acc.content.len() && (
                #[trigger] acc.content[p]) is ToolResult ==> tells_result_of(
                    blocks,
                    acc.content[p],
                )
            &&& acc.placeholder is Some ==> exists|j: int|
                0 <= j < blocks.len() && (#[trigger] blocks[j]) is ToolResult
        }),
    decreases blocks.len(),
{
    let text = |b: BlockView|
        if b is Text {
            seq![stripped_text(b->Text_text, compat)]
        } else {
            only_if(
                why_malformed(compat, b) is Some,
                dropped_line(why_malformed(compat, b).unwrap(), b->ToolUse_input),
            )
        };
    let thought = |b: BlockView| only_if(b is Thinking, (b->thinking, b->signature));
    let call = |b: BlockView| only_if(goes_out(compat, b), (b->ToolUse_name, b->ToolUse_input));
    let wire_text = |b: WireBlockView| only_if(b is Text, b->Text_text);
    let wire_thought = |b: WireBlockView|
        only_if(b is Thinking, (b->Thinking_thinking, b->Thinking_signature));
    let wire_call = |b: WireBlockView| only_if(b is ToolUse, (b->ToolUse_name, b->ToolUse_input));
    let acc = with_blocks(ledger, compat, ids, blocks);
    if blocks.len() == 0 {
        assert(acc.content =~= Seq::empty());
    } else {
        let front = blocks.drop_last();
        let b = blocks[blocks.len() - 1];
        lemma_blocks_say(ledger, compat, ids, front);
        let before = with_blocks(ledger, compat, ids, front);
        gathered_by_last(blocks, text);
        gathered_by_last(blocks, thought);
        gathered_by_last(blocks, call);
        if acc.content.len() > before.content.len() {
            let w = acc.content.last();
            assert(acc.content =~= before.content.push(w));
            gathered_of_more(before.content, w, wire_text);
            gathered_of_more(before.content, w, wire_thought);
            gathered_of_more(before.content, w, wire_call);
        }
        assert(wire_texts(acc.content) =~= texts_to_send(compat, blocks));
        assert(wire_thoughts(acc.content) =~= gathered(blocks, thought));
        assert(wire_calls(acc.content) =~= gathered(blocks, call));
        if b is ToolResult {
            let id = b->ToolResult_tool_use_id;
            lemma_first_entry_key(before.ledger.generated, id, 0);
            assert forall|k: int| 0 <= k < acc.ledger.generated.len() implies (
            #[trigger] acc.ledger.generated[k]).0.len() == 0 by {
                if acc.ledger.generated.len() == before.ledger.generated.len() {
                    assert(before.ledger.generated[k].0.len() == 0);
                } else {
                    let p = first_entry(before.ledger.generated, id, 0).unwrap();
                    if k < p {
                        assert(before.ledger.generated[k].0.len() == 0);
                    } else {
                        assert(before.ledger.generated[k + 1].0.len() == 0);
                    }
                }
            }
        }
        assert forall|p: int|
            0 <= p < acc.content.len() && (
            #[trigger] acc.content[p]) is ToolResult implies tells_result_of(
            blocks,
            acc.content[p],
        ) by {
            if p < before.content.len() {
                assert(before.content[p] == acc.content[p]);
                let j = choose|j: int|
                    0 <= j < front.len() && (#[trigger] front[j]) is ToolResult
                        && front[j]->ToolResult_content == acc.content[p]->ToolResult_content
                        && front[j]->ToolResult_is_error == acc.content[p]->ToolResult_is_error && (
                    front[j]->ToolResult_tool_use_id == acc.content[p]->ToolResult_tool_use_id
                        || front[j]->ToolResult_tool_use_id.len() == 0);
                assert(blocks[j] is ToolResult);
            } else {
                assert(b is ToolResult);
                let id = b->ToolResult_tool_use_id;
                lemma_first_entry_key(before.ledger.generated, id, 0);
                match first_entry(before.ledger.generated, id, 0) {
                    Some(k) => {
                        assert(before.ledger.generated[k as int].0.len() == 0);
                    },
                    None => {},
                }
            }
        }
        if acc.placeholder is Some {
            if before.placeholder is Some {
                let j = choose|j: int| 0 <= j < front.len() && (#[trigger] front[j]) is ToolResult;
                assert(blocks[j] is ToolResult);
            } else {
                assert(b is ToolResult);
            }
        }
    }
}

proof fn lemma_message_says(
    ledger: LedgerView,
    compat: ProviderCompat,
    ids: Seq<Seq<char>>,
    m: MessageView,
)
    requires
        m.role != Role::System,
        generated_for_empty(ledger),
    ensures
        ({
            let parts = with_blocks(ledger, compat, ids, m.content);
            says_the_same(
                compat,
                m,
                WireMessageView {
                    role: speaker(m),
                    content: or_text(parts.content, parts.placeholder),
                },
            )
        }),
{
    let parts = with_blocks(ledger, compat, ids, m.content);
    lemma_blocks_say(ledger, compat, ids, m.content);
    let out = or_text(parts.content, parts.placeholder);
    if parts.placeholder is Some && parts.content.len() == 0 {
        let w = WireBlockView::Text { text: parts.placeholder.unwrap() };
        assert(parts.content =~= Seq::empty());
        assert(out =~= seq![w]);
        gathered_of_one(w, |b: WireBlockView| only_if(b is Text, b->Text_text));
        gathered_of_one(
            w,
            |b: WireBlockView|
                only_if(b is Thinking, (b->Thinking_thinking, b->Thinking_signature)),
        );
        gathered_of_one(
            w,
            |b: WireBlockView| only_if(b is ToolUse, (b->ToolUse_name, b->ToolUse_input)),
        );
        assert(wire_texts(parts.content) =~= Seq::empty());
        assert(wire_thoughts(out) =~= wire_thoughts(parts.content));
        assert(wire_calls(out) =~= wire_calls(parts.content));
    }
}

/// Where messages are neither merged nor spaced out, each message of the talk goes
/// out as one, in order, and says the same.
pub proof fn each_message_goes_out(
    messages: Seq<MessageView>,
    compat: ProviderCompat,
    ids: Seq<Seq<char>>,
)
    requires
        compat.messages.merge_same_role != Some(true),
        compat.messages.ensure_alternation != Some(true),
    ensures
        wire_messages(messages, compat, ids).len() == talk(messages).len(),
        forall|k: int|
            0 <= k < talk(messages).len() ==> says_the_same(
                compat,
                talk(messages)[k],
                #[trigger] wire_messages(messages, compat, ids)[k],
            ),
{
    lemma_each_message(messages, compat, ids);
}

proof fn lemma_each_message(
    messages: Seq<MessageView>,
    compat: ProviderCompat,
    ids: Seq<Seq<char>>,
)
    requires
        compat.messages.merge_same_role != Some(true),
    ensures
        generated_for_empty(with_messages(compat, ids, messages).ledger),
        with_messages(compat, ids, messages).out.len() == talk(messages).len(),
        forall|k: int|
            0 <= k < talk(messages).len() ==> says_the_same(
                compat,
                talk(messages)[k],
                #[trigger] with_messages(compat, ids, messages).out[k],
            ),
    decreases messages.len(),
{
    let pick = |m: MessageView| only_if(m.role != Role::System, m);
    if messages.len() > 0 {
        let front = messages.drop_last();
        let m = messages.last();
        lemma_each_message(front, compat, ids);
        gathered_by_last(messages, pick);
        let before = with_messages(compat, ids, front);
        let after = with_messages(compat, ids, messages);
        if m.role != Role::System {
            lemma_message_says(before.ledger, compat, ids, m);
            lemma_blocks_say(before.ledger, compat, ids, m.content);
            assert(talk(messages) =~= talk(front).push(m));
            assert forall|k: int| 0 <= k < talk(messages).len() implies says_the_same(
                compat,
                talk(messages)[k],
                #[trigger] after.out[k],
            ) by {
                if k < before.out.len() {
                    assert(says_the_same(compat, talk(front)[k], before.out[k]));
                }
            }
        } else {
            assert(talk(messages) =~= talk(front));
        }
    }
}

// ---------------------------------------------------------------------------
// Merging
// ---------------------------------------------------------------------------

/// Everything that is said, block by block, and by whom.
pub open spec fn said_by(ms: Seq<WireMessageView>) -> Seq<(WireRole, WireBlockView)> {
    gathered(ms, |m: WireMessageView| m.content.map_values(|b: WireBlockView| (m.role, b)))
}

/// The same settings without merging.
pub open spec fn without_merging(compat: ProviderCompat) -> ProviderCompat {
    ProviderCompat {
        messages: MessageCompat { merge_same_role: Some(false), ..compat.messages },
        ..compat
    }
}

proof fn lemma_same_blocks(
    ledger: LedgerView,
    compat: ProviderCompat,
    ids: Seq<Seq<char>>,
    blocks: Seq<BlockView>,
)
    ensures
        with_blocks(ledger, without_merging(compat), ids, blocks) == with_blocks(
            ledger,
            compat,
            ids,
            blocks,
        ),
    decreases blocks.len(),
{
    if blocks.len() > 0 {
        lemma_same_blocks(ledger, compat, ids, blocks.drop_last());
        let plain = without_merging(compat);
        assert(rules_of(plain) == rules_of(compat));
        let before = with_blocks(ledger, compat, ids, blocks.drop_last());
        assert(with_block(before, plain, ids, blocks.last()) == with_block(
            before,
            compat,
            ids,
            blocks.last(),
        )) by {
            if blocks.last() is Text {
                let text = blocks.last()->Text_text;
                assert(stripped_text(text, plain) == stripped_text(text, compat));
            }
        }
    }
}

proof fn lemma_merging_keeps(
    messages: Seq<MessageView>,
    compat: ProviderCompat,
    ids: Seq<Seq<char>>,
)
    ensures
        with_messages(compat, ids, messages).ledger == with_messages(
            without_merging(compat),
            ids,
            messages,
        ).ledger,
        said_by(with_messages(compat, ids, messages).out) == said_by(
            with_messages(without_merging(compat), ids, messages).out,
        ),
    decreases messages.len(),
{
    let plain = without_merging(compat);
    let give = |m: WireMessageView| m.content.map_values(|b: WireBlockView| (m.role, b));
    if messages.len() > 0 {
        let front = messages.drop_last();
        let m = messages.last();
        lemma_merging_keeps(front, compat, ids);
        let x = with_messages(compat, ids, front);
        let y = with_messages(plain, ids, front);
        lemma_same_blocks(x.ledger, compat, ids, m.content);
        if m.role != Role::System {
            let parts = with_blocks(x.ledger, compat, ids, m.content);
            let w = WireMessageView {
                role: speaker(m),
                content: or_text(parts.content, parts.placeholder),
            };
            gathered_of_more(y.out, w, give);
            let merge = setting(compat.messages.merge_same_role, false);
            let r = with_wire_message(x.out, merge, w);
            if merge && x.out.len() > 0 && x.out.last().role == w.role {
                let both = WireMessageView {
                    role: w.role,
                    content: x.out.last().content + w.content,
                };
                gathered_by_last(x.out, give);
                gathered_of_more(x.out.drop_last(), both, give);
                assert(give(both) =~= give(x.out.last()) + give(w));
                assert(said_by(r) =~= said_by(x.out) + give(w));
            } else {
                gathered_of_more(x.out, w, give);
            }
        }
    }
}

/// Merging changes nothing of what is said, in what order and by whom: the same
/// blocks go out with it and without it.
pub proof fn merging_changes_nothing_said(
    messages: Seq<MessageView>,
    compat: ProviderCompat,
    ids: Seq<Seq<char>>,
)
    requires
        compat.messages.ensure_alternation != Some(true),
    ensures
        said_by(wire_messages(messages, compat, ids)) == said_by(
            wire_messages(messages, without_merging(compat), ids),
        ),
{
    lemma_merging_keeps(messages, compat, ids);
}

/// Without merging, alternation starts from one message for each of the talk.
pub proof fn alternation_works_on_the_talk(
    messages: Seq<MessageView>,
    compat: ProviderCompat,
    ids: Seq<Seq<char>>,
)
    requires
        compat.messages.ensure_alternation == Some(true),
    ensures
        ({
            let plain = ProviderCompat {
                messages: MessageCompat { ensure_alternation: Some(false), ..compat.messages },
                ..compat
            };
            wire_messages(messages, compat, ids) == alternated(
                wire_messages(messages, plain, ids),
            )
        }),
{
    let plain = ProviderCompat {
        messages: MessageCompat { ensure_alternation: Some(false), ..compat.messages },
        ..compat
    };
    lemma_same_messages(messages, compat, plain, ids);
}

proof fn lemma_same_block_rules(
    ledger: LedgerView,
    compat: ProviderCompat,
    plain: ProviderCompat,
    ids: Seq<Seq<char>>,
    blocks: Seq<BlockView>,
)
    requires
        rules_of(plain) == rules_of(compat),
        plain.messages.strip_patterns == compat.messages.strip_patterns,
    ensures
        with_blocks(ledger, plain, ids, blocks) == with_blocks(ledger, compat, ids, blocks),
    decreases blocks.len(),
{
    if blocks.len() > 0 {
        lemma_same_block_rules(ledger, compat, plain, ids, blocks.drop_last());
        let before = with_blocks(ledger, compat, ids, blocks.drop_last());
        if blocks.last() is Text {
            let text = blocks.last()->Text_text;
            assert(stripped_text(text, plain) == stripped_text(text, compat));
        }
        assert(with_block(before, plain, ids, blocks.last()) == with_block(
            before,
            compat,
            ids,
            blocks.last(),
        ));
    }
}

proof fn lemma_same_messages(
    messages: Seq<MessageView>,
    compat: ProviderCompat,
    plain: ProviderCompat,
    ids: Seq<Seq<char>>,
)
    requires
        rules_of(plain) == rules_of(compat),
        plain.messages.strip_patterns == compat.messages.strip_patterns,
        plain.messages.merge_same_role == compat.messages.merge_same_role,
    ensures
        with_messages(plain, ids, messages) == with_messages(compat, ids, messages),
    decreases messages.len(),
{
    if messages.len() > 0 {
        lemma_same_messages(messages.drop_last(), compat, plain, ids);
        let before = with_messages(compat, ids, messages.drop_last());
        lemma_same_block_rules(before.ledger, compat, plain, ids, messages.last().content);
        assert(with_message(before, plain, ids, messages.last()) == with_message(
            before,
            compat,
            ids,
            messages.last(),
        ));
    }
}

// ---------------------------------------------------------------------------
// The whole conversation, block by block
// ---------------------------------------------------------------------------

/// Before the block at `j` of the message at `i`, a call with this id was made.
pub open spec fn called_earlier(messages: Seq<MessageView>, i: int, j: int, id: Seq<char>) -> bool {
    exists|p: int, q: int|
        0 <= p < messages.len() && (p < i || (p == i && q < j)) && messages[p].role != Role::System
            && 0 <= q < messages[p].content.len() && (#[trigger] messages[p].content[q]) is ToolUse
            && messages[p].content[q]->ToolUse_id == id
}

/// A text block as JSON.
pub open spec fn text_json(text: Seq<char>) -> JsonView {
    object_of(
        |k: Seq<char>|
            if k == "type"@ {
                Some(JsonView::String("text"@))
            } else if k == "text"@ {
                Some(JsonView::String(text))
            } else {
                None
            },
    )
}

/// A call as JSON.
pub open spec fn use_json(id: Seq<char>, name: Seq<char>, input: JsonView) -> JsonView {
    object_of(
        |k: Seq<char>|
            if k == "type"@ {
                Some(JsonView::String("tool_use"@))
            } else if k == "id"@ {
                Some(JsonView::String(id))
            } else if k == "name"@ {
                Some(JsonView::String(name))
            } else if k == "input"@ {
                Some(input)
            } else {
                None
            },
    )
}

/// A result as JSON.
pub open spec fn answer_json(id: Seq<char>, content: Seq<char>, is_error: bool) -> JsonView {
    object_of(
        |k: Seq<char>|
            if k == "type"@ {
                Some(JsonView::String("tool_result"@))
            } else if k == "tool_use_id"@ {
                Some(JsonView::String(id))
            } else if k == "content"@ {
                Some(JsonView::String(content))
            } else if k == "is_error"@ {
                Some(JsonView::Bool(is_error))
            } else {
                None
            },
    )
}

/// A thought as JSON.
pub open spec fn thought_json(thinking: Seq<char>, signature: Option<Seq<char>>) -> JsonView {
    object_of(
        |k: Seq<char>|
            if k == "type"@ {
                Some(JsonView::String("thinking"@))
            } else if k == "thinking"@ {
                Some(JsonView::String(thinking))
            } else if k == "signature"@ && signature is Some {
                Some(JsonView::String(signature.unwrap()))
            } else {
                None
            },
    )
}

/// A message as JSON.
pub open spec fn talk_json(role: Seq<char>, blocks: Seq<JsonView>) -> JsonView {
    object_of(
        |k: Seq<char>|
            if k == "role"@ {
                Some(JsonView::String(role))
            } else if k == "content"@ {
                Some(JsonView::Array(blocks))
            } else {
                None
            },
    )
}

proof fn lemma_wire_keys()
    ensures
        "type"@ != "text"@,
        "type"@ != "id"@,
        "type"@ != "name"@,
        "type"@ != "input"@,
        "id"@ != "name"@,
        "id"@ != "input"@,
        "name"@ != "input"@,
        "type"@ != "tool_use_id"@,
        "type"@ != "content"@,
        "type"@ != "is_error"@,
        "tool_use_id"@ != "content"@,
        "tool_use_id"@ != "is_error"@,
        "content"@ != "is_error"@,
        "type"@ != "thinking"@,
        "type"@ != "signature"@,
        "thinking"@ != "signature"@,
        "role"@ != "content"@,
{
    reveal_strlit("type");
    reveal_strlit("text");
    reveal_strlit("id");
    reveal_strlit("name");
    reveal_strlit("input");
    reveal_strlit("tool_use_id");
    reveal_strlit("content");
    reveal_strlit("is_error");
    reveal_strlit("thinking");
    reveal_strlit("signature");
    reveal_strlit("role");
    assert("type"@.len() == 4 && "text"@.len() == 4 && "name"@.len() == 4);
    assert("type"@[1] == 'y' && "text"@[1] == 'e' && "name"@[1] == 'a');
    assert("id"@.len() == 2 && "input"@.len() == 5 && "tool_use_id"@.len() == 11);
    assert("content"@.len() == 7 && "is_error"@.len() == 8 && "thinking"@.len() == 8);
    assert("signature"@.len() == 9 && "role"@.len() == 4);
}

/// A block is written out with its own members and no others.
pub proof fn blocks_are_written_out(b: WireBlockView)
    ensures
        block_json(b) == (match b {
            WireBlockView::Text { text } => text_json(text),
            WireBlockView::ToolUse { id, name, input } => use_json(id, name, input),
            WireBlockView::ToolResult { tool_use_id, content, is_error } => answer_json(
                tool_use_id,
                content,
                is_error,
            ),
            WireBlockView::Thinking { thinking, signature } => thought_json(thinking, signature),
        }),
{
    lemma_wire_keys();
    match b {
        WireBlockView::Text { text } => {
            let x = block_json(b)->Object_0;
            let members = |k: Seq<char>|
                if k == "type"@ {
                    Some(JsonView::String("text"@))
                } else if k == "text"@ {
                    Some(JsonView::String(text))
                } else {
                    None
                };
            assert(text_json(text) == object_of(members));
            objects_are_their_members(x, members);
        },
        WireBlockView::ToolUse { id, name, input } => {
            let x = block_json(b)->Object_0;
            let members = |k: Seq<char>|
                if k == "type"@ {
                    Some(JsonView::String("tool_use"@))
                } else if k == "id"@ {
                    Some(JsonView::String(id))
                } else if k == "name"@ {
                    Some(JsonView::String(name))
                } else if k == "input"@ {
                    Some(input)
                } else {
                    None
                };
            assert(use_json(id, name, input) == object_of(members));
            objects_are_their_members(x, members);
        },
        WireBlockView::ToolResult { tool_use_id, content, is_error } => {
            let x = block_json(b)->Object_0;
            let members = |k: Seq<char>|
                if k == "type"@ {
                    Some(JsonView::String("tool_result"@))
                } else if k == "tool_use_id"@ {
                    Some(JsonView::String(tool_use_id))
                } else if k == "content"@ {
                    Some(JsonView::String(content))
                } else if k == "is_error"@ {
                    Some(JsonView::Bool(is_error))
                } else {
                    None
                };
            assert(answer_json(tool_use_id, content, is_error) == object_of(members));
            objects_are_their_members(x, members);
        },
        WireBlockView::Thinking { thinking, signature } => {
            let x = block_json(b)->Object_0;
            let members = |k: Seq<char>|
                if k == "type"@ {
                    Some(JsonView::String("thinking"@))
                } else if k == "thinking"@ {
                    Some(JsonView::String(thinking))
                } else if k == "signature"@ && signature is Some {
                    Some(JsonView::String(signature.unwrap()))
                } else {
                    None
                };
            assert(thought_json(thinking, signature) == object_of(members));
            objects_are_their_members(x, members);
        },
    }
}

/// A message is written out with its role and its blocks, and nothing else.
pub proof fn messages_are_written_out(m: WireMessageView)
    ensures
        message_json(m) == talk_json(
            if m.role == WireRole::User {
                "user"@
            } else {
                "assistant"@
            },
            m.content.map_values(|b: WireBlockView| block_json(b)),
        ),
{
    lemma_wire_keys();
    let role = if m.role == WireRole::User {
        "user"@
    } else {
        "assistant"@
    };
    let blocks = m.content.map_values(|b: WireBlockView| block_json(b));
    let members = |k: Seq<char>|
        if k == "role"@ {
            Some(JsonView::String(role))
        } else if k == "content"@ {
            Some(JsonView::Array(blocks))
        } else {
            None
        };
    let x = message_json(m)->Object_0;
    assert(talk_json(role, blocks) == object_of(members));
    objects_are_their_members(x, members);
}

/// A filler is a single dot.
pub proof fn fillers_are_dots(role: WireRole)
    ensures
        filler(role).role == role,
        filler(role).content.map_values(|b: WireBlockView| block_json(b)) == seq![text_json("."@)],
{
    blocks_are_written_out(filler(role).content[0]);
    assert(filler(role).content.map_values(|b: WireBlockView| block_json(b)) =~= seq![
        text_json("."@),
    ]);
}

/// What the block at `j` of the message at `i` goes out as.
pub open spec fn block_sent(
    messages: Seq<MessageView>,
    compat: ProviderCompat,
    i: int,
    j: int,
) -> Seq<JsonView> {
    match messages[i].content[j] {
        BlockView::Text { text } => seq![text_json(stripped_text(text, compat))],
        BlockView::Image { .. } => Seq::empty(),
        BlockView::ToolUse { id, name, input, .. } => seq![use_json(id, name, input)],
        BlockView::ToolResult { tool_use_id, content, is_error } => only_if(
            compat.messages.clean_orphan_tool_results != Some(true) || called_earlier(
                messages,
                i,
                j,
                tool_use_id,
            ),
            answer_json(tool_use_id, content, is_error),
        ),
        BlockView::Thinking { thinking, signature } => seq![thought_json(thinking, signature)],
    }
}

/// What the first `n` blocks of the message at `i` go out as.
pub open spec fn blocks_sent(
    messages: Seq<MessageView>,
    compat: ProviderCompat,
    i: int,
    n: nat,
) -> Seq<JsonView>
    decreases n,
{
    if n == 0 {
        Seq::empty()
    } else {
        blocks_sent(messages, compat, i, (n - 1) as nat) + block_sent(messages, compat, i, n - 1)
    }
}

/// What the message at `i` goes out as. One of which only orphan results were left
/// out says so.
pub open spec fn message_sent(messages: Seq<MessageView>, compat: ProviderCompat, i: int) -> Seq<
    JsonView,
> {
    let m = messages[i];
    let blocks = blocks_sent(messages, compat, i, m.content.len());
    only_if(
        m.role != Role::System,
        talk_json(
            if m.role == Role::Assistant {
                "assistant"@
            } else {
                "user"@
            },
            if blocks.len() == 0 && exists|j: int|
                0 <= j < m.content.len() && (#[trigger] m.content[j]) is ToolResult {
                seq![text_json("[tool call skipped: malformed (orphan tool result).]"@)]
            } else {
                blocks
            },
        ),
    )
}

/// What the first `n` messages go out as.
pub open spec fn messages_sent(messages: Seq<MessageView>, compat: ProviderCompat, n: nat) -> Seq<
    JsonView,
>
    decreases n,
{
    if n == 0 {
        Seq::empty()
    } else {
        messages_sent(messages, compat, (n - 1) as nat) + message_sent(messages, compat, n - 1)
    }
}

spec fn ledger_is_plain(messages: Seq<MessageView>, i: int, j: int, l: LedgerView) -> bool {
    &&& l.dropped.len() == 0
    &&& l.generated.len() == 0
    &&& forall|id: Seq<char>| #[trigger]
        l.available.contains(id) <==> called_earlier(messages, i, j, id)
}

proof fn lemma_called_earlier_more(messages: Seq<MessageView>, i: int, j: int, id: Seq<char>)
    requires
        0 <= i < messages.len(),
        0 <= j < messages[i].content.len(),
        messages[i].role != Role::System,
    ensures
        called_earlier(messages, i, j + 1, id) <==> called_earlier(messages, i, j, id) || (
        messages[i].content[j] is ToolUse && messages[i].content[j]->ToolUse_id == id),
{
    if called_earlier(messages, i, j + 1, id) && !called_earlier(messages, i, j, id) {
        let (p, q) = choose|p: int, q: int|
            0 <= p < messages.len() && (p < i || (p == i && q < j + 1)) && messages[p].role
                != Role::System && 0 <= q < messages[p].content.len() && (
            #[trigger] messages[p].content[q]) is ToolUse && messages[p].content[q]->ToolUse_id
                == id;
        assert(p == i && q == j);
    }
}

proof fn lemma_called_earlier_next(messages: Seq<MessageView>, i: int, id: Seq<char>)
    requires
        0 <= i < messages.len(),
    ensures
        messages[i].role != Role::System ==> (called_earlier(messages, i + 1, 0, id)
            <==> called_earlier(messages, i, messages[i].content.len() as int, id)),
        messages[i].role == Role::System ==> (called_earlier(messages, i + 1, 0, id)
            <==> called_earlier(messages, i, 0, id)),
{
    if called_earlier(messages, i + 1, 0, id) {
        let (p, q) = choose|p: int, q: int|
            0 <= p < messages.len() && (p < i + 1 || (p == i + 1 && q < 0)) && messages[p].role
                != Role::System && 0 <= q < messages[p].content.len() && (
            #[trigger] messages[p].content[q]) is ToolUse && messages[p].content[q]->ToolUse_id
                == id;
        assert(messages[p].content[q] is ToolUse);
    }
    if messages[i].role != Role::System && called_earlier(
        messages,
        i,
        messages[i].content.len() as int,
        id,
    ) {
        let n = messages[i].content.len() as int;
        let (p, q) = choose|p: int, q: int|
            0 <= p < messages.len() && (p < i || (p == i && q < n)) && messages[p].role
                != Role::System && 0 <= q < messages[p].content.len() && (
            #[trigger] messages[p].content[q]) is ToolUse && messages[p].content[q]->ToolUse_id
                == id;
        assert(messages[p].content[q] is ToolUse);
    }
}

proof fn lemma_blocks_sent(
    ledger: LedgerView,
    compat: ProviderCompat,
    ids: Seq<Seq<char>>,
    messages: Seq<MessageView>,
    i: int,
    n: nat,
)
    requires
        calls_are_complete(messages),
        0 <= i < messages.len(),
        messages[i].role != Role::System,
        n <= messages[i].content.len(),
        ledger_is_plain(messages, i, 0, ledger),
    ensures
        ({
            let acc = with_blocks(ledger, compat, ids, messages[i].content.take(n as int));
            &&& ledger_is_plain(messages, i, n as int, acc.ledger)
            &&& acc.content.map_values(|b: WireBlockView| block_json(b)) == blocks_sent(
                messages,
                compat,
                i,
                n,
            )
            &&& acc.placeholder matches Some(text) ==> text
                == "[tool call skipped: malformed (orphan tool result).]"@
            &&& acc.content.len() == 0 ==> (acc.placeholder is Some <==> exists|j: int|
                0 <= j < n && (#[trigger] messages[i].content[j]) is ToolResult)
        }),
    decreases n,
{
    let json = |b: WireBlockView| block_json(b);
    let content = messages[i].content;
    let acc = with_blocks(ledger, compat, ids, content.take(n as int));
    if n == 0 {
        assert(content.take(0) =~= Seq::empty());
        assert(acc.content.map_values(json) =~= Seq::empty());
    } else {
        lemma_blocks_sent(ledger, compat, ids, messages, i, (n - 1) as nat);
        let prefix = content.take(n as int);
        assert(prefix.drop_last() =~= content.take(n - 1));
        let b = content[n - 1];
        assert(prefix.last() == b);
        assert(messages[i].content[n - 1] == b);
        let before = with_blocks(ledger, compat, ids, content.take(n - 1));
        assert forall|id: Seq<char>| #[trigger] acc.ledger.available.contains(id)
            <==> called_earlier(messages, i, n as int, id) by {
            lemma_called_earlier_more(messages, i, n - 1, id);
            assert(before.ledger.available.contains(id) <==> called_earlier(
                messages,
                i,
                n - 1,
                id,
            ));
            if b is ToolResult {
                let key = b->ToolResult_tool_use_id;
                assert(first_entry(before.ledger.dropped, key, 0) is None);
                assert(first_entry(before.ledger.generated, key, 0) is None);
            }
        }
        if b is ToolResult {
            let key = b->ToolResult_tool_use_id;
            assert(first_entry(before.ledger.dropped, key, 0) is None);
            assert(first_entry(before.ledger.generated, key, 0) is None);
            assert(before.ledger.available.contains(key) <==> called_earlier(
                messages,
                i,
                n - 1,
                key,
            ));
        }
        if acc.content.len() > before.content.len() {
            blocks_are_written_out(acc.content.last());
            assert(acc.content =~= before.content.push(acc.content.last()));
        }
        assert(acc.content.map_values(json) =~= before.content.map_values(json) + block_sent(
            messages,
            compat,
            i,
            n - 1,
        ));
        if acc.content.len() == 0 {
            assert(before.content.len() == 0);
            if acc.placeholder is Some {
                if before.placeholder is Some {
                    let j = choose|j: int|
                        0 <= j < n - 1 && (#[trigger] messages[i].content[j]) is ToolResult;
                    assert(messages[i].content[j] is ToolResult);
                } else {
                    assert(messages[i].content[n - 1] is ToolResult);
                }
            }
            if exists|j: int| 0 <= j < n && (#[trigger] messages[i].content[j]) is ToolResult {
                let j = choose|j: int|
                    0 <= j < n && (#[trigger] messages[i].content[j]) is ToolResult;
                if j < n - 1 {
                    assert(before.placeholder is Some);
                }
            }
        }
    }
}

proof fn lemma_messages_sent(
    messages: Seq<MessageView>,
    compat: ProviderCompat,
    ids: Seq<Seq<char>>,
    n: nat,
)
    requires
        calls_are_complete(messages),
        compat.messages.merge_same_role != Some(true),
        n <= messages.len(),
    ensures
        ({
            let acc = with_messages(compat, ids, messages.take(n as int));
            &&& ledger_is_plain(messages, n as int, 0, acc.ledger)
            &&& acc.out.map_values(|m: WireMessageView| message_json(m)) == messages_sent(
                messages,
                compat,
                n,
            )
        }),
    decreases n,
{
    let json = |m: WireMessageView| message_json(m);
    let acc = with_messages(compat, ids, messages.take(n as int));
    if n == 0 {
        assert(messages.take(0) =~= Seq::empty());
        assert(acc.out.map_values(json) =~= Seq::empty());
    } else {
        lemma_messages_sent(messages, compat, ids, (n - 1) as nat);
        let prefix = messages.take(n as int);
        assert(prefix.drop_last() =~= messages.take(n - 1));
        let m = messages[n - 1];
        assert(prefix.last() == m);
        let before = with_messages(compat, ids, messages.take(n - 1));
        assert(m.content.take(m.content.len() as int) =~= m.content);
        if m.role != Role::System {
            lemma_blocks_sent(before.ledger, compat, ids, messages, n - 1, m.content.len());
            let parts = with_blocks(before.ledger, compat, ids, m.content);
            let w = WireMessageView {
                role: speaker(m),
                content: or_text(parts.content, parts.placeholder),
            };
            assert(acc.out =~= before.out.push(w));
            messages_are_written_out(w);
            let blocks = blocks_sent(messages, compat, n - 1, m.content.len());
            let each = |b: WireBlockView| block_json(b);
            assert(parts.content.map_values(each).len() == parts.content.len());
            if parts.content.len() == 0 && parts.placeholder is Some {
                blocks_are_written_out(w.content[0]);
                assert(w.content.map_values(each) =~= seq![
                    text_json("[tool call skipped: malformed (orphan tool result).]"@),
                ]);
            } else {
                assert(w.content.map_values(each) =~= blocks);
            }
            assert(acc.out.map_values(json) =~= before.out.map_values(json) + message_sent(
                messages,
                compat,
                n - 1,
            ));
        } else {
            assert(acc.out.map_values(json) =~= before.out.map_values(json) + message_sent(
                messages,
                compat,
                n - 1,
            ));
        }
        assert forall|id: Seq<char>| #[trigger] acc.ledger.available.contains(id)
            <==> called_earlier(messages, n as int, 0, id) by {
            lemma_called_earlier_next(messages, n - 1, id);
            if m.role != Role::System {
                let parts = with_blocks(before.ledger, compat, ids, m.content);
                assert(parts.ledger.available.contains(id) <==> called_earlier(
                    messages,
                    n - 1,
                    m.content.len() as int,
                    id,
                ));
            } else {
                assert(before.ledger.available.contains(id) <==> called_earlier(
                    messages,
                    n - 1,
                    0,
                    id,
                ));
            }
        }
    }
}

/// Where messages are neither merged nor spaced out and every call has a name and an
/// id, the conversation goes out as JSON message by message and block by block, each
/// in its place and nothing else: failed results as failures, thoughts with their
/// signatures, and without the images.
pub proof fn conversations_go_out_block_by_block(
    messages: Seq<MessageView>,
    compat: ProviderCompat,
    ids: Seq<Seq<char>>,
)
    requires
        calls_are_complete(messages),
        compat.messages.merge_same_role != Some(true),
        compat.messages.ensure_alternation != Some(true),
    ensures
        wire_messages(messages, compat, ids).map_values(|m: WireMessageView| message_json(m))
            == messages_sent(messages, compat, messages.len()),
{
    lemma_messages_sent(messages, compat, ids, messages.len());
    assert(messages.take(messages.len() as int) =~= messages);
}

// ---------------------------------------------------------------------------
// The calls that go out
// ---------------------------------------------------------------------------

/// The calls among some outgoing blocks.
pub open spec fn wire_uses(blocks: Seq<WireBlockView>) -> Seq<(Seq<char>, Seq<char>, JsonView)> {
    gathered(
        blocks,
        |b: WireBlockView|
            only_if(b is ToolUse, (b->ToolUse_id, b->ToolUse_name, b->ToolUse_input)),
    )
}

/// The calls of a request, in order.
pub open spec fn uses_made(ms: Seq<WireMessageView>) -> Seq<(Seq<char>, Seq<char>, JsonView)> {
    gathered(ms, |m: WireMessageView| wire_uses(m.content))
}

/// The calls of a conversation that go out, in order.
pub open spec fn uses_to_send(compat: ProviderCompat, messages: Seq<MessageView>) -> Seq<BlockView> {
    gathered(
        messages,
        |m: MessageView|
            if m.role != Role::System {
                sent_in(compat, m.content)
            } else {
                Seq::empty()
            },
    )
}

/// How the calls go out: under their own ids, or where they have none and ids are to
/// be given, under the next of them.
pub open spec fn uses_as_sent(
    compat: ProviderCompat,
    ids: Seq<Seq<char>>,
    calls: Seq<BlockView>,
) -> Seq<(Seq<char>, Seq<char>, JsonView)> {
    Seq::new(
        calls.len(),
        |k: int|
            (
                if calls[k]->ToolUse_id.len() == 0 && compat.tools.auto_tool_id == Some(true) {
                    ids[nameless(calls.take(k)).len() as int]
                } else {
                    calls[k]->ToolUse_id
                },
                calls[k]->ToolUse_name,
                calls[k]->ToolUse_input,
            ),
    )
}

proof fn lemma_uses_more(
    compat: ProviderCompat,
    ids: Seq<Seq<char>>,
    calls: Seq<BlockView>,
    b: BlockView,
)
    ensures
        uses_as_sent(compat, ids, calls.push(b)) == uses_as_sent(compat, ids, calls).push(
            uses_as_sent(compat, ids, calls.push(b))[calls.len() as int],
        ),
{
    let more = calls.push(b);
    assert forall|k: int| 0 <= k < calls.len() implies uses_as_sent(compat, ids, more)[k]
        == uses_as_sent(compat, ids, calls)[k] by {
        assert(more.take(k) =~= calls.take(k));
    }
    assert(uses_as_sent(compat, ids, more) =~= uses_as_sent(compat, ids, calls).push(
        uses_as_sent(compat, ids, more)[calls.len() as int],
    ));
}

proof fn lemma_uses_in(
    ledger: LedgerView,
    compat: ProviderCompat,
    ids: Seq<Seq<char>>,
    prior: Seq<BlockView>,
    blocks: Seq<BlockView>,
)
    requires
        rules_of(compat).auto_tool_id ==> ledger.drawn == nameless(prior).len(),
    ensures
        ({
            let acc = with_blocks(ledger, compat, ids, blocks);
            let sent = prior + sent_in(compat, blocks);
            &&& uses_as_sent(compat, ids, sent) == uses_as_sent(compat, ids, prior) + wire_uses(
                acc.content,
            )
            &&& rules_of(compat).auto_tool_id ==> acc.ledger.drawn == nameless(sent).len()
        }),
    decreases blocks.len(),
{
    let pick = |b: BlockView| only_if(goes_out(compat, b), b);
    let own = |b: BlockView| only_if(b->ToolUse_id.len() == 0, b);
    let give = |b: WireBlockView|
        only_if(b is ToolUse, (b->ToolUse_id, b->ToolUse_name, b->ToolUse_input));
    let acc = with_blocks(ledger, compat, ids, blocks);
    if blocks.len() == 0 {
        assert(prior + sent_in(compat, blocks) =~= prior);
        assert(acc.content =~= Seq::empty());
        assert(uses_as_sent(compat, ids, prior) + wire_uses(acc.content) =~= uses_as_sent(
            compat,
            ids,
            prior,
        ));
    } else {
        let front = blocks.drop_last();
        let b = blocks.last();
        lemma_uses_in(ledger, compat, ids, prior, front);
        let before = with_blocks(ledger, compat, ids, front);
        let sent = prior + sent_in(compat, front);
        gathered_by_last(blocks, pick);
        assert(sent_in(compat, blocks) == sent_in(compat, front) + pick(b));
        if acc.content.len() > before.content.len() {
            assert(acc.content =~= before.content.push(acc.content.last()));
            gathered_of_more(before.content, acc.content.last(), give);
        }
        if goes_out(compat, b) {
            assert(prior + sent_in(compat, blocks) =~= sent.push(b));
            lemma_uses_more(compat, ids, sent, b);
            gathered_of_more(sent, b, own);
            assert(sent.push(b).take(sent.len() as int) =~= sent);
            assert(wire_uses(acc.content) =~= wire_uses(before.content).push(
                uses_as_sent(compat, ids, sent.push(b))[sent.len() as int],
            ));
            assert(uses_as_sent(compat, ids, sent.push(b)) =~= uses_as_sent(compat, ids, prior)
                + wire_uses(acc.content));
        } else {
            assert(sent_in(compat, blocks) =~= sent_in(compat, front));
            assert(wire_uses(acc.content) =~= wire_uses(before.content));
        }
    }
}

proof fn lemma_uses_of_messages(
    messages: Seq<MessageView>,
    compat: ProviderCompat,
    ids: Seq<Seq<char>>,
)
    ensures
        ({
            let acc = with_messages(compat, ids, messages);
            let sent = uses_to_send(compat, messages);
            &&& uses_made(acc.out) == uses_as_sent(compat, ids, sent)
            &&& rules_of(compat).auto_tool_id ==> acc.ledger.drawn == nameless(sent).len()
        }),
    decreases messages.len(),
{
    let give = |m: WireMessageView| wire_uses(m.content);
    let each = |b: WireBlockView|
        only_if(b is ToolUse, (b->ToolUse_id, b->ToolUse_name, b->ToolUse_input));
    let pick = |m: MessageView|
        if m.role != Role::System {
            sent_in(compat, m.content)
        } else {
            Seq::empty()
        };
    if messages.len() == 0 {
        assert(uses_to_send(compat, messages) =~= Seq::empty());
        assert(uses_as_sent(compat, ids, Seq::empty()) =~= Seq::empty());
        assert(nameless(Seq::empty()) =~= Seq::empty());
    } else {
        let front = messages.drop_last();
        let m = messages.last();
        lemma_uses_of_messages(front, compat, ids);
        let before = with_messages(compat, ids, front);
        let after = with_messages(compat, ids, messages);
        let sent = uses_to_send(compat, front);
        gathered_by_last(messages, pick);
        if m.role != Role::System {
            lemma_uses_in(before.ledger, compat, ids, sent, m.content);
            let parts = with_blocks(before.ledger, compat, ids, m.content);
            let w = WireMessageView {
                role: speaker(m),
                content: or_text(parts.content, parts.placeholder),
            };
            assert(wire_uses(w.content) == wire_uses(parts.content)) by {
                if parts.content.len() == 0 && parts.placeholder is Some {
                    assert(parts.content =~= Seq::empty());
                    gathered_of_one(w.content[0], each);
                    assert(w.content =~= seq![w.content[0]]);
                    assert(wire_uses(w.content) =~= wire_uses(parts.content));
                }
            }
            let merge = setting(compat.messages.merge_same_role, false);
            if merge && before.out.len() > 0 && before.out.last().role == w.role {
                let last = before.out.last();
                let both = WireMessageView { role: w.role, content: last.content + w.content };
                gathered_by_last(before.out, give);
                gathered_of_more(before.out.drop_last(), both, give);
                gathered_of_both(last.content, w.content, each);
                assert(uses_made(after.out) =~= uses_made(before.out) + wire_uses(w.content));
            } else {
                gathered_of_more(before.out, w, give);
            }
        } else {
            assert(sent + pick(m) =~= sent);
        }
    }
}

proof fn lemma_spaced_adds_no_uses(ms: Seq<WireMessageView>)
    ensures
        uses_made(spaced(ms)) == uses_made(ms),
    decreases ms.len(),
{
    let give = |m: WireMessageView| wire_uses(m.content);
    if ms.len() > 0 {
        let rest = spaced(ms.drop_last());
        let m = ms.last();
        lemma_spaced_adds_no_uses(ms.drop_last());
        gathered_by_last(ms, give);
        if rest.len() > 0 && rest.last().role == m.role {
            let f = filler(other_role(m.role));
            lemma_filler_uses(f.role);
            gathered_of_more(rest, f, give);
            gathered_of_more(rest.push(f), m, give);
            assert(gathered(rest, give) + give(f) =~= gathered(rest, give));
        } else {
            gathered_of_more(rest, m, give);
        }
    }
}

proof fn lemma_filler_uses(role: WireRole)
    ensures
        wire_uses(filler(role).content) == Seq::<(Seq<char>, Seq<char>, JsonView)>::empty(),
{
    let each = |b: WireBlockView|
        only_if(b is ToolUse, (b->ToolUse_id, b->ToolUse_name, b->ToolUse_input));
    let b = filler(role).content[0];
    gathered_of_one(b, each);
    assert(filler(role).content =~= seq![b]);
}

/// Whatever is merged or spaced out, the calls of a request are those of the
/// conversation that can go out, in order, each with its own name, input and id.
pub proof fn calls_go_out_as_they_were_made(
    messages: Seq<MessageView>,
    compat: ProviderCompat,
    ids: Seq<Seq<char>>,
)
    ensures
        uses_made(wire_messages(messages, compat, ids)) == uses_as_sent(
            compat,
            ids,
            uses_to_send(compat, messages),
        ),
{
    let give = |m: WireMessageView| wire_uses(m.content);
    lemma_uses_of_messages(messages, compat, ids);
    let all = with_messages(compat, ids, messages).out;
    let f = filler(WireRole::User);
    lemma_spaced_adds_no_uses(all);
    lemma_spaced_adds_no_uses(seq![f] + all);
    lemma_filler_uses(WireRole::User);
    gathered_of_both(seq![f], all, give);
    gathered_of_one(f, give);
    assert(uses_made(seq![f] + all) =~= uses_made(all));
}

// ---------------------------------------------------------------------------
// Notes for what is left out
// ---------------------------------------------------------------------------

/// A result that does not go out leaves a note of why, for a message of which nothing
/// else is left; a note that is there already stays, and what goes out leaves none.
pub proof fn left_out_results_leave_a_note(
    acc: ContentAcc,
    compat: ProviderCompat,
    ids: Seq<Seq<char>>,
    id: Seq<char>,
    content: Seq<char>,
    is_error: bool,
)
    ensures
        ({
            let after = with_block(
                acc,
                compat,
                ids,
                BlockView::ToolResult { tool_use_id: id, content, is_error },
            );
            let fate = result_fate(acc.ledger, rules_of(compat), id);
            &&& acc.placeholder is Some ==> after.placeholder == acc.placeholder
            &&& fate is Sent ==> after.placeholder == acc.placeholder
            &&& !(fate is Sent) ==> after.content == acc.content
            &&& acc.placeholder is None && fate is Orphan ==> after.placeholder == Some(
                "[tool call skipped: malformed (orphan tool result).]"@,
            )
            &&& acc.placeholder is None && fate == ResultFate::Dropped(
                DroppedToolCallReason::EmptyName,
            ) ==> after.placeholder == Some("[tool call skipped: malformed (empty function name).]"@)
            &&& acc.placeholder is None && fate == ResultFate::Dropped(
                DroppedToolCallReason::EmptyId,
            ) ==> after.placeholder == Some("[tool call skipped: malformed (empty tool call id).]"@)
        }),
{
}

/// A note stands in a message only where nothing else does.
pub proof fn notes_stand_alone(content: Seq<WireBlockView>, note: Option<Seq<char>>)
    ensures
        content.len() > 0 ==> or_text(content, note) == content,
        content.len() == 0 && note is None ==> or_text(content, note).len() == 0,
        content.len() == 0 && note is Some ==> or_text(content, note) == seq![
            WireBlockView::Text { text: note->0 },
        ],
{
}

} // verus!
