//! What a chat request says of the conversation that it is made from.

use vstd::prelude::*;

use crate::compat::{setting, MessageCompat, ProviderCompat, ToolCompat};
use crate::json::{json_text, JsonView};
use crate::message::{BlockView, MessageView, Role};
use crate::openai::{
    answered_calls, answered_id, assistants_merged, call_json, chat_json, chat_messages, combined,
    deduplicated, has_results, has_thoughts, is_answered, latest, projected, superseded,
    system_messages, texts_of, thoughts_of, tool_message, with_calls, with_message, with_messages,
    with_results, without_orphan_calls, without_orphans, CallView, ChatAcc, ChatRole, ChatView,
};
use crate::sequences::{
    gathered, gathered_alike, gathered_by_last, gathered_nothing, gathered_of_both,
    gathered_of_more, gathered_of_one, only_if,
};
use crate::text::join;
use crate::tool_call_sanitize::{dropped_line, DroppedToolCallReason};
use crate::tool_ids::{empty_ledger, first_entry, rules_of, LedgerView, ToolIdRules};
use crate::wire::stripped_text;

verus! {

broadcast use vstd::string::group_string_axioms;

// ---------------------------------------------------------------------------
// What is in a conversation
// ---------------------------------------------------------------------------

/// The texts of a message, in order.
pub open spec fn texts_in(m: MessageView) -> Seq<Seq<char>> {
    gathered(m.content, |b: BlockView| only_if(b is Text, b->Text_text))
}

/// The thoughts of a message, one after the other.
pub open spec fn thoughts_in(m: MessageView) -> Seq<char> {
    gathered(
        m.content,
        |b: BlockView|
            if b is Thinking {
                b->thinking
            } else {
                Seq::empty()
            },
    )
}

/// A user message that answers no call: what the user said.
pub open spec fn is_spoken(m: MessageView) -> bool {
    m.role == Role::User && forall|j: int|
        0 <= j < m.content.len() ==> !((#[trigger] m.content[j]) is ToolResult)
}

/// A call that cannot go out, by the settings, and why.
pub open spec fn why_malformed(compat: ProviderCompat, b: BlockView) -> Option<
    DroppedToolCallReason,
> {
    if !setting(compat.tools.sanitize_malformed_tool_calls, false) || !(b is ToolUse) {
        None
    } else if b->ToolUse_name.len() == 0 {
        Some(DroppedToolCallReason::EmptyName)
    } else if b->ToolUse_id.len() == 0 && !setting(compat.tools.auto_tool_id, false) {
        Some(DroppedToolCallReason::EmptyId)
    } else {
        None
    }
}

/// A call that goes out.
pub open spec fn goes_out(compat: ProviderCompat, b: BlockView) -> bool {
    b is ToolUse && why_malformed(compat, b) is None
}

/// What an assistant message says: its texts and a line for each call that cannot
/// go out, with blank lines between.
pub open spec fn assistant_words(compat: ProviderCompat, m: MessageView) -> Seq<char> {
    let text = stripped_text(join(texts_in(m), ""@), compat);
    let lines = gathered(
        m.content,
        |b: BlockView|
            only_if(
                why_malformed(compat, b) is Some,
                dropped_line(why_malformed(compat, b).unwrap(), b->ToolUse_input),
            ),
    );
    join(only_if(text.len() > 0, text) + lines, "\n\n"@)
}

/// A message as JSON with a role and a text, and nothing else.
pub open spec fn said_json(role: Seq<char>, text: Seq<char>) -> JsonView {
    JsonView::Object(
        Map::new(
            |k: Seq<char>| k == "role"@ || k == "content"@,
            |k: Seq<char>|
                JsonView::String(
                    if k == "role"@ {
                        role
                    } else {
                        text
                    },
                ),
        ),
    )
}

// ---------------------------------------------------------------------------
// What is in a request
// ---------------------------------------------------------------------------

/// The messages of the user in a request, as JSON.
pub open spec fn user_lines(ms: Seq<ChatView>) -> Seq<JsonView> {
    gathered(ms, |c: ChatView| only_if(c.role == ChatRole::User, chat_json(c)))
}

/// What the assistant messages of a request say, one after the other.
pub open spec fn assistant_said(ms: Seq<ChatView>) -> Seq<char> {
    gathered(
        ms,
        |c: ChatView|
            if c.role == ChatRole::Assistant {
                setting(c.content, Seq::empty())
            } else {
                Seq::empty()
            },
    )
}

/// What the assistant messages of a request think, one after the other.
pub open spec fn assistant_thought(ms: Seq<ChatView>) -> Seq<char> {
    gathered(
        ms,
        |c: ChatView|
            if c.role == ChatRole::Assistant {
                setting(c.reasoning_content, Seq::empty())
            } else {
                Seq::empty()
            },
    )
}

/// The calls of a request, in order.
pub open spec fn calls_made(ms: Seq<ChatView>) -> Seq<CallView> {
    gathered(
        ms,
        |c: ChatView|
            if c.role == ChatRole::Assistant {
                c.tool_calls
            } else {
                Seq::empty()
            },
    )
}

// ---------------------------------------------------------------------------
// The clean-up keeps what is said
// ---------------------------------------------------------------------------

/// What a message gives does not change when tool messages are dropped, calls are
/// taken away or assistant messages are merged.
spec fn survives<T>(give: spec_fn(ChatView) -> Seq<T>) -> bool {
    &&& forall|c: ChatView| c.role == ChatRole::Tool ==> (#[trigger] give(c)).len() == 0
    &&& forall|ms: Seq<ChatView>, c: ChatView, retain: bool|
        give(#[trigger] without_orphans(ms, c, retain)) == give(c)
    &&& forall|a: ChatView, b: ChatView|
        a.role == ChatRole::Assistant && b.role == ChatRole::Assistant ==> give(
            #[trigger] combined(a, b),
        ) == give(a) + give(b)
}

proof fn lemma_latest_survives<T>(ms: Seq<ChatView>, n: nat, give: spec_fn(ChatView) -> Seq<T>)
    requires
        n <= ms.len(),
        forall|c: ChatView| c.role == ChatRole::Tool ==> (#[trigger] give(c)).len() == 0,
    ensures
        gathered(latest(ms, n), give) == gathered(ms.take(n as int), give),
    decreases n,
{
    if n > 0 {
        lemma_latest_survives(ms, (n - 1) as nat, give);
        let m = ms[n - 1];
        assert(ms.take(n as int) =~= ms.take(n - 1).push(m));
        gathered_of_more(ms.take(n - 1), m, give);
        if superseded(ms, n - 1) {
            assert(give(m).len() == 0);
            assert(gathered(ms.take(n - 1), give) + give(m) =~= gathered(ms.take(n - 1), give));
        } else {
            gathered_of_more(latest(ms, (n - 1) as nat), m, give);
        }
    } else {
        assert(ms.take(0) =~= Seq::empty());
    }
}

proof fn lemma_merge_survives<T>(ms: Seq<ChatView>, give: spec_fn(ChatView) -> Seq<T>)
    requires
        forall|a: ChatView, b: ChatView|
            a.role == ChatRole::Assistant && b.role == ChatRole::Assistant ==> give(
                #[trigger] combined(a, b),
            ) == give(a) + give(b),
    ensures
        gathered(assistants_merged(ms), give) == gathered(ms, give),
    decreases ms.len(),
{
    if ms.len() > 0 {
        let front = ms.drop_last();
        let m = ms.last();
        lemma_merge_survives(front, give);
        gathered_by_last(ms, give);
        let rest = assistants_merged(front);
        if rest.len() > 0 && rest.last().role == ChatRole::Assistant && m.role
            == ChatRole::Assistant {
            gathered_by_last(rest, give);
            gathered_of_more(rest.drop_last(), combined(rest.last(), m), give);
            assert(gathered(rest.drop_last(), give) + (give(rest.last()) + give(m)) =~= gathered(
                rest.drop_last(),
                give,
            ) + give(rest.last()) + give(m));
        } else {
            gathered_of_more(rest, m, give);
        }
    } else {
        assert(assistants_merged(ms) =~= ms);
    }
}

proof fn lemma_clean_up_survives<T>(
    messages: Seq<MessageView>,
    system: Seq<char>,
    compat: ProviderCompat,
    ids: Seq<Seq<char>>,
    give: spec_fn(ChatView) -> Seq<T>,
)
    requires
        survives(give),
    ensures
        gathered(chat_messages(messages, system, compat, ids), give) == gathered(
            projected(messages, system, compat, ids).out,
            give,
        ),
{
    let all = projected(messages, system, compat, ids).out;
    lemma_latest_survives(all, all.len(), give);
    assert(all.take(all.len() as int) =~= all);
    let unique = if setting(compat.messages.dedup_tool_results, false) {
        deduplicated(all)
    } else {
        all
    };
    let retain = !rules_of(compat).sanitize;
    let clean = without_orphan_calls(unique, retain);
    assert forall|i: int| 0 <= i < clean.len() implies give(#[trigger] clean[i]) == give(
        unique[i],
    ) by {
        assert(clean[i] == without_orphans(unique, unique[i], retain));
    }
    gathered_alike(clean, unique, give, give);
    lemma_merge_survives(unique, give);
    lemma_merge_survives(clean, give);
}

// ---------------------------------------------------------------------------
// What each message of the conversation gives
// ---------------------------------------------------------------------------

proof fn lemma_texts(blocks: Seq<BlockView>)
    ensures
        texts_of(blocks) == gathered(blocks, |b: BlockView| only_if(b is Text, b->Text_text)),
    decreases blocks.len(),
{
    let give = |b: BlockView| only_if(b is Text, b->Text_text);
    if blocks.len() > 0 {
        lemma_texts(blocks.drop_last());
        gathered_by_last(blocks, give);
        assert(texts_of(blocks) =~= texts_of(blocks.drop_last()) + give(blocks.last()));
    }
}

proof fn lemma_thoughts(blocks: Seq<BlockView>)
    ensures
        join(thoughts_of(blocks), ""@) == gathered(
            blocks,
            |b: BlockView|
                if b is Thinking {
                    b->thinking
                } else {
                    Seq::empty()
                },
        ),
    decreases blocks.len(),
{
    let give = |b: BlockView|
        if b is Thinking {
            b->thinking
        } else {
            Seq::empty()
        };
    reveal_strlit("");
    if blocks.len() > 0 {
        let front = blocks.drop_last();
        lemma_thoughts(front);
        gathered_by_last(blocks, give);
        let t = thoughts_of(front);
        if blocks.last() is Thinking {
            let last = blocks.last()->thinking;
            assert(t.push(last).drop_last() =~= t);
            assert(join(t.push(last), ""@) =~= join(t, ""@) + last);
        } else {
            assert(gathered(front, give) + give(blocks.last()) =~= gathered(front, give));
        }
    }
}

proof fn lemma_results_give_nothing<T>(
    acc: ChatAcc,
    rules: ToolIdRules,
    blocks: Seq<BlockView>,
    give: spec_fn(ChatView) -> Seq<T>,
)
    requires
        forall|c: ChatView| c.role == ChatRole::Tool ==> (#[trigger] give(c)).len() == 0,
    ensures
        gathered(with_results(acc, rules, blocks).out, give) == gathered(acc.out, give),
    decreases blocks.len(),
{
    if blocks.len() > 0 {
        lemma_results_give_nothing(acc, rules, blocks.drop_last(), give);
        let before = with_results(acc, rules, blocks.drop_last());
        let after = with_results(acc, rules, blocks);
        if after.out.len() > before.out.len() {
            let m = after.out.last();
            assert(after.out =~= before.out.push(m));
            gathered_of_more(before.out, m, give);
            assert(give(m).len() == 0);
            assert(gathered(before.out, give) + give(m) =~= gathered(before.out, give));
        }
    }
}

/// What the messages that a request has from one of the conversation give, tool
/// messages giving nothing, is what the message itself gives.
proof fn lemma_messages_give<T>(
    acc: ChatAcc,
    compat: ProviderCompat,
    ids: Seq<Seq<char>>,
    thoughts: bool,
    messages: Seq<MessageView>,
    give: spec_fn(ChatView) -> Seq<T>,
    source: spec_fn(MessageView) -> Seq<T>,
)
    requires
        forall|c: ChatView| c.role == ChatRole::Tool ==> (#[trigger] give(c)).len() == 0,
        forall|before: ChatAcc, k: int|
            0 <= k < messages.len() && (messages[k].role == Role::Assistant || is_spoken(
                messages[k],
            )) ==> give(
                (#[trigger] with_message(before, compat, ids, thoughts, messages[k])).out.last(),
            ) == source(messages[k]),
        forall|k: int|
            0 <= k < messages.len() && !((#[trigger] messages[k]).role == Role::Assistant
                || is_spoken(messages[k])) ==> source(messages[k]).len() == 0,
    ensures
        gathered(with_messages(acc, compat, ids, thoughts, messages).out, give) == gathered(
            acc.out,
            give,
        ) + gathered(messages, source),
    decreases messages.len(),
{
    if messages.len() > 0 {
        let front = messages.drop_last();
        let m = messages[messages.len() - 1];
        assert forall|before: ChatAcc, k: int|
            0 <= k < front.len() && (front[k].role == Role::Assistant || is_spoken(
                front[k],
            )) implies give(
            (#[trigger] with_message(before, compat, ids, thoughts, front[k])).out.last(),
        ) == source(front[k]) by {
            assert(front[k] == messages[k]);
            assert(give(with_message(before, compat, ids, thoughts, messages[k]).out.last())
                == source(messages[k]));
        }
        assert forall|k: int|
            0 <= k < front.len() && !((#[trigger] front[k]).role == Role::Assistant || is_spoken(
                front[k],
            )) implies source(front[k]).len() == 0 by {
            assert(front[k] == messages[k]);
        }
        lemma_messages_give(acc, compat, ids, thoughts, front, give, source);
        gathered_by_last(messages, source);
        let before = with_messages(acc, compat, ids, thoughts, front);
        let after = with_message(before, compat, ids, thoughts, m);
        let base = gathered(acc.out, give);
        assert(base + (gathered(front, source) + source(m)) =~= base + gathered(front, source)
            + source(m));
        if m.role == Role::Assistant || is_spoken(m) {
            if is_spoken(m) {
                assert(!has_results(m.content));
            }
            assert(after.out.drop_last() =~= before.out);
            gathered_by_last(after.out, give);
        } else {
            assert(source(m).len() == 0);
            assert(gathered(before.out, give) + source(m) =~= gathered(before.out, give));
            if m.role == Role::User {
                let j = choose|j: int|
                    0 <= j < m.content.len() && (#[trigger] m.content[j]) is ToolResult;
                assert(has_results(m.content));
            }
            lemma_results_give_nothing(before, rules_of(compat), m.content, give);
        }
    } else {
        assert(gathered(acc.out, give) + gathered(messages, source) =~= gathered(acc.out, give));
    }
}

proof fn lemma_system_gives_nothing<T>(system: Seq<char>, give: spec_fn(ChatView) -> Seq<T>)
    requires
        forall|c: ChatView| c.role == ChatRole::System ==> (#[trigger] give(c)).len() == 0,
    ensures
        gathered(system_messages(system), give) == Seq::<T>::empty(),
{
    gathered_nothing(system_messages(system), give);
}

proof fn lemma_said_json(c: ChatView, role: Seq<char>, text: Seq<char>)
    requires
        chat_json(c)->Object_0.dom() =~= set!["role"@, "content"@],
        chat_json(c).get("role"@) == Some(JsonView::String(role)),
        chat_json(c).get("content"@) == Some(JsonView::String(text)),
        chat_json(c) is Object,
    ensures
        chat_json(c) == said_json(role, text),
{
    assert(chat_json(c)->Object_0 =~= said_json(role, text)->Object_0);
}

/// The keys of a chat message are different.
proof fn lemma_keys()
    ensures
        "role"@ != "content"@,
        "role"@ != "reasoning_content"@,
        "role"@ != "tool_call_id"@,
        "role"@ != "tool_calls"@,
        "content"@ != "reasoning_content"@,
        "content"@ != "tool_call_id"@,
        "content"@ != "tool_calls"@,
        "reasoning_content"@ != "tool_call_id"@,
        "reasoning_content"@ != "tool_calls"@,
        "tool_call_id"@ != "tool_calls"@,
{
    reveal_strlit("role");
    reveal_strlit("content");
    reveal_strlit("reasoning_content");
    reveal_strlit("tool_call_id");
    reveal_strlit("tool_calls");
    assert("role"@.len() == 4);
    assert("content"@.len() == 7);
    assert("reasoning_content"@.len() == 17);
    assert("tool_call_id"@.len() == 12);
    assert("tool_calls"@.len() == 10);
}

/// Whatever stands before it, each message in which the user speaks goes out, in
/// order, as a user message with exactly its texts, a newline between them and the
/// configured patterns taken out; and no other user message goes out.
pub proof fn the_user_is_heard(
    messages: Seq<MessageView>,
    system: Seq<char>,
    compat: ProviderCompat,
    ids: Seq<Seq<char>>,
)
    ensures
        user_lines(chat_messages(messages, system, compat, ids)) == gathered(
            messages,
            |m: MessageView|
                only_if(
                    is_spoken(m),
                    said_json("user"@, stripped_text(join(texts_in(m), "\n"@), compat)),
                ),
        ),
{
    let give = |c: ChatView| only_if(c.role == ChatRole::User, chat_json(c));
    let source = |m: MessageView|
        only_if(
            is_spoken(m),
            said_json("user"@, stripped_text(join(texts_in(m), "\n"@), compat)),
        );
    let thoughts = has_thoughts(messages);
    let start = ChatAcc { ledger: empty_ledger(), out: system_messages(system) };
    assert(survives(give)) by {
        assert forall|a: ChatView, b: ChatView|
            a.role == ChatRole::Assistant && b.role == ChatRole::Assistant implies give(
            #[trigger] combined(a, b),
        ) == give(a) + give(b) by {
            assert(give(a) + give(b) =~= give(combined(a, b)));
        }
    }
    assert forall|before: ChatAcc, k: int|
        0 <= k < messages.len() && (messages[k].role == Role::Assistant || is_spoken(
            messages[k],
        )) implies give(
        (#[trigger] with_message(before, compat, ids, thoughts, messages[k])).out.last(),
    ) == source(messages[k]) by {
        let m = messages[k];
        let c = with_message(before, compat, ids, thoughts, m).out.last();
        if m.role == Role::User {
            assert(!has_results(m.content));
            lemma_texts(m.content);
            lemma_keys();
            lemma_said_json(c, "user"@, stripped_text(join(texts_in(m), "\n"@), compat));
        }
    }
    lemma_messages_give(start, compat, ids, thoughts, messages, give, source);
    lemma_system_gives_nothing(system, give);
    lemma_clean_up_survives(messages, system, compat, ids, give);
    let made = gathered(messages, source);
    assert(gathered(start.out, give) + made =~= made);
}

// ---------------------------------------------------------------------------
// What the assistant said
// ---------------------------------------------------------------------------

/// The calls of some blocks that go out.
pub open spec fn sent_in(compat: ProviderCompat, blocks: Seq<BlockView>) -> Seq<BlockView> {
    gathered(blocks, |b: BlockView| only_if(goes_out(compat, b), b))
}

/// The calls of a conversation that go out, in order.
pub open spec fn calls_to_send(compat: ProviderCompat, messages: Seq<MessageView>) -> Seq<BlockView> {
    gathered(
        messages,
        |m: MessageView|
            if m.role == Role::Assistant {
                sent_in(compat, m.content)
            } else {
                Seq::empty()
            },
    )
}

/// The calls among some that have no id of their own.
pub open spec fn nameless(calls: Seq<BlockView>) -> Seq<BlockView> {
    gathered(calls, |b: BlockView| only_if(b->ToolUse_id.len() == 0, b))
}

/// How a call goes out: under its own id, or where it has none and ids are to be
/// given, under the next of them; with its name, its input as JSON text and
/// whatever came with it.
pub open spec fn call_as_sent(
    compat: ProviderCompat,
    ids: Seq<Seq<char>>,
    calls: Seq<BlockView>,
    k: int,
) -> CallView {
    CallView {
        id: if calls[k]->ToolUse_id.len() == 0 && setting(compat.tools.auto_tool_id, false) {
            ids[nameless(calls.take(k)).len() as int]
        } else {
            calls[k]->ToolUse_id
        },
        name: calls[k]->ToolUse_name,
        arguments: json_text(calls[k]->ToolUse_input),
        extra: calls[k]->ToolUse_extra,
    }
}

pub open spec fn calls_as_sent(
    compat: ProviderCompat,
    ids: Seq<Seq<char>>,
    calls: Seq<BlockView>,
) -> Seq<CallView> {
    Seq::new(calls.len(), |k: int| call_as_sent(compat, ids, calls, k))
}

proof fn lemma_calls_more(
    compat: ProviderCompat,
    ids: Seq<Seq<char>>,
    calls: Seq<BlockView>,
    b: BlockView,
)
    ensures
        calls_as_sent(compat, ids, calls.push(b)) == calls_as_sent(compat, ids, calls).push(
            call_as_sent(compat, ids, calls.push(b), calls.len() as int),
        ),
{
    let more = calls.push(b);
    assert forall|k: int| 0 <= k < calls.len() implies call_as_sent(compat, ids, more, k)
        == call_as_sent(compat, ids, calls, k) by {
        assert(more.take(k) =~= calls.take(k));
    }
    assert(calls_as_sent(compat, ids, more) =~= calls_as_sent(compat, ids, calls).push(
        call_as_sent(compat, ids, more, calls.len() as int),
    ));
}

/// The lines and calls that a message adds to those before it.
proof fn lemma_calls_in(
    ledger: LedgerView,
    compat: ProviderCompat,
    ids: Seq<Seq<char>>,
    prior: Seq<BlockView>,
    blocks: Seq<BlockView>,
)
    requires
        rules_of(compat).auto_tool_id ==> ledger.drawn == nameless(prior).len(),
    ensures
        ({
            let parts = with_calls(ledger, rules_of(compat), ids, blocks);
            let sent = prior + sent_in(compat, blocks);
            &&& calls_as_sent(compat, ids, sent) == calls_as_sent(compat, ids, prior) + parts.calls
            &&& parts.calls.len() == sent_in(compat, blocks).len()
            &&& rules_of(compat).auto_tool_id ==> parts.ledger.drawn == nameless(sent).len()
            &&& parts.lines == gathered(
                blocks,
                |b: BlockView|
                    only_if(
                        why_malformed(compat, b) is Some,
                        dropped_line(why_malformed(compat, b).unwrap(), b->ToolUse_input),
                    ),
            )
        }),
    decreases blocks.len(),
{
    let rules = rules_of(compat);
    let line = |b: BlockView|
        only_if(
            why_malformed(compat, b) is Some,
            dropped_line(why_malformed(compat, b).unwrap(), b->ToolUse_input),
        );
    let pick = |b: BlockView| only_if(goes_out(compat, b), b);
    let own = |b: BlockView| only_if(b->ToolUse_id.len() == 0, b);
    let parts = with_calls(ledger, rules, ids, blocks);
    if blocks.len() == 0 {
        assert(prior + sent_in(compat, blocks) =~= prior);
        assert(calls_as_sent(compat, ids, prior) + parts.calls =~= calls_as_sent(
            compat,
            ids,
            prior,
        ));
    } else {
        let front = blocks.drop_last();
        let b = blocks.last();
        lemma_calls_in(ledger, compat, ids, prior, front);
        let before = with_calls(ledger, rules, ids, front);
        let sent = prior + sent_in(compat, front);
        gathered_by_last(blocks, line);
        gathered_by_last(blocks, pick);
        assert(sent_in(compat, blocks) == sent_in(compat, front) + pick(b));
        if goes_out(compat, b) {
            assert(prior + sent_in(compat, blocks) =~= sent.push(b));
            lemma_calls_more(compat, ids, sent, b);
            gathered_of_more(sent, b, own);
            assert(sent.push(b).take(sent.len() as int) =~= sent);
            let call = call_as_sent(compat, ids, sent.push(b), sent.len() as int);
            assert(parts.calls == before.calls.push(call));
            assert(calls_as_sent(compat, ids, sent.push(b)) =~= calls_as_sent(compat, ids, prior)
                + parts.calls);
            assert(gathered(front, line) + line(b) =~= gathered(front, line));
        } else {
            assert(sent_in(compat, blocks) =~= sent_in(compat, front));
            if b is ToolUse {
                assert(parts.lines =~= before.lines + line(b));
            } else {
                assert(gathered(front, line) + line(b) =~= gathered(front, line));
            }
        }
    }
}

proof fn lemma_results_draw_nothing(acc: ChatAcc, rules: ToolIdRules, blocks: Seq<BlockView>)
    ensures
        with_results(acc, rules, blocks).ledger.drawn == acc.ledger.drawn,
    decreases blocks.len(),
{
    if blocks.len() > 0 {
        lemma_results_draw_nothing(acc, rules, blocks.drop_last());
    }
}

proof fn lemma_calls_of_messages(
    messages: Seq<MessageView>,
    system: Seq<char>,
    compat: ProviderCompat,
    ids: Seq<Seq<char>>,
    thoughts: bool,
)
    ensures
        ({
            let start = ChatAcc { ledger: empty_ledger(), out: system_messages(system) };
            let acc = with_messages(start, compat, ids, thoughts, messages);
            let sent = calls_to_send(compat, messages);
            &&& calls_made(acc.out) == calls_as_sent(compat, ids, sent)
            &&& rules_of(compat).auto_tool_id ==> acc.ledger.drawn == nameless(sent).len()
        }),
    decreases messages.len(),
{
    let start = ChatAcc { ledger: empty_ledger(), out: system_messages(system) };
    let give = |c: ChatView|
        if c.role == ChatRole::Assistant {
            c.tool_calls
        } else {
            Seq::empty()
        };
    let pick = |m: MessageView|
        if m.role == Role::Assistant {
            sent_in(compat, m.content)
        } else {
            Seq::empty()
        };
    if messages.len() == 0 {
        lemma_system_gives_nothing(system, give);
        assert(calls_to_send(compat, messages) =~= Seq::empty());
        assert(calls_as_sent(compat, ids, Seq::empty()) =~= Seq::empty());
        assert(nameless(Seq::empty()) =~= Seq::empty());
    } else {
        let front = messages.drop_last();
        let m = messages.last();
        lemma_calls_of_messages(front, system, compat, ids, thoughts);
        let before = with_messages(start, compat, ids, thoughts, front);
        let after = with_message(before, compat, ids, thoughts, m);
        let sent = calls_to_send(compat, front);
        gathered_by_last(messages, pick);
        if m.role == Role::Assistant {
            lemma_calls_in(before.ledger, compat, ids, sent, m.content);
            let c = after.out.last();
            assert(after.out =~= before.out.push(c));
            gathered_of_more(before.out, c, give);
        } else {
            assert(sent + pick(m) =~= sent);
            if m.role == Role::Tool || (m.role == Role::User && has_results(m.content)) {
                lemma_results_give_nothing(before, rules_of(compat), m.content, give);
                lemma_results_draw_nothing(before, rules_of(compat), m.content);
            } else if m.role == Role::User {
                let c = after.out.last();
                assert(after.out =~= before.out.push(c));
                gathered_of_more(before.out, c, give);
                assert(gathered(before.out, give) + give(c) =~= gathered(before.out, give));
            }
        }
    }
}

/// Whatever is merged or cleaned up, what the assistant messages of a request say,
/// taken together, is what the assistant messages of the conversation say.
pub proof fn the_assistant_is_quoted(
    messages: Seq<MessageView>,
    system: Seq<char>,
    compat: ProviderCompat,
    ids: Seq<Seq<char>>,
)
    ensures
        assistant_said(chat_messages(messages, system, compat, ids)) == gathered(
            messages,
            |m: MessageView|
                if m.role == Role::Assistant {
                    assistant_words(compat, m)
                } else {
                    Seq::empty()
                },
        ),
{
    let give = |c: ChatView|
        if c.role == ChatRole::Assistant {
            setting(c.content, Seq::empty())
        } else {
            Seq::empty()
        };
    let source = |m: MessageView|
        if m.role == Role::Assistant {
            assistant_words(compat, m)
        } else {
            Seq::empty()
        };
    let thoughts = has_thoughts(messages);
    let start = ChatAcc { ledger: empty_ledger(), out: system_messages(system) };
    assert(survives(give)) by {
        assert forall|a: ChatView, b: ChatView|
            a.role == ChatRole::Assistant && b.role == ChatRole::Assistant implies give(
            #[trigger] combined(a, b),
        ) == give(a) + give(b) by {
            assert(give(a) + give(b) =~= give(combined(a, b)));
        }
    }
    assert forall|before: ChatAcc, k: int|
        0 <= k < messages.len() && (messages[k].role == Role::Assistant || is_spoken(
            messages[k],
        )) implies give(
        (#[trigger] with_message(before, compat, ids, thoughts, messages[k])).out.last(),
    ) == source(messages[k]) by {
        lemma_assistant_message(before, compat, ids, thoughts, messages[k]);
    }
    lemma_messages_give(start, compat, ids, thoughts, messages, give, source);
    lemma_system_gives_nothing(system, give);
    lemma_clean_up_survives(messages, system, compat, ids, give);
    let made = gathered(messages, source);
    assert(gathered(start.out, give) + made =~= made);
}

/// What an assistant message becomes, apart from the ids of its calls.
proof fn lemma_assistant_message(
    before: ChatAcc,
    compat: ProviderCompat,
    ids: Seq<Seq<char>>,
    thoughts: bool,
    m: MessageView,
)
    requires
        m.role == Role::Assistant || is_spoken(m),
    ensures
        ({
            let c = with_message(before, compat, ids, thoughts, m).out.last();
            if m.role == Role::Assistant {
                let words = assistant_words(compat, m);
                &&& c.role == ChatRole::Assistant
                &&& c.content == (if words.len() > 0 {
                    Some(words)
                } else if sent_in(compat, m.content).len() == 0 {
                    Some(Seq::<char>::empty())
                } else {
                    None
                })
                &&& c.reasoning_content == (if thoughts {
                    Some(thoughts_in(m))
                } else {
                    None
                })
                &&& c.tool_calls.len() == sent_in(compat, m.content).len()
                &&& c.tool_call_id is None
            } else {
                c.role == ChatRole::User
            }
        }),
{
    if m.role == Role::Assistant {
        let parts = with_calls(before.ledger, rules_of(compat), ids, m.content);
        lemma_lines_and_calls(before.ledger, compat, ids, m.content);
        lemma_texts(m.content);
        lemma_thoughts(m.content);
        let text = stripped_text(join(texts_in(m), ""@), compat);
        assert(only_if(text.len() > 0, text) + parts.lines =~= if text.len() == 0 {
            parts.lines
        } else {
            seq![text] + parts.lines
        });
        let words = assistant_words(compat, m);
        assert(words.len() == 0 ==> words =~= Seq::empty());
    } else {
        assert(!has_results(m.content));
    }
}

proof fn lemma_lines_and_calls(
    ledger: LedgerView,
    compat: ProviderCompat,
    ids: Seq<Seq<char>>,
    blocks: Seq<BlockView>,
)
    ensures
        ({
            let parts = with_calls(ledger, rules_of(compat), ids, blocks);
            &&& parts.calls.len() == sent_in(compat, blocks).len()
            &&& forall|k: int|
                0 <= k < parts.calls.len() ==> {
                    let b = sent_in(compat, blocks)[k];
                    &&& (#[trigger] parts.calls[k]).name == b->ToolUse_name
                    &&& parts.calls[k].arguments == json_text(b->ToolUse_input)
                    &&& parts.calls[k].extra == b->ToolUse_extra
                    &&& b->ToolUse_id.len() > 0 ==> parts.calls[k].id == b->ToolUse_id
                }
            &&& parts.lines == gathered(
                blocks,
                |b: BlockView|
                    only_if(
                        why_malformed(compat, b) is Some,
                        dropped_line(why_malformed(compat, b).unwrap(), b->ToolUse_input),
                    ),
            )
        }),
    decreases blocks.len(),
{
    let rules = rules_of(compat);
    let line = |b: BlockView|
        only_if(
            why_malformed(compat, b) is Some,
            dropped_line(why_malformed(compat, b).unwrap(), b->ToolUse_input),
        );
    let pick = |b: BlockView| only_if(goes_out(compat, b), b);
    if blocks.len() > 0 {
        let front = blocks.drop_last();
        let b = blocks.last();
        lemma_lines_and_calls(ledger, compat, ids, front);
        let before = with_calls(ledger, rules, ids, front);
        let parts = with_calls(ledger, rules, ids, blocks);
        gathered_by_last(blocks, line);
        gathered_by_last(blocks, pick);
        assert(sent_in(compat, blocks) == sent_in(compat, front) + pick(b));
        if goes_out(compat, b) {
            assert(gathered(front, line) + line(b) =~= gathered(front, line));
            assert(sent_in(compat, blocks) =~= sent_in(compat, front).push(b));
        } else {
            assert(sent_in(compat, blocks) =~= sent_in(compat, front));
            if b is ToolUse {
                assert(parts.lines =~= before.lines + line(b));
            } else {
                assert(gathered(front, line) + line(b) =~= gathered(front, line));
            }
        }
    }
}

/// Whatever is merged or cleaned up, what the assistant messages of a request
/// think, taken together, is what those of the conversation think.
pub proof fn thoughts_are_kept(
    messages: Seq<MessageView>,
    system: Seq<char>,
    compat: ProviderCompat,
    ids: Seq<Seq<char>>,
)
    ensures
        assistant_thought(chat_messages(messages, system, compat, ids)) == gathered(
            messages,
            |m: MessageView|
                if m.role == Role::Assistant {
                    thoughts_in(m)
                } else {
                    Seq::empty()
                },
        ),
{
    let give = |c: ChatView|
        if c.role == ChatRole::Assistant {
            setting(c.reasoning_content, Seq::empty())
        } else {
            Seq::empty()
        };
    let source = |m: MessageView|
        if m.role == Role::Assistant {
            thoughts_in(m)
        } else {
            Seq::empty()
        };
    let thoughts = has_thoughts(messages);
    let start = ChatAcc { ledger: empty_ledger(), out: system_messages(system) };
    assert(survives(give)) by {
        assert forall|a: ChatView, b: ChatView|
            a.role == ChatRole::Assistant && b.role == ChatRole::Assistant implies give(
            #[trigger] combined(a, b),
        ) == give(a) + give(b) by {
            assert(give(a) + give(b) =~= give(combined(a, b)));
        }
    }
    assert forall|before: ChatAcc, k: int|
        0 <= k < messages.len() && (messages[k].role == Role::Assistant || is_spoken(
            messages[k],
        )) implies give(
        (#[trigger] with_message(before, compat, ids, thoughts, messages[k])).out.last(),
    ) == source(messages[k]) by {
        let m = messages[k];
        lemma_assistant_message(before, compat, ids, thoughts, m);
        if m.role == Role::Assistant && !thoughts {
            let think = |b: BlockView|
                if b is Thinking {
                    b->thinking
                } else {
                    Seq::empty()
                };
            assert forall|j: int| 0 <= j < m.content.len() implies think(
                #[trigger] m.content[j],
            ).len() == 0 by {
                assert(messages[k].content[j] == m.content[j]);
            }
            gathered_nothing(m.content, think);
        }
    }
    lemma_messages_give(start, compat, ids, thoughts, messages, give, source);
    lemma_system_gives_nothing(system, give);
    lemma_clean_up_survives(messages, system, compat, ids, give);
    let made = gathered(messages, source);
    assert(gathered(start.out, give) + made =~= made);
}

// ---------------------------------------------------------------------------
// The calls that go out
// ---------------------------------------------------------------------------

/// The ids that the tool messages of a request answer.
pub open spec fn ids_answered(ms: Seq<ChatView>) -> Seq<Seq<char>> {
    gathered(
        ms,
        |c: ChatView|
            only_if(c.role == ChatRole::Tool && c.tool_call_id is Some, c.tool_call_id.unwrap()),
    )
}

proof fn lemma_ids_answered(ms: Seq<ChatView>, id: Seq<char>)
    ensures
        ids_answered(ms).contains(id) <==> is_answered(ms, id),
    decreases ms.len(),
{
    let give = |c: ChatView|
        only_if(c.role == ChatRole::Tool && c.tool_call_id is Some, c.tool_call_id.unwrap());
    if ms.len() > 0 {
        let front = ms.drop_last();
        let c = ms.last();
        lemma_ids_answered(front, id);
        gathered_by_last(ms, give);
        let x = gathered(front, give);
        let y = give(c);
        if is_answered(ms, id) {
            let j = choose|j: int|
                0 <= j < ms.len() && answered_id(#[trigger] ms[j]) == Some(id);
            if j < front.len() {
                assert(answered_id(front[j]) == Some(id));
                let p = choose|p: int| 0 <= p < x.len() && x[p] == id;
                assert((x + y)[p] == id);
            } else {
                assert((x + y)[x.len() as int] == id);
            }
        }
        if ids_answered(ms).contains(id) {
            let p = choose|p: int| 0 <= p < (x + y).len() && (x + y)[p] == id;
            if p < x.len() {
                assert(x[p] == id);
                assert(is_answered(front, id));
                let j = choose|j: int|
                    0 <= j < front.len() && answered_id(#[trigger] front[j]) == Some(
                        id,
                    );
                assert(answered_id(ms[j]) == Some(id));
            } else {
                assert(answered_id(ms[ms.len() - 1]) == Some(id));
            }
        }
    }
}

proof fn lemma_kept_calls(ms: Seq<ChatView>, calls: Seq<CallView>, retain: bool)
    ensures
        answered_calls(ms, calls, retain) == gathered(
            calls,
            |k: CallView|
                only_if((retain && k.name.len() == 0) || ids_answered(ms).contains(k.id), k),
        ),
    decreases calls.len(),
{
    let keep = |k: CallView|
        only_if((retain && k.name.len() == 0) || ids_answered(ms).contains(k.id), k);
    if calls.len() > 0 {
        lemma_kept_calls(ms, calls.drop_last(), retain);
        gathered_by_last(calls, keep);
        lemma_ids_answered(ms, calls.last().id);
        assert(answered_calls(ms, calls, retain) =~= answered_calls(ms, calls.drop_last(), retain)
            + keep(calls.last()));
    }
}

proof fn lemma_clean_calls(unique: Seq<ChatView>, ms: Seq<ChatView>, retain: bool)
    ensures
        ({
            let keep = |k: CallView|
                only_if((retain && k.name.len() == 0) || ids_answered(unique).contains(k.id), k);
            calls_made(Seq::new(ms.len(), |i: int| without_orphans(unique, ms[i], retain)))
                == gathered(calls_made(ms), keep)
        }),
    decreases ms.len(),
{
    let keep = |k: CallView|
        only_if((retain && k.name.len() == 0) || ids_answered(unique).contains(k.id), k);
    let give = |c: ChatView|
        if c.role == ChatRole::Assistant {
            c.tool_calls
        } else {
            Seq::empty()
        };
    let clean = Seq::new(ms.len(), |i: int| without_orphans(unique, ms[i], retain));
    if ms.len() > 0 {
        let front = ms.drop_last();
        let c = ms.last();
        lemma_clean_calls(unique, front, retain);
        gathered_by_last(ms, give);
        gathered_of_both(calls_made(front), give(c), keep);
        assert(clean.drop_last() =~= Seq::new(
            front.len(),
            |i: int| without_orphans(unique, front[i], retain),
        ));
        gathered_by_last(clean, give);
        lemma_kept_calls(unique, c.tool_calls, retain);
        if c.role == ChatRole::Assistant && c.tool_calls.len() == 0 {
            assert(gathered(c.tool_calls, keep) =~= Seq::empty());
            assert(give(clean.last()) =~= gathered(give(c), keep));
        } else {
            assert(give(clean.last()) =~= gathered(give(c), keep));
        }
    } else {
        assert(calls_made(clean) =~= Seq::empty());
        assert(gathered(calls_made(ms), keep) =~= Seq::empty());
    }
}

/// Whether a call of a request stays when orphans are cleaned up: it is answered in
/// the request, or it has no name and malformed calls are not sanitized.
pub open spec fn call_stays(compat: ProviderCompat, request: Seq<ChatView>, call: CallView) -> bool {
    ||| !setting(compat.tools.clean_orphan_tool_calls, false)
    ||| !setting(compat.tools.sanitize_malformed_tool_calls, false) && call.name.len() == 0
    ||| ids_answered(request).contains(call.id)
}

/// The calls of a request are those of the conversation that can go out, in order,
/// each with its own name, input, id and extra, less those that nothing answers
/// where orphans are cleaned up.
pub proof fn calls_go_out_as_they_were_made(
    messages: Seq<MessageView>,
    system: Seq<char>,
    compat: ProviderCompat,
    ids: Seq<Seq<char>>,
)
    ensures
        ({
            let request = chat_messages(messages, system, compat, ids);
            calls_made(request) == gathered(
                calls_as_sent(compat, ids, calls_to_send(compat, messages)),
                |k: CallView| only_if(call_stays(compat, request, k), k),
            )
        }),
{
    let request = chat_messages(messages, system, compat, ids);
    let thoughts = has_thoughts(messages);
    let all = projected(messages, system, compat, ids).out;
    let sent = calls_as_sent(compat, ids, calls_to_send(compat, messages));
    lemma_calls_of_messages(messages, system, compat, ids, thoughts);
    let give = |c: ChatView|
        if c.role == ChatRole::Assistant {
            c.tool_calls
        } else {
            Seq::empty()
        };
    let answer = |c: ChatView|
        only_if(c.role == ChatRole::Tool && c.tool_call_id is Some, c.tool_call_id.unwrap());
    lemma_latest_survives(all, all.len(), give);
    assert(all.take(all.len() as int) =~= all);
    let unique = if setting(compat.messages.dedup_tool_results, false) {
        deduplicated(all)
    } else {
        all
    };
    let retain = !rules_of(compat).sanitize;
    let clean = without_orphan_calls(unique, retain);
    let cleans = setting(compat.tools.clean_orphan_tool_calls, false);
    let answered = if cleans {
        clean
    } else {
        unique
    };
    lemma_clean_calls(unique, unique, retain);
    gathered_alike(clean, unique, answer, answer);
    assert forall|a: ChatView, b: ChatView|
        a.role == ChatRole::Assistant && b.role == ChatRole::Assistant implies answer(
        #[trigger] combined(a, b),
    ) == answer(a) + answer(b) by {
        assert(answer(a) + answer(b) =~= answer(combined(a, b)));
    }
    lemma_merge_survives(answered, answer);
    lemma_merge_survives(answered, give);
    assert(ids_answered(request) == ids_answered(unique));
    let keep = |k: CallView| only_if(call_stays(compat, request, k), k);
    if cleans {
        let kept = |k: CallView|
            only_if((retain && k.name.len() == 0) || ids_answered(unique).contains(k.id), k);
        gathered_alike(sent, sent, kept, keep);
    } else {
        lemma_gathered_all(sent, keep);
    }
}

proof fn lemma_gathered_all<T>(s: Seq<T>, give: spec_fn(T) -> Seq<T>)
    requires
        forall|i: int| 0 <= i < s.len() ==> give(#[trigger] s[i]) == seq![s[i]],
    ensures
        gathered(s, give) == s,
    decreases s.len(),
{
    if s.len() > 0 {
        assert forall|i: int| 0 <= i < s.skip(1).len() implies give(#[trigger] s.skip(1)[i])
            == seq![s.skip(1)[i]] by {
            assert(give(s[i + 1]) == seq![s[i + 1]]);
        }
        lemma_gathered_all(s.skip(1), give);
        assert(give(s[0]) == seq![s[0]]);
        assert(gathered(s, give) =~= s);
    } else {
        assert(gathered(s, give) =~= s);
    }
}

// ---------------------------------------------------------------------------
// The whole conversation, message by message
// ---------------------------------------------------------------------------

/// Every call has a name and an id.
pub open spec fn calls_are_complete(messages: Seq<MessageView>) -> bool {
    forall|i: int, j: int|
        0 <= i < messages.len() && 0 <= j < messages[i].content.len() && (
        #[trigger] messages[i].content[j]) is ToolUse ==> messages[i].content[j]->ToolUse_id.len()
            > 0 && messages[i].content[j]->ToolUse_name.len() > 0
}

/// An assistant message before the one at `i` makes a call with this id.
pub open spec fn called_before(messages: Seq<MessageView>, i: int, id: Seq<char>) -> bool {
    exists|k: int, j: int|
        0 <= k < i && k < messages.len() && messages[k].role == Role::Assistant && 0 <= j
            < messages[k].content.len() && (#[trigger] messages[k].content[j]) is ToolUse
            && messages[k].content[j]->ToolUse_id == id
}

/// An object with these members, where they have a value.
pub open spec fn object_of(members: spec_fn(Seq<char>) -> Option<JsonView>) -> JsonView {
    JsonView::Object(
        Map::new(|k: Seq<char>| members(k) is Some, |k: Seq<char>| members(k).unwrap()),
    )
}

/// An object with just the members that it is to have is the object of them.
pub proof fn objects_are_their_members(
    m: Map<Seq<char>, JsonView>,
    members: spec_fn(Seq<char>) -> Option<JsonView>,
)
    requires
        forall|k: Seq<char>| #[trigger] m.contains_key(k) <==> members(k) is Some,
        forall|k: Seq<char>| #[trigger] m.contains_key(k) ==> members(k) == Some(m[k]),
    ensures
        JsonView::Object(m) == object_of(members),
{
    let y = object_of(members)->Object_0;
    assert(m.dom() =~= y.dom());
    assert(m =~= y);
}

/// A call as JSON.
pub open spec fn sent_call_json(b: BlockView) -> JsonView {
    object_of(
        |k: Seq<char>|
            if k == "id"@ {
                Some(JsonView::String(b->ToolUse_id))
            } else if k == "type"@ {
                Some(JsonView::String("function"@))
            } else if k == "function"@ {
                Some(
                    object_of(
                        |f: Seq<char>|
                            if f == "name"@ {
                                Some(JsonView::String(b->ToolUse_name))
                            } else if f == "arguments"@ {
                                Some(JsonView::String(json_text(b->ToolUse_input)))
                            } else {
                                None
                            },
                    ),
                )
            } else if k == "extra_content"@ {
                b->ToolUse_extra
            } else {
                None
            },
    )
}

/// An assistant message as JSON.
pub open spec fn assistant_json(compat: ProviderCompat, thoughts: bool, m: MessageView) -> JsonView {
    let words = assistant_words(compat, m);
    let calls = gathered(m.content, |b: BlockView| only_if(b is ToolUse, sent_call_json(b)));
    object_of(
        |k: Seq<char>|
            if k == "role"@ {
                Some(JsonView::String("assistant"@))
            } else if k == "content"@ && (words.len() > 0 || calls.len() == 0) {
                Some(JsonView::String(words))
            } else if k == "reasoning_content"@ && thoughts {
                Some(JsonView::String(thoughts_in(m)))
            } else if k == "tool_calls"@ && calls.len() > 0 {
                Some(JsonView::Array(calls))
            } else {
                None
            },
    )
}

/// A tool result as JSON.
pub open spec fn result_json(id: Seq<char>, content: Seq<char>) -> JsonView {
    object_of(
        |k: Seq<char>|
            if k == "role"@ {
                Some(JsonView::String("tool"@))
            } else if k == "tool_call_id"@ {
                Some(JsonView::String(id))
            } else if k == "content"@ {
                Some(JsonView::String(content))
            } else {
                None
            },
    )
}

/// What the message at `i` goes out as.
pub open spec fn sent_as(messages: Seq<MessageView>, compat: ProviderCompat, i: int) -> Seq<JsonView> {
    let m = messages[i];
    if m.role == Role::Assistant {
        seq![assistant_json(compat, has_thoughts(messages), m)]
    } else if is_spoken(m) {
        seq![said_json("user"@, stripped_text(join(texts_in(m), "\n"@), compat))]
    } else if m.role == Role::System {
        Seq::empty()
    } else {
        gathered(
            m.content,
            |b: BlockView|
                only_if(
                    b is ToolResult && (!setting(
                        compat.messages.clean_orphan_tool_results,
                        false,
                    ) || called_before(messages, i, b->ToolResult_tool_use_id)),
                    result_json(b->ToolResult_tool_use_id, b->ToolResult_content),
                ),
        )
    }
}

/// The first `n` messages, as they go out.
pub open spec fn sent_first(messages: Seq<MessageView>, compat: ProviderCompat, n: nat) -> Seq<JsonView>
    decreases n,
{
    if n == 0 {
        Seq::empty()
    } else {
        sent_first(messages, compat, (n - 1) as nat) + sent_as(messages, compat, n - 1)
    }
}

proof fn lemma_call_json(k: CallView, b: BlockView)
    requires
        b is ToolUse,
        k.id == b->ToolUse_id,
        k.name == b->ToolUse_name,
        k.arguments == json_text(b->ToolUse_input),
        k.extra == b->ToolUse_extra,
    ensures
        call_json(k) == sent_call_json(b),
{
    let x = call_json(k);
    let y = sent_call_json(b);
    assert("id"@ != "type"@ && "id"@ != "function"@ && "id"@ != "extra_content"@ && "type"@
        != "function"@ && "type"@ != "extra_content"@ && "function"@ != "extra_content"@ && "name"@
        != "arguments"@) by {
        reveal_strlit("id");
        reveal_strlit("type");
        reveal_strlit("function");
        reveal_strlit("extra_content");
        reveal_strlit("name");
        reveal_strlit("arguments");
        assert("id"@.len() == 2 && "type"@.len() == 4 && "function"@.len() == 8);
        assert("extra_content"@.len() == 13 && "name"@.len() == 4 && "arguments"@.len() == 9);
    }
    assert(x->Object_0["function"@]->Object_0 =~= y->Object_0["function"@]->Object_0);
    assert(x->Object_0 =~= y->Object_0);
}

proof fn lemma_sent_calls(compat: ProviderCompat, blocks: Seq<BlockView>)
    requires
        forall|j: int|
            0 <= j < blocks.len() && (#[trigger] blocks[j]) is ToolUse ==> blocks[j]->ToolUse_id.len()
                > 0 && blocks[j]->ToolUse_name.len() > 0,
    ensures
        sent_in(compat, blocks) == gathered(blocks, |b: BlockView| only_if(b is ToolUse, b)),
        gathered(blocks, |b: BlockView| only_if(b is ToolUse, sent_call_json(b))).len() == sent_in(
            compat,
            blocks,
        ).len(),
        forall|k: int|
            0 <= k < sent_in(compat, blocks).len() ==> {
                &&& (#[trigger] sent_in(compat, blocks)[k]) is ToolUse
                &&& sent_in(compat, blocks)[k]->ToolUse_id.len() > 0
                &&& gathered(blocks, |b: BlockView| only_if(b is ToolUse, sent_call_json(b)))[k]
                    == sent_call_json(sent_in(compat, blocks)[k])
            },
    decreases blocks.len(),
{
    let pick = |b: BlockView| only_if(goes_out(compat, b), b);
    let call = |b: BlockView| only_if(b is ToolUse, b);
    let line = |b: BlockView| only_if(b is ToolUse, sent_call_json(b));
    if blocks.len() > 0 {
        let front = blocks.drop_last();
        assert forall|j: int|
            0 <= j < front.len() && (
            #[trigger] front[j]) is ToolUse implies front[j]->ToolUse_id.len() > 0
            && front[j]->ToolUse_name.len() > 0 by {
            assert(front[j] == blocks[j]);
        }
        lemma_sent_calls(compat, front);
        gathered_by_last(blocks, pick);
        gathered_by_last(blocks, call);
        gathered_by_last(blocks, line);
        assert(blocks.last() == blocks[blocks.len() - 1]);
    }
}

proof fn lemma_assistant_json(
    before: ChatAcc,
    compat: ProviderCompat,
    ids: Seq<Seq<char>>,
    thoughts: bool,
    m: MessageView,
)
    requires
        m.role == Role::Assistant,
        forall|j: int|
            0 <= j < m.content.len() && (
            #[trigger] m.content[j]) is ToolUse ==> m.content[j]->ToolUse_id.len() > 0
                && m.content[j]->ToolUse_name.len() > 0,
    ensures
        chat_json(with_message(before, compat, ids, thoughts, m).out.last()) == assistant_json(
            compat,
            thoughts,
            m,
        ),
{
    let c = with_message(before, compat, ids, thoughts, m).out.last();
    lemma_assistant_message(before, compat, ids, thoughts, m);
    lemma_lines_and_calls(before.ledger, compat, ids, m.content);
    lemma_sent_calls(compat, m.content);
    lemma_keys();
    let calls = gathered(m.content, |b: BlockView| only_if(b is ToolUse, sent_call_json(b)));
    let written = c.tool_calls.map_values(|k: CallView| call_json(k));
    assert(written =~= calls) by {
        assert forall|k: int| 0 <= k < calls.len() implies written[k] == calls[k] by {
            let b = sent_in(compat, m.content)[k];
            assert(b is ToolUse && b->ToolUse_id.len() > 0);
            assert(c.tool_calls[k].name == b->ToolUse_name);
            lemma_call_json(c.tool_calls[k], b);
        }
    }
    let x = chat_json(c)->Object_0;
    let y = assistant_json(compat, thoughts, m)->Object_0;
    assert(assistant_words(compat, m).len() == 0 ==> assistant_words(compat, m) =~= Seq::empty());
    assert(x.dom() =~= y.dom());
    assert(x =~= y);
}

/// What the ledger holds while every call has a name and an id.
spec fn ledger_is_plain(messages: Seq<MessageView>, n: int, l: LedgerView) -> bool {
    &&& l.dropped.len() == 0
    &&& l.generated.len() == 0
    &&& forall|id: Seq<char>| #[trigger] l.available.contains(id) <==> called_before(messages, n, id)
}

proof fn lemma_result_json(id: Seq<char>, content: Seq<char>)
    ensures
        chat_json(tool_message(id, content)) == result_json(id, content),
{
    lemma_keys();
    let members = |k: Seq<char>|
        if k == "role"@ {
            Some(JsonView::String("tool"@))
        } else if k == "tool_call_id"@ {
            Some(JsonView::String(id))
        } else if k == "content"@ {
            Some(JsonView::String(content))
        } else {
            None
        };
    assert(result_json(id, content) == object_of(members));
    objects_are_their_members(
        chat_json(tool_message(id, content))->Object_0,
        members,
    );
}

proof fn lemma_plain_results(
    acc: ChatAcc,
    compat: ProviderCompat,
    messages: Seq<MessageView>,
    n: int,
    blocks: Seq<BlockView>,
)
    requires
        ledger_is_plain(messages, n, acc.ledger),
    ensures
        ({
            let after = with_results(acc, rules_of(compat), blocks);
            &&& after.ledger == acc.ledger
            &&& after.out.map_values(|c: ChatView| chat_json(c)) == acc.out.map_values(
                |c: ChatView| chat_json(c),
            ) + gathered(
                blocks,
                |b: BlockView|
                    only_if(
                        b is ToolResult && (!setting(
                            compat.messages.clean_orphan_tool_results,
                            false,
                        ) || called_before(messages, n, b->ToolResult_tool_use_id)),
                        result_json(b->ToolResult_tool_use_id, b->ToolResult_content),
                    ),
            )
        }),
    decreases blocks.len(),
{
    let rules = rules_of(compat);
    let json = |c: ChatView| chat_json(c);
    let line = |b: BlockView|
        only_if(
            b is ToolResult && (!setting(compat.messages.clean_orphan_tool_results, false)
                || called_before(messages, n, b->ToolResult_tool_use_id)),
            result_json(b->ToolResult_tool_use_id, b->ToolResult_content),
        );
    let after = with_results(acc, rules, blocks);
    if blocks.len() > 0 {
        let front = blocks.drop_last();
        let b = blocks.last();
        lemma_plain_results(acc, compat, messages, n, front);
        gathered_by_last(blocks, line);
        let before = with_results(acc, rules, front);
        if b is ToolResult {
            let id = b->ToolResult_tool_use_id;
            assert(first_entry(before.ledger.dropped, id, 0) is None);
            assert(first_entry(before.ledger.generated, id, 0) is None);
            assert(after.ledger == acc.ledger);
            let c = tool_message(id, b->ToolResult_content);
            lemma_result_json(id, b->ToolResult_content);
            assert(acc.ledger.available.contains(id) <==> called_before(messages, n, id));
        }
        assert(after.out.map_values(json) =~= before.out.map_values(json) + line(b));
        assert(after.out.map_values(json) =~= acc.out.map_values(json) + gathered(blocks, line));
    } else {
        assert(after.out.map_values(json) =~= acc.out.map_values(json) + gathered(blocks, line));
    }
}

proof fn lemma_plain_calls(
    ledger: LedgerView,
    compat: ProviderCompat,
    ids: Seq<Seq<char>>,
    blocks: Seq<BlockView>,
)
    requires
        forall|j: int|
            0 <= j < blocks.len() && (#[trigger] blocks[j]) is ToolUse ==> blocks[j]->ToolUse_id.len()
                > 0 && blocks[j]->ToolUse_name.len() > 0,
    ensures
        ({
            let after = with_calls(ledger, rules_of(compat), ids, blocks).ledger;
            &&& after.dropped == ledger.dropped
            &&& after.generated == ledger.generated
            &&& forall|id: Seq<char>| #[trigger]
                after.available.contains(id) <==> ledger.available.contains(id) || exists|j: int|
                    0 <= j < blocks.len() && (#[trigger] blocks[j]) is ToolUse
                        && blocks[j]->ToolUse_id == id
        }),
    decreases blocks.len(),
{
    if blocks.len() > 0 {
        let front = blocks.drop_last();
        let b = blocks[blocks.len() - 1];
        assert forall|j: int|
            0 <= j < front.len() && (
            #[trigger] front[j]) is ToolUse implies front[j]->ToolUse_id.len() > 0
            && front[j]->ToolUse_name.len() > 0 by {
            assert(front[j] == blocks[j]);
        }
        lemma_plain_calls(ledger, compat, ids, front);
        let before = with_calls(ledger, rules_of(compat), ids, front).ledger;
        let after = with_calls(ledger, rules_of(compat), ids, blocks).ledger;
        assert forall|id: Seq<char>| #[trigger] after.available.contains(id) <==> (
        ledger.available.contains(id) || exists|j: int|
            0 <= j < blocks.len() && (#[trigger] blocks[j]) is ToolUse && blocks[j]->ToolUse_id
                == id) by {
            if after.available.contains(id) {
                if before.available.contains(id) {
                    if !ledger.available.contains(id) {
                        let j = choose|j: int|
                            0 <= j < front.len() && (#[trigger] front[j]) is ToolUse
                                && front[j]->ToolUse_id == id;
                        assert(blocks[j] is ToolUse && blocks[j]->ToolUse_id == id);
                    }
                } else {
                    assert(b is ToolUse && b->ToolUse_id == id);
                }
            }
            if exists|j: int|
                0 <= j < blocks.len() && (#[trigger] blocks[j]) is ToolUse && blocks[j]->ToolUse_id
                    == id {
                let j = choose|j: int|
                    0 <= j < blocks.len() && (#[trigger] blocks[j]) is ToolUse
                        && blocks[j]->ToolUse_id == id;
                if j < front.len() {
                    assert(front[j] is ToolUse && front[j]->ToolUse_id == id);
                    assert(before.available.contains(id));
                }
            }
            if ledger.available.contains(id) {
                assert(before.available.contains(id));
            }
        }
    }
}

proof fn lemma_called_before_more(messages: Seq<MessageView>, n: int, id: Seq<char>)
    requires
        0 <= n < messages.len(),
    ensures
        called_before(messages, n + 1, id) <==> called_before(messages, n, id) || (
        messages[n].role == Role::Assistant && exists|j: int|
            0 <= j < messages[n].content.len() && (#[trigger] messages[n].content[j]) is ToolUse
                && messages[n].content[j]->ToolUse_id == id),
{
    if called_before(messages, n + 1, id) && !called_before(messages, n, id) {
        let (k, j) = choose|k: int, j: int|
            0 <= k < n + 1 && k < messages.len() && messages[k].role == Role::Assistant && 0 <= j
                < messages[k].content.len() && (#[trigger] messages[k].content[j]) is ToolUse
                && messages[k].content[j]->ToolUse_id == id;
        assert(k == n);
    }
}

proof fn lemma_sent_first(
    messages: Seq<MessageView>,
    system: Seq<char>,
    compat: ProviderCompat,
    ids: Seq<Seq<char>>,
    n: nat,
)
    requires
        n <= messages.len(),
        calls_are_complete(messages),
    ensures
        ({
            let start = ChatAcc { ledger: empty_ledger(), out: system_messages(system) };
            let acc = with_messages(
                start,
                compat,
                ids,
                has_thoughts(messages),
                messages.take(n as int),
            );
            &&& ledger_is_plain(messages, n as int, acc.ledger)
            &&& acc.out.map_values(|c: ChatView| chat_json(c)) == start.out.map_values(
                |c: ChatView| chat_json(c),
            ) + sent_first(messages, compat, n)
        }),
    decreases n,
{
    let json = |c: ChatView| chat_json(c);
    let thoughts = has_thoughts(messages);
    let start = ChatAcc { ledger: empty_ledger(), out: system_messages(system) };
    if n == 0 {
        assert(messages.take(0) =~= Seq::empty());
        assert(start.out.map_values(json) + sent_first(messages, compat, 0)
            =~= start.out.map_values(json));
        assert forall|id: Seq<char>| !(#[trigger] called_before(messages, 0, id)) by {}
    } else {
        lemma_sent_first(messages, system, compat, ids, (n - 1) as nat);
        let prefix = messages.take(n as int);
        assert(prefix.drop_last() =~= messages.take(n - 1));
        let m = messages[n - 1];
        assert(prefix.last() == m);
        let before = with_messages(start, compat, ids, thoughts, messages.take(n - 1));
        let after = with_message(before, compat, ids, thoughts, m);
        assert forall|j: int|
            0 <= j < m.content.len() && (
            #[trigger] m.content[j]) is ToolUse implies m.content[j]->ToolUse_id.len() > 0
            && m.content[j]->ToolUse_name.len() > 0 by {
            assert(messages[n - 1].content[j] is ToolUse);
        }
        assert forall|id: Seq<char>| #[trigger] after.ledger.available.contains(id)
            <==> called_before(messages, n as int, id) by {
            lemma_called_before_more(messages, n - 1, id);
            if m.role == Role::Assistant {
                lemma_plain_calls(before.ledger, compat, ids, m.content);
                assert(before.ledger.available.contains(id) <==> called_before(
                    messages,
                    n - 1,
                    id,
                ));
            } else {
                lemma_plain_results(before, compat, messages, n - 1, m.content);
                assert(before.ledger.available.contains(id) <==> called_before(
                    messages,
                    n - 1,
                    id,
                ));
            }
        }
        if m.role == Role::Assistant {
            lemma_plain_calls(before.ledger, compat, ids, m.content);
            lemma_assistant_json(before, compat, ids, thoughts, m);
            assert(after.out =~= before.out.push(after.out.last()));
        } else if is_spoken(m) {
            assert(!has_results(m.content));
            lemma_texts(m.content);
            lemma_keys();
            lemma_said_json(
                after.out.last(),
                "user"@,
                stripped_text(join(texts_in(m), "\n"@), compat),
            );
            assert(after.out =~= before.out.push(after.out.last()));
        } else {
            lemma_plain_results(before, compat, messages, n - 1, m.content);
            if m.role == Role::User {
                let j = choose|j: int|
                    0 <= j < m.content.len() && (#[trigger] m.content[j]) is ToolResult;
                assert(has_results(m.content));
            }
        }
        assert(after.out.map_values(json) =~= before.out.map_values(json) + sent_as(
            messages,
            compat,
            n - 1,
        ));
        assert(after.out.map_values(json) =~= start.out.map_values(json) + sent_first(
            messages,
            compat,
            n,
        ));
    }
}

/// Without any clean-up, a conversation whose calls have names and ids goes out as
/// JSON message by message: the system prompt, then what the user said, what the
/// assistant said, thought and called, and what the tools answered, each in its
/// place and nothing else.
pub proof fn conversations_go_out_message_by_message(
    messages: Seq<MessageView>,
    system: Seq<char>,
    compat: ProviderCompat,
    ids: Seq<Seq<char>>,
)
    requires
        calls_are_complete(messages),
        !setting(compat.messages.dedup_tool_results, false),
        !setting(compat.tools.clean_orphan_tool_calls, false),
        !setting(compat.messages.merge_assistant_messages, false),
    ensures
        chat_messages(messages, system, compat, ids).map_values(|c: ChatView| chat_json(c))
            == only_if(system.len() > 0, said_json("system"@, system)) + sent_first(
            messages,
            compat,
            messages.len(),
        ),
{
    let json = |c: ChatView| chat_json(c);
    lemma_sent_first(messages, system, compat, ids, messages.len());
    assert(messages.take(messages.len() as int) =~= messages);
    if system.len() > 0 {
        lemma_keys();
        lemma_said_json(system_messages(system)[0], "system"@, system);
    }
    assert(system_messages(system).map_values(json) =~= only_if(
        system.len() > 0,
        said_json("system"@, system),
    ));
}

// ---------------------------------------------------------------------------
// Each assistant message
// ---------------------------------------------------------------------------

/// Where assistant messages are neither merged nor cleaned of calls, each goes out
/// as one: with its words, an empty text where it has neither words nor calls, its
/// thoughts where any message has some, and its calls that can go out.
pub proof fn each_assistant_message_goes_out(
    messages: Seq<MessageView>,
    system: Seq<char>,
    compat: ProviderCompat,
    ids: Seq<Seq<char>>,
)
    requires
        !setting(compat.tools.clean_orphan_tool_calls, false),
        !setting(compat.messages.merge_assistant_messages, false),
    ensures
        gathered(
            chat_messages(messages, system, compat, ids),
            |c: ChatView|
                only_if(
                    c.role == ChatRole::Assistant,
                    (c.content, c.reasoning_content, c.tool_calls.len()),
                ),
        ) == gathered(
            messages,
            |m: MessageView|
                only_if(
                    m.role == Role::Assistant,
                    (
                        if assistant_words(compat, m).len() > 0 || sent_in(
                            compat,
                            m.content,
                        ).len() == 0 {
                            Some(assistant_words(compat, m))
                        } else {
                            None
                        },
                        if exists|i: int, j: int|
                            0 <= i < messages.len() && messages[i].role == Role::Assistant && 0 <= j
                                < messages[i].content.len() && (
                            #[trigger] messages[i].content[j]) is Thinking {
                            Some(thoughts_in(m))
                        } else {
                            None
                        },
                        sent_in(compat, m.content).len(),
                    ),
                ),
        ),
{
    let thought = exists|i: int, j: int|
        0 <= i < messages.len() && messages[i].role == Role::Assistant && 0 <= j
            < messages[i].content.len() && (#[trigger] messages[i].content[j]) is Thinking;
    let give = |c: ChatView|
        only_if(
            c.role == ChatRole::Assistant,
            (c.content, c.reasoning_content, c.tool_calls.len()),
        );
    let source = |m: MessageView|
        only_if(
            m.role == Role::Assistant,
            (
                if assistant_words(compat, m).len() > 0 || sent_in(compat, m.content).len() == 0 {
                    Some(assistant_words(compat, m))
                } else {
                    None
                },
                if exists|i: int, j: int|
                    0 <= i < messages.len() && messages[i].role == Role::Assistant && 0 <= j
                        < messages[i].content.len() && (
                    #[trigger] messages[i].content[j]) is Thinking {
                    Some(thoughts_in(m))
                } else {
                    None
                },
                sent_in(compat, m.content).len(),
            ),
        );
    let thoughts = has_thoughts(messages);
    assert(thoughts == thought);
    let start = ChatAcc { ledger: empty_ledger(), out: system_messages(system) };
    assert forall|before: ChatAcc, k: int|
        0 <= k < messages.len() && (messages[k].role == Role::Assistant || is_spoken(
            messages[k],
        )) implies give(
        (#[trigger] with_message(before, compat, ids, thoughts, messages[k])).out.last(),
    ) == source(messages[k]) by {
        let m = messages[k];
        lemma_assistant_message(before, compat, ids, thoughts, m);
        assert(assistant_words(compat, m).len() == 0 ==> assistant_words(compat, m)
            =~= Seq::empty());
    }
    lemma_messages_give(start, compat, ids, thoughts, messages, give, source);
    lemma_system_gives_nothing(system, give);
    let all = projected(messages, system, compat, ids).out;
    lemma_latest_survives(all, all.len(), give);
    assert(all.take(all.len() as int) =~= all);
    let made = gathered(messages, source);
    assert(gathered(start.out, give) + made =~= made);
}

// ---------------------------------------------------------------------------
// What the tools answered
// ---------------------------------------------------------------------------

/// The message tells a result of the conversation, word for word: under the id that
/// it answers, or where it names none, under one that was given to its call.
pub open spec fn tells_a_result(messages: Seq<MessageView>, c: ChatView) -> bool {
    exists|i: int, j: int|
        0 <= i < messages.len() && (messages[i].role == Role::User || messages[i].role
            == Role::Tool) && 0 <= j < messages[i].content.len() && (
        #[trigger] messages[i].content[j]) is ToolResult && c.content == Some(
            messages[i].content[j]->ToolResult_content,
        ) && c.tool_call_id is Some && (c.tool_call_id == Some(
            messages[i].content[j]->ToolResult_tool_use_id,
        ) || messages[i].content[j]->ToolResult_tool_use_id.len() == 0)
}

spec fn tools_tell_results(messages: Seq<MessageView>, ms: Seq<ChatView>) -> bool {
    forall|i: int|
        0 <= i < ms.len() && (#[trigger] ms[i]).role == ChatRole::Tool ==> tells_a_result(
            messages,
            ms[i],
        )
}

spec fn generated_for_empty(l: LedgerView) -> bool {
    forall|k: int| 0 <= k < l.generated.len() ==> (#[trigger] l.generated[k]).0.len() == 0
}

proof fn lemma_first_entry_key<T>(entries: Seq<(Seq<char>, T)>, key: Seq<char>, i: nat)
    ensures
        first_entry(entries, key, i) matches Some(k) ==> i <= k < entries.len()
            && entries[k as int].0 == key,
    decreases entries.len() - i,
{
    if i < entries.len() && entries[i as int].0 != key {
        lemma_first_entry_key(entries, key, i + 1);
    }
}

proof fn lemma_results_tell(
    acc: ChatAcc,
    rules: ToolIdRules,
    messages: Seq<MessageView>,
    n: int,
    blocks: Seq<BlockView>,
)
    requires
        tools_tell_results(messages, acc.out),
        generated_for_empty(acc.ledger),
        0 <= n < messages.len(),
        messages[n].role == Role::User || messages[n].role == Role::Tool,
        blocks.len() <= messages[n].content.len(),
        blocks == messages[n].content.take(blocks.len() as int),
    ensures
        tools_tell_results(messages, with_results(acc, rules, blocks).out),
        generated_for_empty(with_results(acc, rules, blocks).ledger),
    decreases blocks.len(),
{
    if blocks.len() > 0 {
        let front = blocks.drop_last();
        let b = blocks.last();
        let content = messages[n].content;
        assert(front =~= content.take(front.len() as int));
        lemma_results_tell(acc, rules, messages, n, front);
        let before = with_results(acc, rules, front);
        let after = with_results(acc, rules, blocks);
        assert(content[blocks.len() - 1] == b);
        if b is ToolResult {
            let id = b->ToolResult_tool_use_id;
            lemma_first_entry_key(before.ledger.generated, id, 0);
            assert forall|k: int| 0 <= k < after.ledger.generated.len() implies (
            #[trigger] after.ledger.generated[k]).0.len() == 0 by {
                if after.ledger.generated.len() == before.ledger.generated.len() {
                    assert(before.ledger.generated[k].0.len() == 0);
                } else {
                    let p = first_entry(before.ledger.generated, id, 0).unwrap();
                    if k < p {
                        assert(before.ledger.generated[k].0.len() == 0);
                    } else {
                        assert(before.ledger.generated[k + 1].0.len() == 0);
                    }
                }
            }
            assert forall|i: int|
                0 <= i < after.out.len() && (
                #[trigger] after.out[i]).role == ChatRole::Tool implies tells_a_result(
                messages,
                after.out[i],
            ) by {
                if i < before.out.len() {
                    assert(before.out[i] == after.out[i]);
                } else {
                    let c = after.out[i];
                    assert(messages[n].content[blocks.len() - 1] is ToolResult);
                    match first_entry(before.ledger.generated, id, 0) {
                        Some(k) => {
                            assert(before.ledger.generated[k as int].0.len() == 0);
                        },
                        None => {},
                    }
                }
            }
        }
    }
}

proof fn lemma_calls_generate(
    ledger: LedgerView,
    rules: ToolIdRules,
    ids: Seq<Seq<char>>,
    blocks: Seq<BlockView>,
)
    requires
        generated_for_empty(ledger),
    ensures
        generated_for_empty(with_calls(ledger, rules, ids, blocks).ledger),
    decreases blocks.len(),
{
    if blocks.len() > 0 {
        lemma_calls_generate(ledger, rules, ids, blocks.drop_last());
    }
}

proof fn lemma_messages_tell(
    messages: Seq<MessageView>,
    system: Seq<char>,
    compat: ProviderCompat,
    ids: Seq<Seq<char>>,
    n: nat,
)
    requires
        n <= messages.len(),
    ensures
        ({
            let start = ChatAcc { ledger: empty_ledger(), out: system_messages(system) };
            let acc = with_messages(
                start,
                compat,
                ids,
                has_thoughts(messages),
                messages.take(n as int),
            );
            tools_tell_results(messages, acc.out) && generated_for_empty(acc.ledger)
        }),
    decreases n,
{
    let thoughts = has_thoughts(messages);
    let start = ChatAcc { ledger: empty_ledger(), out: system_messages(system) };
    if n > 0 {
        lemma_messages_tell(messages, system, compat, ids, (n - 1) as nat);
        let prefix = messages.take(n as int);
        assert(prefix.drop_last() =~= messages.take(n - 1));
        let m = messages[n - 1];
        assert(prefix.last() == m);
        let before = with_messages(start, compat, ids, thoughts, messages.take(n - 1));
        let after = with_message(before, compat, ids, thoughts, m);
        assert(m.content.take(m.content.len() as int) =~= m.content);
        if m.role == Role::User || m.role == Role::Tool {
            lemma_results_tell(before, rules_of(compat), messages, n - 1, m.content);
        }
        if m.role == Role::Assistant {
            lemma_calls_generate(before.ledger, rules_of(compat), ids, m.content);
        }
        assert forall|i: int|
            0 <= i < after.out.len() && (
            #[trigger] after.out[i]).role == ChatRole::Tool implies tells_a_result(
            messages,
            after.out[i],
        ) by {
            if i < before.out.len() && after.out.len() == before.out.len() + 1 {
                assert(before.out[i] == after.out[i] || tells_a_result(messages, after.out[i]));
            }
        }
    } else {
        assert(messages.take(0) =~= Seq::empty());
    }
}

proof fn lemma_latest_tells(messages: Seq<MessageView>, ms: Seq<ChatView>, n: nat)
    requires
        n <= ms.len(),
        tools_tell_results(messages, ms),
    ensures
        tools_tell_results(messages, latest(ms, n)),
    decreases n,
{
    if n > 0 {
        lemma_latest_tells(messages, ms, (n - 1) as nat);
    }
}

proof fn lemma_merge_tells(messages: Seq<MessageView>, ms: Seq<ChatView>)
    requires
        tools_tell_results(messages, ms),
    ensures
        tools_tell_results(messages, assistants_merged(ms)),
    decreases ms.len(),
{
    if ms.len() > 0 {
        let front = ms.drop_last();
        assert forall|i: int|
            0 <= i < front.len() && (
            #[trigger] front[i]).role == ChatRole::Tool implies tells_a_result(
            messages,
            front[i],
        ) by {
            assert(front[i] == ms[i]);
        }
        lemma_merge_tells(messages, front);
        assert(ms[ms.len() - 1] == ms.last());
    }
}

/// No tool message of a request says anything but a result of the conversation.
pub proof fn tools_are_quoted(
    messages: Seq<MessageView>,
    system: Seq<char>,
    compat: ProviderCompat,
    ids: Seq<Seq<char>>,
)
    ensures
        forall|i: int|
            0 <= i < chat_messages(messages, system, compat, ids).len() && (
            #[trigger] chat_messages(messages, system, compat, ids)[i]).role == ChatRole::Tool
                ==> tells_a_result(messages, chat_messages(messages, system, compat, ids)[i]),
{
    let all = projected(messages, system, compat, ids).out;
    lemma_messages_tell(messages, system, compat, ids, messages.len());
    assert(messages.take(messages.len() as int) =~= messages);
    lemma_latest_tells(messages, all, all.len());
    let unique = if setting(compat.messages.dedup_tool_results, false) {
        deduplicated(all)
    } else {
        all
    };
    let clean = without_orphan_calls(unique, !rules_of(compat).sanitize);
    assert forall|i: int|
        0 <= i < clean.len() && (#[trigger] clean[i]).role == ChatRole::Tool implies tells_a_result(
        messages,
        clean[i],
    ) by {
        assert(clean[i] == unique[i]);
    }
    lemma_merge_tells(messages, unique);
    lemma_merge_tells(messages, clean);
}

// ---------------------------------------------------------------------------
// What each step of the clean-up does
// ---------------------------------------------------------------------------

/// The message answers this call.
pub open spec fn answers_call(c: ChatView, id: Seq<char>) -> bool {
    c.role == ChatRole::Tool && c.tool_call_id == Some(id)
}

proof fn lemma_latest_with_more(ms: Seq<ChatView>, m: ChatView, n: nat, id: Seq<char>)
    requires
        n <= ms.len(),
        answers_call(m, id),
    ensures
        latest(ms.push(m), n) == gathered(
            latest(ms, n),
            |c: ChatView| only_if(!answers_call(c, id), c),
        ),
    decreases n,
{
    let keep = |c: ChatView| only_if(!answers_call(c, id), c);
    let more = ms.push(m);
    if n > 0 {
        lemma_latest_with_more(ms, m, (n - 1) as nat, id);
        let c = ms[n - 1];
        let i = n - 1;
        assert(more[i] == c);
        if superseded(ms, i) {
            let j = choose|j: int|
                i < j < ms.len() && answered_id(#[trigger] ms[j])
                    == answered_id(ms[i]);
            assert(more[j] == ms[j]);
            assert(superseded(more, i));
        } else {
            if answers_call(c, id) {
                assert(more[ms.len() as int] == m);
                assert(answered_id(more[ms.len() as int]) == Some(id));
                assert(superseded(more, i));
            } else if superseded(more, i) {
                let j = choose|j: int|
                    i < j < more.len() && answered_id(#[trigger] more[j])
                        == answered_id(more[i]);
                if j < ms.len() {
                    assert(ms[j] == more[j]);
                }
                assert(false);
            }
            gathered_of_more(latest(ms, (n - 1) as nat), c, keep);
            assert(latest(more, n) =~= gathered(latest(ms, n), keep));
        }
    } else {
        assert(gathered(latest(ms, n), keep) =~= Seq::empty());
    }
}

proof fn lemma_latest_with_other(ms: Seq<ChatView>, m: ChatView, n: nat)
    requires
        n <= ms.len(),
        !(m.role == ChatRole::Tool && m.tool_call_id is Some),
    ensures
        latest(ms.push(m), n) == latest(ms, n),
    decreases n,
{
    let more = ms.push(m);
    if n > 0 {
        lemma_latest_with_other(ms, m, (n - 1) as nat);
        let i = n - 1;
        assert(more[i] == ms[i]);
        if superseded(ms, i) {
            let j = choose|j: int|
                i < j < ms.len() && answered_id(#[trigger] ms[j])
                    == answered_id(ms[i]);
            assert(more[j] == ms[j]);
        }
        if superseded(more, i) {
            let j = choose|j: int|
                i < j < more.len() && answered_id(#[trigger] more[j])
                    == answered_id(more[i]);
            if j < ms.len() {
                assert(ms[j] == more[j]);
            }
        }
    }
}

/// One more message drops the earlier answers to the call that it answers, and
/// leaves everything else in its place.
pub proof fn a_later_answer_replaces_the_earlier(ms: Seq<ChatView>, m: ChatView)
    ensures
        deduplicated(ms.push(m)) == gathered(
            deduplicated(ms),
            |c: ChatView|
                only_if(
                    !(m.role == ChatRole::Tool && m.tool_call_id is Some && answers_call(
                        c,
                        m.tool_call_id.unwrap(),
                    )),
                    c,
                ),
        ).push(m),
{
    let more = ms.push(m);
    let give = |c: ChatView|
        only_if(
            !(m.role == ChatRole::Tool && m.tool_call_id is Some && answers_call(
                c,
                m.tool_call_id.unwrap(),
            )),
            c,
        );
    let d = deduplicated(ms);
    assert(!superseded(more, ms.len() as int));
    if m.role == ChatRole::Tool && m.tool_call_id is Some {
        let id = m.tool_call_id.unwrap();
        lemma_latest_with_more(ms, m, ms.len(), id);
        gathered_alike(d, d, give, |c: ChatView| only_if(!answers_call(c, id), c));
    } else {
        lemma_latest_with_other(ms, m, ms.len());
        lemma_gathered_all(d, give);
    }
}

/// Cleaning takes away calls that nothing answers and nothing else: an assistant
/// message left without content and calls gets an empty text.
pub proof fn cleaning_takes_only_orphan_calls(ms: Seq<ChatView>, retain_unnamed: bool)
    ensures
        without_orphan_calls(ms, retain_unnamed).len() == ms.len(),
        forall|i: int|
            0 <= i < ms.len() && ms[i].role != ChatRole::Assistant
                ==> #[trigger] without_orphan_calls(ms, retain_unnamed)[i] == ms[i],
        forall|i: int|
            0 <= i < ms.len() && ms[i].role == ChatRole::Assistant ==> {
                let c = #[trigger] without_orphan_calls(ms, retain_unnamed)[i];
                &&& c.role == ChatRole::Assistant
                &&& c.reasoning_content == ms[i].reasoning_content
                &&& c.tool_calls == gathered(
                    ms[i].tool_calls,
                    |k: CallView|
                        only_if(
                            (retain_unnamed && k.name.len() == 0) || ids_answered(ms).contains(
                                k.id,
                            ),
                            k,
                        ),
                )
                &&& c.content == (if ms[i].content is None && ms[i].tool_calls.len() > 0
                    && c.tool_calls.len() == 0 {
                    Some(Seq::<char>::empty())
                } else {
                    ms[i].content
                })
            },
{
    let r = without_orphan_calls(ms, retain_unnamed);
    assert forall|i: int| 0 <= i < ms.len() && ms[i].role == ChatRole::Assistant implies {
        let c = #[trigger] r[i];
        &&& c.role == ChatRole::Assistant
        &&& c.reasoning_content == ms[i].reasoning_content
        &&& c.tool_calls == gathered(
            ms[i].tool_calls,
            |k: CallView|
                only_if(
                    (retain_unnamed && k.name.len() == 0) || ids_answered(ms).contains(k.id),
                    k,
                ),
        )
        &&& c.content == (if ms[i].content is None && ms[i].tool_calls.len() > 0
            && c.tool_calls.len() == 0 {
            Some(Seq::<char>::empty())
        } else {
            ms[i].content
        })
    } by {
        lemma_kept_calls(ms, ms[i].tool_calls, retain_unnamed);
        if ms[i].tool_calls.len() == 0 {
            assert(ms[i].tool_calls =~= Seq::empty());
        }
    }
}

/// Messages apart from each other are merged apart from each other.
pub proof fn merging_does_not_reach_across(a: Seq<ChatView>, b: Seq<ChatView>)
    requires
        a.len() == 0 || b.len() == 0 || a.last().role != ChatRole::Assistant || b[0].role
            != ChatRole::Assistant,
    ensures
        assistants_merged(a + b) == assistants_merged(a) + assistants_merged(b),
    decreases b.len(),
{
    lemma_merged_ends(a);
    if b.len() == 0 {
        assert(a + b =~= a);
        assert(assistants_merged(a) + assistants_merged(b) =~= assistants_merged(a));
    } else {
        let front = b.drop_last();
        assert((a + b).drop_last() =~= a + front);
        merging_does_not_reach_across(a, front);
        lemma_merged_ends(front);
        let x = assistants_merged(a);
        let y = assistants_merged(front);
        if front.len() == 0 {
            assert(y =~= Seq::empty());
            assert(x + y =~= x);
            assert(b[0] == b.last());
        } else {
            assert((x + y).last() == y.last());
            assert((x + y).drop_last() =~= x + y.drop_last());
        }
        assert(assistants_merged(a + b) =~= x + assistants_merged(b));
    }
}

proof fn lemma_merged_ends(ms: Seq<ChatView>)
    ensures
        ms.len() > 0 ==> assistants_merged(ms).len() > 0 && assistants_merged(ms).last().role
            == ms.last().role,
        ms.len() == 0 ==> assistants_merged(ms).len() == 0,
    decreases ms.len(),
{
    if ms.len() > 0 {
        lemma_merged_ends(ms.drop_last());
    }
}

/// A message that is not the assistant's is not merged.
pub proof fn only_assistants_are_merged(m: ChatView)
    ensures
        assistants_merged(seq![m]) == seq![m],
{
    assert(seq![m].drop_last() =~= Seq::empty());
    assert(assistants_merged(seq![m].drop_last()) =~= Seq::empty());
}

/// A run of assistant messages becomes one, with their texts, thoughts and calls
/// put together.
pub proof fn assistants_in_a_row_become_one(ms: Seq<ChatView>)
    requires
        ms.len() > 0,
        forall|i: int| 0 <= i < ms.len() ==> (#[trigger] ms[i]).role == ChatRole::Assistant,
    ensures
        assistants_merged(ms).len() == 1,
        ({
            let one = assistants_merged(ms)[0];
            &&& one.role == ChatRole::Assistant
            &&& one.tool_calls == calls_made(ms)
            &&& one.content == (if assistant_said(ms).len() > 0 {
                Some(assistant_said(ms))
            } else {
                ms[0].content
            })
            &&& one.reasoning_content == (if assistant_thought(ms).len() > 0 {
                Some(assistant_thought(ms))
            } else {
                ms[0].reasoning_content
            })
        }),
    decreases ms.len(),
{
    let front = ms.drop_last();
    let m = ms[ms.len() - 1];
    let said = |c: ChatView|
        if c.role == ChatRole::Assistant {
            setting(c.content, Seq::empty())
        } else {
            Seq::empty()
        };
    let thought = |c: ChatView|
        if c.role == ChatRole::Assistant {
            setting(c.reasoning_content, Seq::empty())
        } else {
            Seq::empty()
        };
    let calls = |c: ChatView|
        if c.role == ChatRole::Assistant {
            c.tool_calls
        } else {
            Seq::empty()
        };
    gathered_by_last(ms, said);
    gathered_by_last(ms, thought);
    gathered_by_last(ms, calls);
    if front.len() == 0 {
        assert(assistants_merged(front) =~= Seq::empty());
        assert(assistant_said(ms) =~= said(m));
        assert(assistant_thought(ms) =~= thought(m));
        assert(calls_made(ms) =~= calls(m));
        assert(ms[0] == m);
    } else {
        assert forall|i: int| 0 <= i < front.len() implies (#[trigger] front[i]).role
            == ChatRole::Assistant by {
            assert(front[i] == ms[i]);
        }
        assistants_in_a_row_become_one(front);
        let one = assistants_merged(front)[0];
        assert(assistants_merged(ms) =~= seq![combined(one, m)]);
        assert(setting(one.content, Seq::empty()) =~= assistant_said(front)) by {
            if assistant_said(front).len() == 0 {
                assert(front[0] == ms[0]);
                lemma_first_is_part(front, said);
                assert(setting(front[0].content, Seq::empty()).len() == 0);
            }
        }
        assert(setting(one.reasoning_content, Seq::empty()) =~= assistant_thought(front)) by {
            if assistant_thought(front).len() == 0 {
                lemma_first_is_part(front, thought);
                assert(setting(front[0].reasoning_content, Seq::empty()).len() == 0);
            }
        }
        assert(assistant_said(ms).len() == 0 ==> assistant_said(front).len() == 0);
        assert(assistant_thought(ms).len() == 0 ==> assistant_thought(front).len() == 0);
    }
}

proof fn lemma_first_is_part<A, T>(s: Seq<A>, give: spec_fn(A) -> Seq<T>)
    requires
        s.len() > 0,
    ensures
        give(s[0]).len() <= gathered(s, give).len(),
{
}

// ---------------------------------------------------------------------------
// The clean-up as a whole
// ---------------------------------------------------------------------------

/// The same settings without any clean-up of chat messages.
pub open spec fn without_clean_up(compat: ProviderCompat) -> ProviderCompat {
    ProviderCompat {
        messages: MessageCompat {
            dedup_tool_results: Some(false),
            merge_assistant_messages: Some(false),
            ..compat.messages
        },
        tools: ToolCompat { clean_orphan_tool_calls: Some(false), ..compat.tools },
        ..compat
    }
}

proof fn lemma_same_projection(
    acc: ChatAcc,
    compat: ProviderCompat,
    ids: Seq<Seq<char>>,
    thoughts: bool,
    messages: Seq<MessageView>,
)
    ensures
        with_messages(acc, without_clean_up(compat), ids, thoughts, messages) == with_messages(
            acc,
            compat,
            ids,
            thoughts,
            messages,
        ),
    decreases messages.len(),
{
    if messages.len() > 0 {
        lemma_same_projection(acc, compat, ids, thoughts, messages.drop_last());
        let plain = without_clean_up(compat);
        assert(rules_of(plain) == rules_of(compat));
        assert forall|text: Seq<char>| #[trigger] stripped_text(text, plain) == stripped_text(
            text,
            compat,
        ) by {}
    }
}

/// The request is the one without any clean-up, then with later answers in place of
/// earlier ones, then without orphan calls, then with assistant messages merged, as
/// far as each is asked for.
pub proof fn clean_up_goes_in_order(
    messages: Seq<MessageView>,
    system: Seq<char>,
    compat: ProviderCompat,
    ids: Seq<Seq<char>>,
)
    ensures
        ({
            let plain = chat_messages(messages, system, without_clean_up(compat), ids);
            let unique = if compat.messages.dedup_tool_results == Some(true) {
                deduplicated(plain)
            } else {
                plain
            };
            let clean = if compat.tools.clean_orphan_tool_calls == Some(true) {
                without_orphan_calls(
                    unique,
                    compat.tools.sanitize_malformed_tool_calls != Some(true),
                )
            } else {
                unique
            };
            chat_messages(messages, system, compat, ids) == (
            if compat.messages.merge_assistant_messages == Some(true) {
                assistants_merged(clean)
            } else {
                clean
            })
        }),
{
    let start = ChatAcc { ledger: empty_ledger(), out: system_messages(system) };
    lemma_same_projection(start, compat, ids, has_thoughts(messages), messages);
}

// ---------------------------------------------------------------------------
// Every answer gets through
// ---------------------------------------------------------------------------

/// The results of a conversation that go out, as ids and contents, in order.
pub open spec fn results_to_send(messages: Seq<MessageView>, compat: ProviderCompat, n: nat) -> Seq<
    (Seq<char>, Seq<char>),
>
    decreases n,
{
    if n == 0 {
        Seq::empty()
    } else {
        results_to_send(messages, compat, (n - 1) as nat) + gathered(
            messages[n - 1].content,
            |b: BlockView|
                only_if(
                    (messages[n - 1].role == Role::User || messages[n - 1].role == Role::Tool)
                        && b is ToolResult && (compat.messages.clean_orphan_tool_results != Some(
                        true,
                    ) || called_before(messages, n - 1, b->ToolResult_tool_use_id)),
                    (b->ToolResult_tool_use_id, b->ToolResult_content),
                ),
        )
    }
}

/// Of the answers to each call, the last.
pub open spec fn last_answers(results: Seq<(Seq<char>, Seq<char>)>) -> Seq<(Seq<char>, Seq<char>)>
    decreases results.len(),
{
    if results.len() == 0 {
        Seq::empty()
    } else {
        let last = results.last();
        gathered(
            last_answers(results.drop_last()),
            |r: (Seq<char>, Seq<char>)| only_if(r.0 != last.0, r),
        ).push(last)
    }
}

/// The answers of a request, as ids and contents, in order.
pub open spec fn answers_told(ms: Seq<ChatView>) -> Seq<(Seq<char>, Seq<char>)> {
    gathered(
        ms,
        |c: ChatView|
            only_if(
                c.role == ChatRole::Tool,
                (setting(c.tool_call_id, Seq::empty()), setting(c.content, Seq::empty())),
            ),
    )
}

spec fn tools_have_ids(ms: Seq<ChatView>) -> bool {
    forall|i: int|
        0 <= i < ms.len() && (#[trigger] ms[i]).role == ChatRole::Tool ==> ms[i].tool_call_id is Some
}

proof fn lemma_plain_answers(
    acc: ChatAcc,
    compat: ProviderCompat,
    messages: Seq<MessageView>,
    n: int,
    blocks: Seq<BlockView>,
)
    requires
        ledger_is_plain(messages, n, acc.ledger),
        tools_have_ids(acc.out),
        0 <= n < messages.len(),
        messages[n].role == Role::User || messages[n].role == Role::Tool,
    ensures
        ({
            let after = with_results(acc, rules_of(compat), blocks);
            &&& after.ledger == acc.ledger
            &&& tools_have_ids(after.out)
            &&& answers_told(after.out) == answers_told(acc.out) + gathered(
                blocks,
                |b: BlockView|
                    only_if(
                        (messages[n].role == Role::User || messages[n].role == Role::Tool)
                            && b is ToolResult && (compat.messages.clean_orphan_tool_results
                            != Some(true) || called_before(
                            messages,
                            n,
                            b->ToolResult_tool_use_id,
                        )),
                        (b->ToolResult_tool_use_id, b->ToolResult_content),
                    ),
            )
        }),
    decreases blocks.len(),
{
    let rules = rules_of(compat);
    let tell = |c: ChatView|
        only_if(
            c.role == ChatRole::Tool,
            (setting(c.tool_call_id, Seq::empty()), setting(c.content, Seq::empty())),
        );
    let line = |b: BlockView|
        only_if(
            (messages[n].role == Role::User || messages[n].role == Role::Tool) && b is ToolResult
                && (compat.messages.clean_orphan_tool_results != Some(true) || called_before(
                messages,
                n,
                b->ToolResult_tool_use_id,
            )),
            (b->ToolResult_tool_use_id, b->ToolResult_content),
        );
    let after = with_results(acc, rules, blocks);
    if blocks.len() > 0 {
        let front = blocks.drop_last();
        let b = blocks.last();
        lemma_plain_answers(acc, compat, messages, n, front);
        gathered_by_last(blocks, line);
        let before = with_results(acc, rules, front);
        if b is ToolResult {
            let id = b->ToolResult_tool_use_id;
            assert(first_entry(before.ledger.dropped, id, 0) is None);
            assert(first_entry(before.ledger.generated, id, 0) is None);
            assert(acc.ledger.available.contains(id) <==> called_before(messages, n, id));
        }
        if after.out.len() > before.out.len() {
            gathered_of_more(before.out, after.out.last(), tell);
            assert(after.out =~= before.out.push(after.out.last()));
        }
        assert(answers_told(after.out) =~= answers_told(before.out) + line(b));
        assert(answers_told(after.out) =~= answers_told(acc.out) + gathered(blocks, line));
    } else {
        assert(answers_told(after.out) =~= answers_told(acc.out) + gathered(blocks, line));
    }
}

proof fn lemma_answers_of_messages(
    messages: Seq<MessageView>,
    system: Seq<char>,
    compat: ProviderCompat,
    ids: Seq<Seq<char>>,
    n: nat,
)
    requires
        n <= messages.len(),
        calls_are_complete(messages),
    ensures
        ({
            let start = ChatAcc { ledger: empty_ledger(), out: system_messages(system) };
            let acc = with_messages(
                start,
                compat,
                ids,
                has_thoughts(messages),
                messages.take(n as int),
            );
            &&& tools_have_ids(acc.out)
            &&& answers_told(acc.out) == results_to_send(messages, compat, n)
        }),
    decreases n,
{
    let tell = |c: ChatView|
        only_if(
            c.role == ChatRole::Tool,
            (setting(c.tool_call_id, Seq::empty()), setting(c.content, Seq::empty())),
        );
    let thoughts = has_thoughts(messages);
    let start = ChatAcc { ledger: empty_ledger(), out: system_messages(system) };
    if n == 0 {
        assert(messages.take(0) =~= Seq::empty());
        lemma_system_gives_nothing(system, tell);
    } else {
        lemma_answers_of_messages(messages, system, compat, ids, (n - 1) as nat);
        lemma_sent_first(messages, system, compat, ids, (n - 1) as nat);
        let prefix = messages.take(n as int);
        assert(prefix.drop_last() =~= messages.take(n - 1));
        let m = messages[n - 1];
        assert(prefix.last() == m);
        let before = with_messages(start, compat, ids, thoughts, messages.take(n - 1));
        let after = with_message(before, compat, ids, thoughts, m);
        let line = |b: BlockView|
            only_if(
                (messages[n - 1].role == Role::User || messages[n - 1].role == Role::Tool)
                    && b is ToolResult && (compat.messages.clean_orphan_tool_results != Some(true)
                    || called_before(messages, n - 1, b->ToolResult_tool_use_id)),
                (b->ToolResult_tool_use_id, b->ToolResult_content),
            );
        if m.role == Role::Tool || (m.role == Role::User && has_results(m.content)) {
            lemma_plain_answers(before, compat, messages, n - 1, m.content);
        } else {
            assert forall|j: int| 0 <= j < m.content.len() implies line(
                #[trigger] m.content[j],
            ).len() == 0 by {
                if m.role == Role::User {
                    assert(!(m.content[j] is ToolResult));
                }
            }
            gathered_nothing(m.content, line);
            if m.role != Role::System {
                assert(after.out =~= before.out.push(after.out.last()));
                gathered_of_more(before.out, after.out.last(), tell);
            }
            assert(answers_told(after.out) =~= answers_told(before.out));
            assert(results_to_send(messages, compat, n) =~= results_to_send(
                messages,
                compat,
                (n - 1) as nat,
            ));
        }
    }
}

proof fn lemma_gathered_compose<A, B>(
    s: Seq<A>,
    keep: spec_fn(A) -> Seq<A>,
    tell: spec_fn(A) -> Seq<B>,
    sift: spec_fn(B) -> Seq<B>,
)
    requires
        forall|i: int|
            0 <= i < s.len() ==> gathered(keep(#[trigger] s[i]), tell) == gathered(
                tell(s[i]),
                sift,
            ),
    ensures
        gathered(gathered(s, keep), tell) == gathered(gathered(s, tell), sift),
    decreases s.len(),
{
    if s.len() > 0 {
        let t = s.skip(1);
        assert forall|i: int| 0 <= i < t.len() implies gathered(keep(#[trigger] t[i]), tell)
            == gathered(tell(t[i]), sift) by {
            assert(t[i] == s[i + 1]);
        }
        lemma_gathered_compose(t, keep, tell, sift);
        gathered_of_both(keep(s[0]), gathered(t, keep), tell);
        gathered_of_both(tell(s[0]), gathered(t, tell), sift);
    }
}

proof fn lemma_last_answers(ms: Seq<ChatView>)
    requires
        tools_have_ids(ms),
    ensures
        answers_told(deduplicated(ms)) == last_answers(answers_told(ms)),
        tools_have_ids(deduplicated(ms)),
    decreases ms.len(),
{
    let tell = |c: ChatView|
        only_if(
            c.role == ChatRole::Tool,
            (setting(c.tool_call_id, Seq::empty()), setting(c.content, Seq::empty())),
        );
    if ms.len() == 0 {
        assert(answers_told(ms) =~= Seq::empty());
    } else {
        let front = ms.drop_last();
        let m = ms.last();
        assert(ms =~= front.push(m));
        assert forall|i: int|
            0 <= i < front.len() && (
            #[trigger] front[i]).role == ChatRole::Tool implies front[i].tool_call_id is Some by {
            assert(front[i] == ms[i]);
        }
        lemma_last_answers(front);
        a_later_answer_replaces_the_earlier(front, m);
        let keep = |c: ChatView|
            only_if(
                !(m.role == ChatRole::Tool && m.tool_call_id is Some && answers_call(
                    c,
                    m.tool_call_id.unwrap(),
                )),
                c,
            );
        let d = deduplicated(front);
        let kept = gathered(d, keep);
        gathered_of_more(kept, m, tell);
        gathered_of_more(front, m, tell);
        assert(m == ms[ms.len() - 1]);
        if m.role == ChatRole::Tool {
            let last = tell(m)[0];
            let sift = |r: (Seq<char>, Seq<char>)| only_if(r.0 != last.0, r);
            assert forall|i: int| 0 <= i < d.len() implies gathered(keep(#[trigger] d[i]), tell)
                == gathered(tell(d[i]), sift) by {
                lemma_sift_one(d[i], m, keep, tell, sift);
            }
            lemma_gathered_compose(d, keep, tell, sift);
            assert(answers_told(ms) =~= answers_told(front).push(last));
            assert(answers_told(ms).drop_last() =~= answers_told(front));
        } else {
            lemma_gathered_all(d, keep);
            assert(answers_told(ms) =~= answers_told(front));
            assert(answers_told(deduplicated(ms)) =~= answers_told(d));
        }
        lemma_kept_have_ids(d, keep);
    }
}

proof fn lemma_kept_have_ids(d: Seq<ChatView>, keep: spec_fn(ChatView) -> Seq<ChatView>)
    requires
        tools_have_ids(d),
        forall|c: ChatView| #[trigger] keep(c) == seq![c] || keep(c).len() == 0,
    ensures
        tools_have_ids(gathered(d, keep)),
    decreases d.len(),
{
    if d.len() > 0 {
        let front = d.drop_last();
        assert forall|i: int|
            0 <= i < front.len() && (
            #[trigger] front[i]).role == ChatRole::Tool implies front[i].tool_call_id is Some by {
            assert(front[i] == d[i]);
        }
        lemma_kept_have_ids(front, keep);
        gathered_by_last(d, keep);
        assert(d.last() == d[d.len() - 1]);
        assert(keep(d.last()) == seq![d.last()] || keep(d.last()).len() == 0);
    }
}

proof fn lemma_sift_one(
    c: ChatView,
    m: ChatView,
    keep: spec_fn(ChatView) -> Seq<ChatView>,
    tell: spec_fn(ChatView) -> Seq<(Seq<char>, Seq<char>)>,
    sift: spec_fn((Seq<char>, Seq<char>)) -> Seq<(Seq<char>, Seq<char>)>,
)
    requires
        m.role == ChatRole::Tool,
        m.tool_call_id is Some,
        c.role == ChatRole::Tool ==> c.tool_call_id is Some,
        keep(c) == only_if(!answers_call(c, m.tool_call_id.unwrap()), c),
        tell(c) == only_if(
            c.role == ChatRole::Tool,
            (setting(c.tool_call_id, Seq::empty()), setting(c.content, Seq::empty())),
        ),
        forall|r: (Seq<char>, Seq<char>)|
            #[trigger] sift(r) == only_if(r.0 != m.tool_call_id.unwrap(), r),
    ensures
        gathered(keep(c), tell) == gathered(tell(c), sift),
{
    gathered_of_one(c, tell);
    if c.role == ChatRole::Tool {
        let r = (setting(c.tool_call_id, Seq::empty()), setting(c.content, Seq::empty()));
        gathered_of_one(r, sift);
        if answers_call(c, m.tool_call_id.unwrap()) {
            assert(gathered(keep(c), tell) =~= Seq::empty());
        }
    } else {
        assert(gathered(tell(c), sift) =~= Seq::empty());
    }
}

/// Where every call has a name and an id, the request tells exactly the results of
/// the conversation that answer a call, or all where orphans are not cleaned up, in
/// order and word for word; of several answers to one call the last, where they are
/// deduplicated.
pub proof fn every_answer_gets_through(
    messages: Seq<MessageView>,
    system: Seq<char>,
    compat: ProviderCompat,
    ids: Seq<Seq<char>>,
)
    requires
        calls_are_complete(messages),
    ensures
        answers_told(chat_messages(messages, system, compat, ids)) == (
        if compat.messages.dedup_tool_results == Some(true) {
            last_answers(results_to_send(messages, compat, messages.len()))
        } else {
            results_to_send(messages, compat, messages.len())
        }),
{
    let all = projected(messages, system, compat, ids).out;
    lemma_answers_of_messages(messages, system, compat, ids, messages.len());
    assert(messages.take(messages.len() as int) =~= messages);
    lemma_last_answers(all);
    let tell = |c: ChatView|
        only_if(
            c.role == ChatRole::Tool,
            (setting(c.tool_call_id, Seq::empty()), setting(c.content, Seq::empty())),
        );
    let unique = if setting(compat.messages.dedup_tool_results, false) {
        deduplicated(all)
    } else {
        all
    };
    let clean = without_orphan_calls(unique, !rules_of(compat).sanitize);
    gathered_alike(clean, unique, tell, tell);
    assert forall|a: ChatView, b: ChatView|
        a.role == ChatRole::Assistant && b.role == ChatRole::Assistant implies tell(
        #[trigger] combined(a, b),
    ) == tell(a) + tell(b) by {
        assert(tell(a) + tell(b) =~= tell(combined(a, b)));
    }
    lemma_merge_survives(unique, tell);
    lemma_merge_survives(clean, tell);
}

} // verus!
