//! What holds of every request in the OpenAI chat format.

use vstd::prelude::*;

use crate::compat::{setting, ProviderCompat};
use crate::message::{BlockView, MessageView, Role};
use crate::openai::{
    answered_calls, answered_id, assistants_merged, chat_messages, deduplicated, has_thoughts,
    is_answered, latest, plain_message, projected, superseded, system_messages, with_calls,
    with_message, with_messages, with_results, without_orphan_calls, CallView, ChatAcc, ChatRole,
    ChatView,
};
use crate::tool_ids::{
    calls_without_id, empty_ledger, ids_needed, rules_of, LedgerView, ToolIdRules,
};

verus! {

// ---------------------------------------------------------------------------
// One tool message for each call
// ---------------------------------------------------------------------------

/// Where the messages of `latest` stood.
spec fn latest_places(ms: Seq<ChatView>, n: nat) -> Seq<int>
    decreases n,
{
    if n == 0 {
        Seq::empty()
    } else {
        let rest = latest_places(ms, (n - 1) as nat);
        if superseded(ms, n - 1) {
            rest
        } else {
            rest.push(n - 1)
        }
    }
}

proof fn lemma_latest_places(ms: Seq<ChatView>, n: nat)
    requires
        n <= ms.len(),
    ensures
        latest_places(ms, n).len() == latest(ms, n).len(),
        forall|p: int|
            0 <= p < latest_places(ms, n).len() ==> {
                let i = #[trigger] latest_places(ms, n)[p];
                0 <= i < n && !superseded(ms, i) && latest(ms, n)[p] == ms[i]
            },
        forall|p: int, q: int|
            0 <= p < q < latest_places(ms, n).len() ==> (#[trigger] latest_places(ms, n)[p]) < (
            #[trigger] latest_places(ms, n)[q]),
    decreases n,
{
    if n > 0 {
        lemma_latest_places(ms, (n - 1) as nat);
    }
}

/// Every message that nothing supersedes is among the latest.
proof fn lemma_latest_has(ms: Seq<ChatView>, n: nat, i: int) -> (p: int)
    requires
        n <= ms.len(),
        0 <= i < n,
        !superseded(ms, i),
    ensures
        0 <= p < latest(ms, n).len(),
        latest_places(ms, n)[p] == i,
        latest(ms, n)[p] == ms[i],
    decreases n,
{
    lemma_latest_places(ms, n);
    lemma_latest_places(ms, (n - 1) as nat);
    if i == n - 1 {
        latest(ms, n).len() - 1
    } else {
        let p = lemma_latest_has(ms, (n - 1) as nat, i);
        p
    }
}

/// The last tool message for an id.
proof fn lemma_last_answer(ms: Seq<ChatView>, id: Seq<char>, i: int) -> (j: int)
    requires
        0 <= i < ms.len(),
        answered_id(ms[i]) == Some(id),
    ensures
        i <= j < ms.len(),
        answered_id(ms[j]) == Some(id),
        !superseded(ms, j),
    decreases ms.len() - i,
{
    if superseded(ms, i) {
        let k = choose|k: int|
            i < k < ms.len() && answered_id(#[trigger] ms[k]) == answered_id(ms[i]);
        lemma_last_answer(ms, id, k)
    } else {
        i
    }
}

/// After deduplication no call is answered twice, every call that was answered
/// still is, and the answer that stays is the last.
pub proof fn deduplication_keeps_the_last_answer(ms: Seq<ChatView>)
    ensures
        forall|p: int, q: int|
            0 <= p < q < deduplicated(ms).len() && answered_id(
                #[trigger] deduplicated(ms)[p],
            ) is Some ==> answered_id(deduplicated(ms)[p]) != answered_id(
                #[trigger] deduplicated(ms)[q],
            ),
        forall|id: Seq<char>| #[trigger]
            is_answered(deduplicated(ms), id) <==> is_answered(ms, id),
        forall|i: int, p: int|
            0 <= i < ms.len() && 0 <= p < deduplicated(ms).len() && answered_id(
                #[trigger] ms[i],
            ) is Some && !superseded(ms, i) && answered_id(#[trigger] deduplicated(ms)[p])
                == answered_id(ms[i]) ==> deduplicated(ms)[p] == ms[i],
{
    let d = deduplicated(ms);
    let at = latest_places(ms, ms.len());
    lemma_latest_places(ms, ms.len());
    assert forall|p: int, q: int|
        0 <= p < q < d.len() && answered_id(#[trigger] d[p]) is Some implies answered_id(d[p])
        != answered_id(#[trigger] d[q]) by {
        assert(at[p] < at[q]);
        assert(!superseded(ms, at[p]));
        assert(d[q] == ms[at[q]]);
    }
    assert forall|id: Seq<char>| #[trigger] is_answered(d, id) <==> is_answered(ms, id) by {
        if is_answered(d, id) {
            let p = choose|p: int| 0 <= p < d.len() && answered_id(#[trigger] d[p]) == Some(id);
            assert(d[p] == ms[at[p]]);
        }
        if is_answered(ms, id) {
            let i = choose|i: int| 0 <= i < ms.len() && answered_id(#[trigger] ms[i]) == Some(id);
            let j = lemma_last_answer(ms, id, i);
            let p = lemma_latest_has(ms, ms.len(), j);
            assert(answered_id(d[p]) == Some(id));
        }
    }
    assert forall|i: int, p: int|
        0 <= i < ms.len() && 0 <= p < d.len() && answered_id(#[trigger] ms[i]) is Some
            && !superseded(ms, i) && answered_id(#[trigger] d[p]) == answered_id(
            ms[i],
        ) implies d[p] == ms[i] by {
        assert(d[p] == ms[at[p]]);
        assert(!superseded(ms, at[p]));
        if at[p] < i {
            assert(superseded(ms, at[p]));
        } else if i < at[p] {
            assert(superseded(ms, i));
        }
    }
}

// ---------------------------------------------------------------------------
// Calls and answers
// ---------------------------------------------------------------------------

proof fn lemma_answered_calls(ms: Seq<ChatView>, calls: Seq<CallView>, retain: bool)
    ensures
        forall|k: int|
            0 <= k < answered_calls(ms, calls, retain).len() ==> {
                let call = #[trigger] answered_calls(ms, calls, retain)[k];
                calls.contains(call) && ((retain && call.name.len() == 0) || is_answered(
                    ms,
                    call.id,
                ))
            },
    decreases calls.len(),
{
    if calls.len() > 0 {
        let rest = calls.drop_last();
        lemma_answered_calls(ms, rest, retain);
        let kept = answered_calls(ms, calls, retain);
        assert forall|k: int| 0 <= k < kept.len() implies {
            let call = #[trigger] kept[k];
            calls.contains(call) && ((retain && call.name.len() == 0) || is_answered(ms, call.id))
        } by {
            let before = answered_calls(ms, rest, retain);
            if k < before.len() {
                assert(kept[k] == before[k]);
                let i = choose|i: int| 0 <= i < rest.len() && rest[i] == kept[k];
                assert(calls[i] == kept[k]);
            } else {
                assert(kept[k] == calls[calls.len() - 1]);
            }
        }
    }
}

proof fn lemma_answered_call_stays(
    ms: Seq<ChatView>,
    calls: Seq<CallView>,
    retain: bool,
    k: int,
) -> (p: int)
    requires
        0 <= k < calls.len(),
        is_answered(ms, calls[k].id),
    ensures
        0 <= p < answered_calls(ms, calls, retain).len(),
        answered_calls(ms, calls, retain)[p] == calls[k],
    decreases calls.len(),
{
    if k == calls.len() - 1 {
        answered_calls(ms, calls, retain).len() - 1
    } else {
        let p = lemma_answered_call_stays(ms, calls.drop_last(), retain, k);
        p
    }
}

/// With orphan calls cleaned, every call that goes out is answered, except that
/// calls without a name stay where malformed calls are not sanitized. The answers
/// themselves are left as they are.
pub proof fn cleaned_calls_are_answered(ms: Seq<ChatView>, retain_unnamed: bool)
    ensures
        without_orphan_calls(ms, retain_unnamed).len() == ms.len(),
        forall|i: int|
            0 <= i < ms.len() ==> answered_id(
                #[trigger] without_orphan_calls(ms, retain_unnamed)[i],
            ) == answered_id(ms[i]),
        forall|i: int, k: int|
            0 <= i < ms.len() && ms[i].role == ChatRole::Assistant && 0 <= k
                < without_orphan_calls(ms, retain_unnamed)[i].tool_calls.len() ==> {
                let call = #[trigger] without_orphan_calls(ms, retain_unnamed)[i].tool_calls[k];
                (retain_unnamed && call.name.len() == 0) || is_answered(
                    without_orphan_calls(ms, retain_unnamed),
                    call.id,
                )
            },
{
    let r = without_orphan_calls(ms, retain_unnamed);
    assert forall|i: int, k: int|
        0 <= i < ms.len() && ms[i].role == ChatRole::Assistant && 0 <= k
            < r[i].tool_calls.len() implies {
        let call = #[trigger] r[i].tool_calls[k];
        (retain_unnamed && call.name.len() == 0) || is_answered(r, call.id)
    } by {
        lemma_answered_calls(ms, ms[i].tool_calls, retain_unnamed);
        let call = r[i].tool_calls[k];
        if !(retain_unnamed && call.name.len() == 0) {
            let j = choose|j: int|
                0 <= j < ms.len() && answered_id(#[trigger] ms[j]) == Some(call.id);
            assert(answered_id(r[j]) == Some(call.id));
        }
    }
}

/// With assistant messages merged, no two of them stand in a row.
pub proof fn merged_assistants_stand_alone(ms: Seq<ChatView>)
    ensures
        forall|i: int, j: int|
            0 <= i < assistants_merged(ms).len() && j == i + 1 && j < assistants_merged(ms).len()
                ==> !((#[trigger] assistants_merged(ms)[i]).role == ChatRole::Assistant && (
            #[trigger] assistants_merged(ms)[j]).role == ChatRole::Assistant),
    decreases ms.len(),
{
    if ms.len() > 0 {
        merged_assistants_stand_alone(ms.drop_last());
    }
}

/// An assistant message calls a tool under this id.
pub open spec fn calls(m: ChatView, id: Seq<char>) -> bool {
    m.role == ChatRole::Assistant && exists|k: int|
        0 <= k < m.tool_calls.len() && (#[trigger] m.tool_calls[k]).id == id
}

/// One of the messages before `n` calls a tool under this id.
pub open spec fn called_before(ms: Seq<ChatView>, n: int, id: Seq<char>) -> bool {
    exists|j: int| 0 <= j < n && calls(#[trigger] ms[j], id)
}

/// Every tool message answers a call made before it.
pub open spec fn answers_follow_calls(ms: Seq<ChatView>) -> bool {
    forall|i: int|
        0 <= i < ms.len() ==> (answered_id(#[trigger] ms[i]) matches Some(id) ==> called_before(
            ms,
            i,
            id,
        ))
}

spec fn ledger_agrees(l: LedgerView, ms: Seq<ChatView>) -> bool {
    forall|id: Seq<char>| #[trigger]
        l.available.contains(id) ==> called_before(ms, ms.len() as int, id)
}

proof fn lemma_called_in_longer(a: Seq<ChatView>, b: Seq<ChatView>, n: int, m: int, id: Seq<char>)
    requires
        called_before(a, n, id),
        0 <= n <= a.len(),
        n <= m <= b.len(),
        forall|j: int| 0 <= j < n ==> a[j] == b[j],
    ensures
        called_before(b, m, id),
{
    let j = choose|j: int| 0 <= j < n && calls(#[trigger] a[j], id);
    assert(calls(b[j], id));
}

proof fn lemma_push_keeps_order(ms: Seq<ChatView>, m: ChatView)
    requires
        answers_follow_calls(ms),
        answered_id(m) matches Some(id) ==> called_before(ms, ms.len() as int, id),
    ensures
        answers_follow_calls(ms.push(m)),
{
    let more = ms.push(m);
    assert forall|i: int| 0 <= i < more.len() implies (answered_id(
        #[trigger] more[i],
    ) matches Some(id) ==> called_before(more, i, id)) by {
        if let Some(id) = answered_id(more[i]) {
            if i < ms.len() {
                assert(more[i] == ms[i]);
                lemma_called_in_longer(ms, more, i, i, id);
            } else {
                lemma_called_in_longer(ms, more, i, i, id);
            }
        }
    }
}

proof fn lemma_results_follow(acc: ChatAcc, rules: ToolIdRules, blocks: Seq<BlockView>)
    requires
        rules.clean_orphan_tool_results,
        ledger_agrees(acc.ledger, acc.out),
        answers_follow_calls(acc.out),
    ensures
        ({
            let r = with_results(acc, rules, blocks);
            &&& ledger_agrees(r.ledger, r.out)
            &&& answers_follow_calls(r.out)
            &&& r.ledger.available == acc.ledger.available
        }),
    decreases blocks.len(),
{
    if blocks.len() > 0 {
        lemma_results_follow(acc, rules, blocks.drop_last());
        let before = with_results(acc, rules, blocks.drop_last());
        let r = with_results(acc, rules, blocks);
        assert(r.ledger.available == before.ledger.available);
        if r.out.len() > before.out.len() {
            let m = r.out.last();
            assert(r.out =~= before.out.push(m));
            lemma_push_keeps_order(before.out, m);
            assert forall|id: Seq<char>| #[trigger] r.ledger.available.contains(
                id,
            ) implies called_before(r.out, r.out.len() as int, id) by {
                lemma_called_in_longer(
                    before.out,
                    r.out,
                    before.out.len() as int,
                    r.out.len() as int,
                    id,
                );
            }
        } else {
            assert(r.out == before.out);
        }
    }
}

proof fn lemma_calls_available(
    ledger: LedgerView,
    rules: ToolIdRules,
    ids: Seq<Seq<char>>,
    blocks: Seq<BlockView>,
)
    ensures
        forall|id: Seq<char>| #[trigger]
            with_calls(ledger, rules, ids, blocks).ledger.available.contains(id)
                ==> ledger.available.contains(id) || exists|k: int|
                0 <= k < with_calls(ledger, rules, ids, blocks).calls.len() && (
                #[trigger] with_calls(ledger, rules, ids, blocks).calls[k]).id == id,
    decreases blocks.len(),
{
    if blocks.len() > 0 {
        lemma_calls_available(ledger, rules, ids, blocks.drop_last());
        let before = with_calls(ledger, rules, ids, blocks.drop_last());
        let r = with_calls(ledger, rules, ids, blocks);
        assert forall|id: Seq<char>| #[trigger]
            r.ledger.available.contains(id) implies ledger.available.contains(id) || exists|k: int|
            0 <= k < r.calls.len() && (#[trigger] r.calls[k]).id == id by {
            if before.ledger.available.contains(id) {
                if !ledger.available.contains(id) {
                    let k = choose|k: int|
                        0 <= k < before.calls.len() && (#[trigger] before.calls[k]).id == id;
                    assert(r.calls[k] == before.calls[k]);
                }
            } else {
                assert(r.calls[before.calls.len() as int].id == id);
            }
        }
    }
}

proof fn lemma_messages_follow(
    acc: ChatAcc,
    compat: ProviderCompat,
    ids: Seq<Seq<char>>,
    thoughts: bool,
    messages: Seq<MessageView>,
)
    requires
        rules_of(compat).clean_orphan_tool_results,
        ledger_agrees(acc.ledger, acc.out),
        answers_follow_calls(acc.out),
    ensures
        ({
            let r = with_messages(acc, compat, ids, thoughts, messages);
            ledger_agrees(r.ledger, r.out) && answers_follow_calls(r.out)
        }),
    decreases messages.len(),
{
    if messages.len() > 0 {
        lemma_messages_follow(acc, compat, ids, thoughts, messages.drop_last());
        let before = with_messages(acc, compat, ids, thoughts, messages.drop_last());
        let r = with_messages(acc, compat, ids, thoughts, messages);
        let msg = messages.last();
        lemma_results_follow(before, rules_of(compat), msg.content);
        if r.out.len() == before.out.len() + 1 && r.out.drop_last() == before.out
            && r.out.last().role != ChatRole::Tool {
            let m = r.out.last();
            assert(r.out =~= before.out.push(m));
            lemma_push_keeps_order(before.out, m);
            lemma_calls_available(before.ledger, rules_of(compat), ids, msg.content);
            assert forall|id: Seq<char>| #[trigger] r.ledger.available.contains(
                id,
            ) implies called_before(r.out, r.out.len() as int, id) by {
                if before.ledger.available.contains(id) {
                    lemma_called_in_longer(
                        before.out,
                        r.out,
                        before.out.len() as int,
                        r.out.len() as int,
                        id,
                    );
                } else {
                    let parts = with_calls(before.ledger, rules_of(compat), ids, msg.content);
                    assert(msg.role == Role::Assistant);
                    assert(parts.ledger.available.contains(id));
                    let k = choose|k: int|
                        0 <= k < parts.calls.len() && (#[trigger] parts.calls[k]).id == id;
                    assert(r.out[before.out.len() as int].tool_calls[k].id == id);
                    assert(calls(r.out[before.out.len() as int], id));
                }
            }
        } else if msg.role == Role::Assistant {
            assert(r.out.drop_last() =~= before.out);
        } else if msg.role == Role::User {
            if !(with_message(before, compat, ids, thoughts, msg) == with_results(
                before,
                rules_of(compat),
                msg.content,
            )) {
                assert(r.out.drop_last() =~= before.out);
            }
        }
    }
}

proof fn lemma_dedup_follows(ms: Seq<ChatView>)
    requires
        answers_follow_calls(ms),
    ensures
        answers_follow_calls(deduplicated(ms)),
{
    let d = deduplicated(ms);
    let at = latest_places(ms, ms.len());
    lemma_latest_places(ms, ms.len());
    assert forall|p: int| 0 <= p < d.len() implies (answered_id(#[trigger] d[p]) matches Some(id)
        ==> called_before(d, p, id)) by {
        if let Some(id) = answered_id(d[p]) {
            assert(d[p] == ms[at[p]]);
            assert(called_before(ms, at[p], id));
            let j = choose|j: int| 0 <= j < at[p] && calls(#[trigger] ms[j], id);
            assert(!superseded(ms, j));
            let q = lemma_latest_has(ms, ms.len(), j);
            assert(at[q] == j);
            if p < q {
                assert(at[p] < at[q]);
            }
            assert(q < p);
            assert(calls(d[q], id));
        }
    }
}

proof fn lemma_clean_follows(ms: Seq<ChatView>, retain: bool)
    requires
        answers_follow_calls(ms),
    ensures
        answers_follow_calls(without_orphan_calls(ms, retain)),
{
    let r = without_orphan_calls(ms, retain);
    assert forall|i: int| 0 <= i < r.len() implies (answered_id(#[trigger] r[i]) matches Some(id)
        ==> called_before(r, i, id)) by {
        if let Some(id) = answered_id(r[i]) {
            assert(answered_id(ms[i]) == Some(id));
            let j = choose|j: int| 0 <= j < i && calls(#[trigger] ms[j], id);
            let k = choose|k: int|
                0 <= k < ms[j].tool_calls.len() && (#[trigger] ms[j].tool_calls[k]).id == id;
            assert(is_answered(ms, id));
            let p = lemma_answered_call_stays(ms, ms[j].tool_calls, retain, k);
            assert(r[j].tool_calls[p].id == id);
            assert(calls(r[j], id));
        }
    }
}

proof fn lemma_merge_keeps_calls(ms: Seq<ChatView>, id: Seq<char>)
    requires
        called_before(ms, ms.len() as int, id),
    ensures
        called_before(assistants_merged(ms), assistants_merged(ms).len() as int, id),
    decreases ms.len(),
{
    let j = choose|j: int| 0 <= j < ms.len() && calls(#[trigger] ms[j], id);
    let rest = assistants_merged(ms.drop_last());
    let r = assistants_merged(ms);
    let m = ms.last();
    if j < ms.len() - 1 {
        assert(calls(ms.drop_last()[j], id));
        lemma_merge_keeps_calls(ms.drop_last(), id);
        let q = choose|q: int| 0 <= q < rest.len() && calls(#[trigger] rest[q], id);
        if q < rest.len() - 1 || r.len() > rest.len() {
            assert(r[q] == rest[q]);
        } else {
            let k = choose|k: int|
                0 <= k < rest[q].tool_calls.len() && (#[trigger] rest[q].tool_calls[k]).id == id;
            assert(r[q].tool_calls[k] == rest[q].tool_calls[k]);
            assert(calls(r[q], id));
        }
    } else {
        let k = choose|k: int|
            0 <= k < m.tool_calls.len() && (#[trigger] m.tool_calls[k]).id == id;
        let last = r[r.len() - 1];
        let off = last.tool_calls.len() - m.tool_calls.len();
        assert(last.tool_calls[off + k] == m.tool_calls[k]);
        assert(calls(last, id));
    }
}

proof fn lemma_merge_follows(ms: Seq<ChatView>)
    requires
        answers_follow_calls(ms),
    ensures
        answers_follow_calls(assistants_merged(ms)),
    decreases ms.len(),
{
    if ms.len() > 0 {
        let front = ms.drop_last();
        let rest = assistants_merged(front);
        let r = assistants_merged(ms);
        let m = ms.last();
        assert forall|i: int| 0 <= i < front.len() implies (answered_id(
            #[trigger] front[i],
        ) matches Some(id) ==> called_before(front, i, id)) by {
            if let Some(id) = answered_id(front[i]) {
                assert(answered_id(ms[i]) == Some(id));
                lemma_called_in_longer(ms, front, i, i, id);
            }
        }
        lemma_merge_follows(front);
        if r.len() > rest.len() {
            if let Some(id) = answered_id(m) {
                assert(answered_id(ms[ms.len() - 1]) == Some(id));
                lemma_called_in_longer(ms, front, ms.len() - 1, ms.len() - 1, id);
                lemma_merge_keeps_calls(front, id);
            }
            lemma_push_keeps_order(rest, m);
        } else {
            assert forall|i: int| 0 <= i < r.len() implies (answered_id(
                #[trigger] r[i],
            ) matches Some(id) ==> called_before(r, i, id)) by {
                if let Some(id) = answered_id(r[i]) {
                    assert(i < rest.len() - 1);
                    assert(r[i] == rest[i]);
                    lemma_called_in_longer(rest, r, i, i, id);
                }
            }
        }
    }
}

/// With orphan results cleaned, every tool message that goes out answers a call
/// that goes out before it.
pub proof fn every_answer_follows_its_call(
    messages: Seq<MessageView>,
    system: Seq<char>,
    compat: ProviderCompat,
    ids: Seq<Seq<char>>,
)
    requires
        setting(compat.messages.clean_orphan_tool_results, false),
    ensures
        answers_follow_calls(chat_messages(messages, system, compat, ids)),
{
    let start = ChatAcc { ledger: empty_ledger(), out: system_messages(system) };
    lemma_messages_follow(start, compat, ids, has_thoughts(messages), messages);
    let all = projected(messages, system, compat, ids).out;
    lemma_dedup_follows(all);
    let unique = if setting(compat.messages.dedup_tool_results, false) {
        deduplicated(all)
    } else {
        all
    };
    lemma_clean_follows(unique, !rules_of(compat).sanitize);
    let answered = if setting(compat.tools.clean_orphan_tool_calls, false) {
        without_orphan_calls(unique, !rules_of(compat).sanitize)
    } else {
        unique
    };
    lemma_merge_follows(answered);
}

// ---------------------------------------------------------------------------
// What every single message has
// ---------------------------------------------------------------------------

/// Every call in the message has a name and an id.
pub open spec fn calls_are_named(m: ChatView) -> bool {
    forall|k: int|
        0 <= k < m.tool_calls.len() ==> (#[trigger] m.tool_calls[k]).id.len() > 0
            && m.tool_calls[k].name.len() > 0
}

/// The message says something or calls something.
pub open spec fn has_substance(m: ChatView) -> bool {
    m.content is Some || m.tool_calls.len() > 0
}

spec fn all_named(ms: Seq<ChatView>) -> bool {
    forall|i: int| 0 <= i < ms.len() ==> calls_are_named(#[trigger] ms[i])
}

spec fn all_have_substance(ms: Seq<ChatView>) -> bool {
    forall|i: int| 0 <= i < ms.len() ==> has_substance(#[trigger] ms[i])
}

proof fn lemma_results_plain(acc: ChatAcc, rules: ToolIdRules, blocks: Seq<BlockView>)
    ensures
        ({
            let r = with_results(acc, rules, blocks);
            &&& all_named(acc.out) ==> all_named(r.out)
            &&& all_have_substance(acc.out) ==> all_have_substance(r.out)
            &&& r.ledger.drawn == acc.ledger.drawn
            &&& acc.out.len() <= r.out.len()
            &&& forall|i: int| 0 <= i < acc.out.len() ==> #[trigger] r.out[i] == acc.out[i]
            &&& forall|i: int|
                acc.out.len() <= i < r.out.len() ==> (#[trigger] r.out[i]).role == ChatRole::Tool
        }),
    decreases blocks.len(),
{
    if blocks.len() > 0 {
        lemma_results_plain(acc, rules, blocks.drop_last());
    }
}

proof fn lemma_calls_named(
    ledger: LedgerView,
    rules: ToolIdRules,
    ids: Seq<Seq<char>>,
    blocks: Seq<BlockView>,
)
    requires
        rules.sanitize,
        forall|i: int| 0 <= i < ids.len() ==> (#[trigger] ids[i]).len() > 0,
        ledger.drawn + calls_without_id(blocks) <= ids.len(),
    ensures
        ({
            let r = with_calls(ledger, rules, ids, blocks);
            &&& r.ledger.drawn <= ledger.drawn + calls_without_id(blocks)
            &&& forall|k: int|
                0 <= k < r.calls.len() ==> (#[trigger] r.calls[k]).id.len() > 0
                    && r.calls[k].name.len() > 0
        }),
    decreases blocks.len(),
{
    if blocks.len() > 0 {
        lemma_calls_named(ledger, rules, ids, blocks.drop_last());
    }
}

proof fn lemma_messages_named(
    acc: ChatAcc,
    compat: ProviderCompat,
    ids: Seq<Seq<char>>,
    thoughts: bool,
    messages: Seq<MessageView>,
)
    requires
        rules_of(compat).sanitize,
        forall|i: int| 0 <= i < ids.len() ==> (#[trigger] ids[i]).len() > 0,
        acc.ledger.drawn + ids_needed(messages) <= ids.len(),
        all_named(acc.out),
    ensures
        all_named(with_messages(acc, compat, ids, thoughts, messages).out),
        with_messages(acc, compat, ids, thoughts, messages).ledger.drawn <= acc.ledger.drawn
            + ids_needed(messages),
    decreases messages.len(),
{
    if messages.len() > 0 {
        lemma_messages_named(acc, compat, ids, thoughts, messages.drop_last());
        let before = with_messages(acc, compat, ids, thoughts, messages.drop_last());
        let msg = messages.last();
        lemma_results_plain(before, rules_of(compat), msg.content);
        lemma_calls_named(before.ledger, rules_of(compat), ids, msg.content);
    }
}

proof fn lemma_messages_have_substance(
    acc: ChatAcc,
    compat: ProviderCompat,
    ids: Seq<Seq<char>>,
    thoughts: bool,
    messages: Seq<MessageView>,
)
    requires
        all_have_substance(acc.out),
    ensures
        all_have_substance(with_messages(acc, compat, ids, thoughts, messages).out),
    decreases messages.len(),
{
    if messages.len() > 0 {
        lemma_messages_have_substance(acc, compat, ids, thoughts, messages.drop_last());
        let before = with_messages(acc, compat, ids, thoughts, messages.drop_last());
        lemma_results_plain(before, rules_of(compat), messages.last().content);
    }
}

proof fn lemma_clean_up_each(ms: Seq<ChatView>, retain: bool)
    ensures
        all_named(ms) ==> all_named(deduplicated(ms)) && all_named(
            without_orphan_calls(ms, retain),
        ),
        all_have_substance(ms) ==> all_have_substance(deduplicated(ms)) && all_have_substance(
            without_orphan_calls(ms, retain),
        ),
{
    let d = deduplicated(ms);
    let c = without_orphan_calls(ms, retain);
    lemma_latest_places(ms, ms.len());
    let at = latest_places(ms, ms.len());
    assert forall|p: int| 0 <= p < d.len() implies #[trigger] d[p] == ms[at[p]] && 0 <= at[p]
        < ms.len() by {}
    assert forall|i: int| 0 <= i < c.len() && calls_are_named(ms[i]) implies calls_are_named(
        #[trigger] c[i],
    ) by {
        lemma_answered_calls(ms, ms[i].tool_calls, retain);
        assert forall|k: int| 0 <= k < c[i].tool_calls.len() implies (
        #[trigger] c[i].tool_calls[k]).id.len() > 0 && c[i].tool_calls[k].name.len() > 0 by {
            let call = c[i].tool_calls[k];
            assert(ms[i].tool_calls.contains(call));
        }
    }
    if all_named(ms) {
        assert forall|i: int| 0 <= i < c.len() implies calls_are_named(#[trigger] c[i]) by {
            assert(calls_are_named(ms[i]));
        }
    }
    if all_have_substance(ms) {
        assert forall|i: int| 0 <= i < c.len() implies has_substance(#[trigger] c[i]) by {
            assert(has_substance(ms[i]));
        }
    }
}

proof fn lemma_merge_each(ms: Seq<ChatView>)
    ensures
        all_named(ms) ==> all_named(assistants_merged(ms)),
        all_have_substance(ms) ==> all_have_substance(assistants_merged(ms)),
    decreases ms.len(),
{
    if ms.len() > 0 {
        let front = ms.drop_last();
        lemma_merge_each(front);
        let rest = assistants_merged(front);
        let r = assistants_merged(ms);
        let m = ms.last();
        assert(m == ms[ms.len() - 1]);
        if all_named(ms) {
            assert(all_named(front));
            assert forall|i: int| 0 <= i < r.len() implies calls_are_named(#[trigger] r[i]) by {
                assert(calls_are_named(m));
                if i < rest.len() {
                    assert(calls_are_named(rest[i]));
                }
            }
        }
        if all_have_substance(ms) {
            assert(all_have_substance(front));
            assert forall|i: int| 0 <= i < r.len() implies has_substance(#[trigger] r[i]) by {
                assert(has_substance(m));
                if i < rest.len() {
                    assert(has_substance(rest[i]));
                }
            }
        }
    }
}

/// With malformed calls sanitized, and with non-empty ids for the calls that
/// lack one, every tool call that goes out has a name and an id.
pub proof fn no_malformed_call_goes_out(
    messages: Seq<MessageView>,
    system: Seq<char>,
    compat: ProviderCompat,
    ids: Seq<Seq<char>>,
)
    requires
        setting(compat.tools.sanitize_malformed_tool_calls, false),
        forall|i: int| 0 <= i < ids.len() ==> (#[trigger] ids[i]).len() > 0,
        ids_needed(messages) <= ids.len(),
    ensures
        forall|i: int|
            0 <= i < chat_messages(messages, system, compat, ids).len() ==> calls_are_named(
                #[trigger] chat_messages(messages, system, compat, ids)[i],
            ),
{
    let start = ChatAcc { ledger: empty_ledger(), out: system_messages(system) };
    lemma_messages_named(start, compat, ids, has_thoughts(messages), messages);
    let all = projected(messages, system, compat, ids).out;
    lemma_clean_up_each(all, !rules_of(compat).sanitize);
    let unique = if setting(compat.messages.dedup_tool_results, false) {
        deduplicated(all)
    } else {
        all
    };
    lemma_clean_up_each(unique, !rules_of(compat).sanitize);
    lemma_merge_each(without_orphan_calls(unique, !rules_of(compat).sanitize));
    lemma_merge_each(unique);
}

/// No message goes out with neither a content nor a call.
pub proof fn no_empty_message_goes_out(
    messages: Seq<MessageView>,
    system: Seq<char>,
    compat: ProviderCompat,
    ids: Seq<Seq<char>>,
)
    ensures
        forall|i: int|
            0 <= i < chat_messages(messages, system, compat, ids).len() ==> has_substance(
                #[trigger] chat_messages(messages, system, compat, ids)[i],
            ),
{
    let start = ChatAcc { ledger: empty_ledger(), out: system_messages(system) };
    lemma_messages_have_substance(start, compat, ids, has_thoughts(messages), messages);
    let all = projected(messages, system, compat, ids).out;
    lemma_clean_up_each(all, !rules_of(compat).sanitize);
    let unique = if setting(compat.messages.dedup_tool_results, false) {
        deduplicated(all)
    } else {
        all
    };
    lemma_clean_up_each(unique, !rules_of(compat).sanitize);
    lemma_merge_each(without_orphan_calls(unique, !rules_of(compat).sanitize));
    lemma_merge_each(unique);
}

// ---------------------------------------------------------------------------
// The system prompt
// ---------------------------------------------------------------------------

/// The system prompt stands first and nowhere else.
spec fn led_by(ms: Seq<ChatView>, system: Seq<char>) -> bool {
    &&& system.len() > 0 ==> ms.len() > 0 && ms[0] == plain_message(ChatRole::System, system)
    &&& forall|i: int|
        0 <= i < ms.len() && (i > 0 || system.len() == 0) ==> (#[trigger] ms[i]).role
            != ChatRole::System
}

proof fn lemma_messages_led(
    acc: ChatAcc,
    system: Seq<char>,
    compat: ProviderCompat,
    ids: Seq<Seq<char>>,
    thoughts: bool,
    messages: Seq<MessageView>,
)
    requires
        led_by(acc.out, system),
    ensures
        led_by(with_messages(acc, compat, ids, thoughts, messages).out, system),
    decreases messages.len(),
{
    if messages.len() > 0 {
        lemma_messages_led(acc, system, compat, ids, thoughts, messages.drop_last());
        let before = with_messages(acc, compat, ids, thoughts, messages.drop_last());
        lemma_results_plain(before, rules_of(compat), messages.last().content);
    }
}

proof fn lemma_dedup_led(ms: Seq<ChatView>, system: Seq<char>)
    requires
        led_by(ms, system),
    ensures
        led_by(deduplicated(ms), system),
{
    let d = deduplicated(ms);
    let at = latest_places(ms, ms.len());
    lemma_latest_places(ms, ms.len());
    if system.len() > 0 {
        let p = lemma_latest_has(ms, ms.len(), 0);
        assert(at[p] == 0);
        if p > 0 {
            assert(at[0] < at[p]);
        }
    }
    assert forall|p: int| 0 <= p < d.len() && (p > 0 || system.len() == 0) implies (
    #[trigger] d[p]).role != ChatRole::System by {
        assert(d[p] == ms[at[p]]);
        if p > 0 {
            assert(at[0] < at[p]);
        }
    }
}

proof fn lemma_merge_led(ms: Seq<ChatView>, system: Seq<char>)
    requires
        led_by(ms, system),
    ensures
        led_by(assistants_merged(ms), system),
    decreases ms.len(),
{
    if ms.len() > 0 {
        let front = ms.drop_last();
        let m = ms.last();
        assert(m == ms[ms.len() - 1]);
        if front.len() == 0 {
            assert(assistants_merged(front) =~= Seq::empty());
            assert(assistants_merged(ms) =~= seq![m]);
        } else {
            assert(led_by(front, system));
            lemma_merge_led(front, system);
        }
    }
}

/// A system prompt goes out as the first message, and no other message has its
/// role.
pub proof fn the_system_prompt_leads(
    messages: Seq<MessageView>,
    system: Seq<char>,
    compat: ProviderCompat,
    ids: Seq<Seq<char>>,
)
    ensures
        ({
            let ms = chat_messages(messages, system, compat, ids);
            &&& system.len() > 0 ==> ms.len() > 0 && ms[0] == plain_message(
                ChatRole::System,
                system,
            )
            &&& forall|i: int|
                0 <= i < ms.len() && (i > 0 || system.len() == 0) ==> (#[trigger] ms[i]).role
                    != ChatRole::System
        }),
{
    let start = ChatAcc { ledger: empty_ledger(), out: system_messages(system) };
    lemma_messages_led(start, system, compat, ids, has_thoughts(messages), messages);
    let all = projected(messages, system, compat, ids).out;
    lemma_dedup_led(all, system);
    let unique = if setting(compat.messages.dedup_tool_results, false) {
        deduplicated(all)
    } else {
        all
    };
    let answered = if setting(compat.tools.clean_orphan_tool_calls, false) {
        without_orphan_calls(unique, !rules_of(compat).sanitize)
    } else {
        unique
    };
    assert(led_by(answered, system));
    lemma_merge_led(answered, system);
}

// ---------------------------------------------------------------------------
// Thoughts
// ---------------------------------------------------------------------------

/// Every assistant message says what was thought, or none does.
spec fn thoughts_told(ms: Seq<ChatView>, told: bool) -> bool {
    forall|i: int|
        0 <= i < ms.len() && (#[trigger] ms[i]).role == ChatRole::Assistant
            ==> ms[i].reasoning_content is Some == told
}

proof fn lemma_messages_told(
    acc: ChatAcc,
    compat: ProviderCompat,
    ids: Seq<Seq<char>>,
    told: bool,
    messages: Seq<MessageView>,
)
    requires
        thoughts_told(acc.out, told),
    ensures
        thoughts_told(with_messages(acc, compat, ids, told, messages).out, told),
    decreases messages.len(),
{
    if messages.len() > 0 {
        lemma_messages_told(acc, compat, ids, told, messages.drop_last());
        let before = with_messages(acc, compat, ids, told, messages.drop_last());
        lemma_results_plain(before, rules_of(compat), messages.last().content);
    }
}

proof fn lemma_merge_told(ms: Seq<ChatView>, told: bool)
    requires
        thoughts_told(ms, told),
    ensures
        thoughts_told(assistants_merged(ms), told),
    decreases ms.len(),
{
    if ms.len() > 0 {
        let front = ms.drop_last();
        let m = ms.last();
        assert(m == ms[ms.len() - 1]);
        assert(thoughts_told(front, told));
        lemma_merge_told(front, told);
        let rest = assistants_merged(front);
        let r = assistants_merged(ms);
        assert forall|i: int|
            0 <= i < r.len() && (#[trigger] r[i]).role == ChatRole::Assistant implies r[i].reasoning_content is Some
            == told by {
            if i < rest.len() {
                assert(rest[i].role == r[i].role);
                assert(rest[i].reasoning_content is Some == told);
            }
        }
    }
}

/// Once any assistant message of the conversation holds a thought, every
/// assistant message that goes out says what was thought, if only nothing; before
/// that, none does.
pub proof fn thoughts_go_out_with_all_or_none(
    messages: Seq<MessageView>,
    system: Seq<char>,
    compat: ProviderCompat,
    ids: Seq<Seq<char>>,
)
    ensures
        forall|i: int|
            0 <= i < chat_messages(messages, system, compat, ids).len() && (
            #[trigger] chat_messages(messages, system, compat, ids)[i]).role == ChatRole::Assistant
                ==> chat_messages(messages, system, compat, ids)[i].reasoning_content is Some
                == has_thoughts(messages),
{
    let told = has_thoughts(messages);
    let start = ChatAcc { ledger: empty_ledger(), out: system_messages(system) };
    lemma_messages_told(start, compat, ids, told, messages);
    let all = projected(messages, system, compat, ids).out;
    lemma_latest_places(all, all.len());
    let unique = if setting(compat.messages.dedup_tool_results, false) {
        deduplicated(all)
    } else {
        all
    };
    assert(thoughts_told(unique, told)) by {
        if setting(compat.messages.dedup_tool_results, false) {
            let at = latest_places(all, all.len());
            assert forall|p: int| 0 <= p < unique.len() implies #[trigger] unique[p] == all[at[p]]
                && 0 <= at[p] < all.len() by {}
        }
    }
    let answered = if setting(compat.tools.clean_orphan_tool_calls, false) {
        without_orphan_calls(unique, !rules_of(compat).sanitize)
    } else {
        unique
    };
    assert(thoughts_told(answered, told));
    lemma_merge_told(answered, told);
}

// ---------------------------------------------------------------------------
// Every call is answered, once
// ---------------------------------------------------------------------------

/// The ids that the tool messages answer, in order.
pub open spec fn answers(ms: Seq<ChatView>) -> Seq<Seq<char>>
    decreases ms.len(),
{
    if ms.len() == 0 {
        Seq::empty()
    } else {
        let rest = answers(ms.drop_last());
        match answered_id(ms.last()) {
            Some(id) => rest.push(id),
            None => rest,
        }
    }
}

proof fn lemma_answers(ms: Seq<ChatView>, id: Seq<char>)
    ensures
        answers(ms).contains(id) <==> is_answered(ms, id),
    decreases ms.len(),
{
    if ms.len() > 0 {
        let front = ms.drop_last();
        lemma_answers(front, id);
        let rest = answers(front);
        if is_answered(ms, id) {
            let j = choose|j: int| 0 <= j < ms.len() && answered_id(#[trigger] ms[j]) == Some(id);
            if j < front.len() {
                assert(answered_id(front[j]) == Some(id));
                let k = choose|k: int| 0 <= k < rest.len() && rest[k] == id;
                assert(answers(ms)[k] == id);
            } else {
                assert(answers(ms)[rest.len() as int] == id);
            }
        }
        if answers(ms).contains(id) {
            let k = choose|k: int| 0 <= k < answers(ms).len() && answers(ms)[k] == id;
            if k < rest.len() {
                assert(rest[k] == id);
                assert(is_answered(front, id));
                let j = choose|j: int|
                    0 <= j < front.len() && answered_id(#[trigger] front[j]) == Some(id);
                assert(answered_id(ms[j]) == Some(id));
            } else {
                assert(answered_id(ms[ms.len() - 1]) == Some(id));
            }
        }
    }
}

proof fn lemma_same_answers(a: Seq<ChatView>, b: Seq<ChatView>)
    requires
        a.len() == b.len(),
        forall|i: int| 0 <= i < a.len() ==> answered_id(#[trigger] a[i]) == answered_id(b[i]),
    ensures
        answers(a) == answers(b),
    decreases a.len(),
{
    if a.len() > 0 {
        let x = a.drop_last();
        let y = b.drop_last();
        assert forall|i: int| 0 <= i < x.len() implies answered_id(#[trigger] x[i]) == answered_id(
            y[i],
        ) by {
            assert(a[i] == x[i]);
        }
        lemma_same_answers(x, y);
        assert(answered_id(a[a.len() - 1]) == answered_id(b[a.len() - 1]));
    }
}

proof fn lemma_merge_keeps_answers(ms: Seq<ChatView>)
    ensures
        answers(assistants_merged(ms)) == answers(ms),
    decreases ms.len(),
{
    if ms.len() > 0 {
        let front = ms.drop_last();
        lemma_merge_keeps_answers(front);
        let rest = assistants_merged(front);
        let r = assistants_merged(ms);
        if r.len() == rest.len() {
            assert(r.drop_last() =~= rest.drop_last());
        } else {
            assert(r.drop_last() =~= rest);
        }
    }
}

proof fn lemma_distinct_answers(ms: Seq<ChatView>)
    requires
        forall|p: int, q: int|
            0 <= p < q < ms.len() && answered_id(#[trigger] ms[p]) is Some ==> answered_id(ms[p])
                != answered_id(#[trigger] ms[q]),
    ensures
        answers(ms).no_duplicates(),
    decreases ms.len(),
{
    if ms.len() > 0 {
        let front = ms.drop_last();
        assert forall|p: int, q: int|
            0 <= p < q < front.len() && answered_id(#[trigger] front[p]) is Some implies answered_id(
            front[p],
        ) != answered_id(#[trigger] front[q]) by {
            assert(front[p] == ms[p] && front[q] == ms[q]);
        }
        lemma_distinct_answers(front);
        if let Some(id) = answered_id(ms.last()) {
            if answers(front).contains(id) {
                lemma_answers(front, id);
                let j = choose|j: int|
                    0 <= j < front.len() && answered_id(#[trigger] front[j]) == Some(id);
                assert(answered_id(ms[j]) != answered_id(ms[ms.len() - 1]));
            }
            assert(answers(ms).no_duplicates()) by {
                let a = answers(ms);
                let b = answers(front);
                assert forall|i: int, j: int| 0 <= i < j < a.len() implies a[i] != a[j] by {
                    assert(a[i] == b[i]);
                    if j < b.len() {
                        assert(a[j] == b[j]);
                    } else {
                        assert(b.contains(b[i]));
                    }
                }
            }
        }
    }
}

/// With tool results deduplicated, no call is answered twice in a request.
pub proof fn no_call_is_answered_twice(
    messages: Seq<MessageView>,
    system: Seq<char>,
    compat: ProviderCompat,
    ids: Seq<Seq<char>>,
)
    requires
        setting(compat.messages.dedup_tool_results, false),
    ensures
        answers(chat_messages(messages, system, compat, ids)).no_duplicates(),
{
    let all = projected(messages, system, compat, ids).out;
    let unique = deduplicated(all);
    let retain = !rules_of(compat).sanitize;
    deduplication_keeps_the_last_answer(all);
    lemma_distinct_answers(unique);
    cleaned_calls_are_answered(unique, retain);
    lemma_same_answers(without_orphan_calls(unique, retain), unique);
    lemma_merge_keeps_answers(unique);
    lemma_merge_keeps_answers(without_orphan_calls(unique, retain));
}

/// Each call in the messages is answered by one of them.
spec fn all_answered(ms: Seq<ChatView>, by: Seq<ChatView>) -> bool {
    forall|i: int, k: int|
        0 <= i < ms.len() && 0 <= k < ms[i].tool_calls.len() && ms[i].role == ChatRole::Assistant
            ==> is_answered(by, (#[trigger] ms[i].tool_calls[k]).id)
}

proof fn lemma_merge_answered(ms: Seq<ChatView>, by: Seq<ChatView>)
    requires
        all_answered(ms, by),
    ensures
        all_answered(assistants_merged(ms), by),
    decreases ms.len(),
{
    if ms.len() > 0 {
        let front = ms.drop_last();
        let m = ms.last();
        assert(m == ms[ms.len() - 1]);
        assert forall|i: int, k: int|
            0 <= i < front.len() && 0 <= k < front[i].tool_calls.len() && front[i].role
                == ChatRole::Assistant implies is_answered(
            by,
            (#[trigger] front[i].tool_calls[k]).id,
        ) by {
            assert(front[i] == ms[i]);
            assert(is_answered(by, ms[i].tool_calls[k].id));
        }
        lemma_merge_answered(front, by);
        let rest = assistants_merged(front);
        let r = assistants_merged(ms);
        assert forall|i: int, k: int|
            0 <= i < r.len() && 0 <= k < r[i].tool_calls.len() && r[i].role
                == ChatRole::Assistant implies is_answered(
            by,
            (#[trigger] r[i].tool_calls[k]).id,
        ) by {
            if r.len() > rest.len() && i == rest.len() {
                assert(is_answered(by, ms[ms.len() - 1].tool_calls[k].id));
            } else if i < rest.len() && k < rest[i].tool_calls.len() {
                assert(rest[i].role == ChatRole::Assistant);
                assert(r[i].tool_calls[k] == rest[i].tool_calls[k]);
                assert(is_answered(by, rest[i].tool_calls[k].id));
            } else {
                let j = k - rest[i].tool_calls.len();
                assert(r[i].tool_calls[k] == m.tool_calls[j]);
                assert(is_answered(by, ms[ms.len() - 1].tool_calls[j].id));
            }
        }
    }
}

/// With orphan calls cleaned and malformed ones sanitized, every call in a
/// request is answered in it.
pub proof fn every_call_is_answered(
    messages: Seq<MessageView>,
    system: Seq<char>,
    compat: ProviderCompat,
    ids: Seq<Seq<char>>,
)
    requires
        setting(compat.tools.clean_orphan_tool_calls, false),
        setting(compat.tools.sanitize_malformed_tool_calls, false),
    ensures
        ({
            let ms = chat_messages(messages, system, compat, ids);
            forall|i: int, k: int|
                0 <= i < ms.len() && 0 <= k < ms[i].tool_calls.len() && ms[i].role
                    == ChatRole::Assistant ==> answers(ms).contains(
                    (#[trigger] ms[i].tool_calls[k]).id,
                )
        }),
{
    let all = projected(messages, system, compat, ids).out;
    let unique = if setting(compat.messages.dedup_tool_results, false) {
        deduplicated(all)
    } else {
        all
    };
    let clean = without_orphan_calls(unique, false);
    cleaned_calls_are_answered(unique, false);
    assert(all_answered(clean, clean)) by {
        assert forall|i: int, k: int|
            0 <= i < clean.len() && 0 <= k < clean[i].tool_calls.len() && clean[i].role
                == ChatRole::Assistant implies is_answered(
            clean,
            (#[trigger] clean[i].tool_calls[k]).id,
        ) by {
            assert(unique[i].role == ChatRole::Assistant);
        }
    }
    lemma_merge_answered(clean, clean);
    lemma_merge_keeps_answers(clean);
    let ms = chat_messages(messages, system, compat, ids);
    assert forall|i: int, k: int|
        0 <= i < ms.len() && 0 <= k < ms[i].tool_calls.len() && ms[i].role
            == ChatRole::Assistant implies answers(ms).contains(
        (#[trigger] ms[i].tool_calls[k]).id,
    ) by {
        let id = ms[i].tool_calls[k].id;
        assert(is_answered(clean, id));
        lemma_answers(clean, id);
    }
}

// ---------------------------------------------------------------------------
// Deduplication settles
// ---------------------------------------------------------------------------

proof fn lemma_latest_of_distinct(ms: Seq<ChatView>, n: nat)
    requires
        n <= ms.len(),
        forall|i: int| 0 <= i < ms.len() ==> !(#[trigger] superseded(ms, i)),
    ensures
        latest(ms, n) == ms.take(n as int),
    decreases n,
{
    if n > 0 {
        lemma_latest_of_distinct(ms, (n - 1) as nat);
        assert(!superseded(ms, n - 1));
        assert(ms.take(n - 1).push(ms[n - 1]) =~= ms.take(n as int));
    } else {
        assert(ms.take(0) =~= Seq::empty());
    }
}

/// Deduplicating twice is deduplicating once.
pub proof fn deduplicating_twice_is_deduplicating_once(ms: Seq<ChatView>)
    ensures
        deduplicated(deduplicated(ms)) == deduplicated(ms),
{
    let d = deduplicated(ms);
    deduplication_keeps_the_last_answer(ms);
    assert forall|i: int| 0 <= i < d.len() implies !(#[trigger] superseded(d, i)) by {
        if superseded(d, i) {
            let j = choose|j: int|
                i < j < d.len() && answered_id(#[trigger] d[j]) == answered_id(d[i]);
            assert(answered_id(d[i]) != answered_id(d[j]));
        }
    }
    lemma_latest_of_distinct(d, d.len());
    assert(d.take(d.len() as int) =~= d);
}

// ---------------------------------------------------------------------------
// Only the assistant thinks
// ---------------------------------------------------------------------------

/// No message but an assistant's carries thoughts.
pub open spec fn only_assistants_think(ms: Seq<ChatView>) -> bool {
    forall|i: int|
        0 <= i < ms.len() && (#[trigger] ms[i]).reasoning_content is Some ==> ms[i].role
            == ChatRole::Assistant
}

proof fn lemma_results_do_not_think(acc: ChatAcc, rules: ToolIdRules, blocks: Seq<BlockView>)
    requires
        only_assistants_think(acc.out),
    ensures
        only_assistants_think(with_results(acc, rules, blocks).out),
    decreases blocks.len(),
{
    if blocks.len() > 0 {
        lemma_results_do_not_think(acc, rules, blocks.drop_last());
    }
}

proof fn lemma_only_assistants_think(
    acc: ChatAcc,
    compat: ProviderCompat,
    ids: Seq<Seq<char>>,
    thoughts: bool,
    messages: Seq<MessageView>,
)
    requires
        only_assistants_think(acc.out),
    ensures
        only_assistants_think(with_messages(acc, compat, ids, thoughts, messages).out),
    decreases messages.len(),
{
    if messages.len() > 0 {
        lemma_only_assistants_think(acc, compat, ids, thoughts, messages.drop_last());
        let before = with_messages(acc, compat, ids, thoughts, messages.drop_last());
        lemma_results_do_not_think(before, rules_of(compat), messages.last().content);
    }
}

proof fn lemma_latest_thinks(ms: Seq<ChatView>, n: nat)
    requires
        n <= ms.len(),
        only_assistants_think(ms),
    ensures
        only_assistants_think(latest(ms, n)),
    decreases n,
{
    if n > 0 {
        lemma_latest_thinks(ms, (n - 1) as nat);
    }
}

proof fn lemma_merge_thinks(ms: Seq<ChatView>)
    requires
        only_assistants_think(ms),
    ensures
        only_assistants_think(assistants_merged(ms)),
    decreases ms.len(),
{
    if ms.len() > 0 {
        let front = ms.drop_last();
        assert forall|i: int|
            0 <= i < front.len() && (#[trigger] front[i]).reasoning_content is Some implies front[i].role
            == ChatRole::Assistant by {
            assert(front[i] == ms[i]);
        }
        lemma_merge_thinks(front);
        assert(ms[ms.len() - 1] == ms.last());
    }
}

/// In a request, only assistant messages carry thoughts.
pub proof fn only_assistant_messages_carry_thoughts(
    messages: Seq<MessageView>,
    system: Seq<char>,
    compat: ProviderCompat,
    ids: Seq<Seq<char>>,
)
    ensures
        only_assistants_think(chat_messages(messages, system, compat, ids)),
{
    let start = ChatAcc { ledger: empty_ledger(), out: system_messages(system) };
    lemma_only_assistants_think(start, compat, ids, has_thoughts(messages), messages);
    let all = projected(messages, system, compat, ids).out;
    lemma_latest_thinks(all, all.len());
    let unique = if setting(compat.messages.dedup_tool_results, false) {
        deduplicated(all)
    } else {
        all
    };
    let clean = without_orphan_calls(unique, !rules_of(compat).sanitize);
    assert forall|i: int|
        0 <= i < clean.len() && (#[trigger] clean[i]).reasoning_content is Some implies clean[i].role
        == ChatRole::Assistant by {
        assert(unique[i].reasoning_content == clean[i].reasoning_content);
    }
    lemma_merge_thinks(unique);
    lemma_merge_thinks(clean);
}

} // verus!
