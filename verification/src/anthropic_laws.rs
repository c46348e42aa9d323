//! What holds of every request in the Anthropic format.

use vstd::prelude::*;

use crate::anthropic_shared::{
    alternated, filler, or_text, other_role, spaced, wire_messages, wire_role, with_blocks,
    with_messages, with_wire_message, WireBlockView, WireMessageView, WireRole,
};
use crate::compat::{setting, ProviderCompat};
use crate::message::{BlockView, MessageView, Role};
use crate::tool_ids::{calls_without_id, ids_needed, rules_of, LedgerView};

verus! {

// ---------------------------------------------------------------------------
// Alternation
// ---------------------------------------------------------------------------

/// No message has the role of the one before it.
pub open spec fn alternates(ms: Seq<WireMessageView>) -> bool {
    forall|i: int, j: int|
        0 <= i < ms.len() && j == i + 1 && j < ms.len() ==> (#[trigger] ms[i]).role != (
        #[trigger] ms[j]).role
}

proof fn lemma_spaced(ms: Seq<WireMessageView>)
    ensures
        alternates(spaced(ms)),
        ms.len() > 0 ==> spaced(ms).len() > 0 && spaced(ms)[0] == ms[0] && spaced(ms).last()
            == ms.last(),
        ms.len() == 0 ==> spaced(ms).len() == 0,
    decreases ms.len(),
{
    if ms.len() > 0 {
        lemma_spaced(ms.drop_last());
    }
}

/// With alternation asked for, the first message is a user message and roles
/// alternate.
pub proof fn alternation_holds(
    messages: Seq<MessageView>,
    compat: ProviderCompat,
    ids: Seq<Seq<char>>,
)
    requires
        setting(compat.messages.ensure_alternation, false),
    ensures
        alternates(wire_messages(messages, compat, ids)),
        wire_messages(messages, compat, ids).len() > 0 ==> wire_messages(
            messages,
            compat,
            ids,
        )[0].role == WireRole::User,
{
    let ms = with_messages(compat, ids, messages).out;
    lemma_spaced(ms);
    lemma_spaced(seq![filler(WireRole::User)] + ms);
}

/// Messages that alternate from a user message on are left as they are.
pub proof fn alternation_adds_nothing_needless(ms: Seq<WireMessageView>)
    requires
        alternates(ms),
        ms.len() > 0 ==> ms[0].role == WireRole::User,
    ensures
        alternated(ms) == ms,
{
    lemma_spaced_keeps(ms);
}

proof fn lemma_spaced_keeps(ms: Seq<WireMessageView>)
    requires
        alternates(ms),
    ensures
        spaced(ms) == ms,
    decreases ms.len(),
{
    if ms.len() > 0 {
        let rest = ms.drop_last();
        assert forall|i: int, j: int|
            0 <= i < rest.len() && j == i + 1 && j < rest.len() implies (#[trigger] rest[i]).role
            != (#[trigger] rest[j]).role by {
            assert(ms[i].role != ms[j].role);
        }
        lemma_spaced_keeps(rest);
        if rest.len() > 0 {
            assert(ms[ms.len() - 2].role != ms[ms.len() - 1].role);
        }
        assert(spaced(ms) =~= ms);
    } else {
        assert(spaced(ms) =~= ms);
    }
}

/// `a` is what is left of `b` without some of its messages.
pub open spec fn is_part_of(a: Seq<WireMessageView>, b: Seq<WireMessageView>) -> bool
    decreases b.len(),
{
    if b.len() == 0 {
        a.len() == 0
    } else {
        ||| is_part_of(a, b.drop_last())
        ||| a.len() > 0 && a.last() == b.last() && is_part_of(a.drop_last(), b.drop_last())
    }
}

/// Alternation only adds messages: what was there stays, in order.
pub proof fn alternation_keeps_every_message(ms: Seq<WireMessageView>)
    ensures
        is_part_of(ms, alternated(ms)),
{
    let led = seq![filler(WireRole::User)] + ms;
    lemma_spaced_keeps_every_message(ms);
    lemma_spaced_keeps_every_message(led);
    lemma_part_without_first(led, spaced(led));
    assert(led.skip(1) =~= ms);
}

proof fn lemma_spaced_keeps_every_message(ms: Seq<WireMessageView>)
    ensures
        is_part_of(ms, spaced(ms)),
    decreases ms.len(),
{
    if ms.len() > 0 {
        let rest = spaced(ms.drop_last());
        let m = ms.last();
        lemma_spaced_keeps_every_message(ms.drop_last());
        if rest.len() > 0 && rest.last().role == m.role {
            let f = rest.push(filler(other_role(m.role)));
            assert(f.drop_last() =~= rest);
            assert(is_part_of(ms.drop_last(), f));
            assert(f.push(m).drop_last() =~= f);
        } else {
            assert(rest.push(m).drop_last() =~= rest);
        }
    }
}

proof fn lemma_part_without_first(a: Seq<WireMessageView>, b: Seq<WireMessageView>)
    requires
        is_part_of(a, b),
        a.len() > 0,
    ensures
        is_part_of(a.skip(1), b),
    decreases b.len(),
{
    if b.len() > 0 {
        if is_part_of(a, b.drop_last()) {
            lemma_part_without_first(a, b.drop_last());
        } else if a.len() == 1 {
            assert(a.skip(1) =~= a.drop_last());
        } else {
            lemma_part_without_first(a.drop_last(), b.drop_last());
            assert(a.skip(1).drop_last() =~= a.drop_last().skip(1));
            assert(a.skip(1).last() == a.last());
        }
    }
}

/// `b` is `a` with fillers put in, and nothing else.
pub open spec fn is_filled(a: Seq<WireMessageView>, b: Seq<WireMessageView>) -> bool
    decreases b.len(),
{
    if b.len() == 0 {
        a.len() == 0
    } else {
        ||| b.last() == filler(b.last().role) && is_filled(a, b.drop_last())
        ||| a.len() > 0 && a.last() == b.last() && is_filled(a.drop_last(), b.drop_last())
    }
}

/// How often a message has the role of the one before it.
pub open spec fn same_role_pairs(ms: Seq<WireMessageView>) -> nat
    decreases ms.len(),
{
    if ms.len() < 2 {
        0
    } else {
        same_role_pairs(ms.drop_last()) + (if ms[ms.len() - 2].role == ms.last().role {
            1nat
        } else {
            0nat
        })
    }
}

proof fn lemma_spaced_is_filled(ms: Seq<WireMessageView>)
    ensures
        is_filled(ms, spaced(ms)),
        spaced(ms).len() == ms.len() + same_role_pairs(ms),
    decreases ms.len(),
{
    if ms.len() > 0 {
        let front = ms.drop_last();
        let rest = spaced(front);
        let m = ms.last();
        lemma_spaced_is_filled(front);
        lemma_spaced(front);
        if rest.len() > 0 && rest.last().role == m.role {
            let f = rest.push(filler(other_role(m.role)));
            assert(f.drop_last() =~= rest);
            assert(is_filled(front, f));
            assert(f.push(m).drop_last() =~= f);
        } else {
            assert(rest.push(m).drop_last() =~= rest);
        }
    }
}

proof fn lemma_filled_without_first(a: Seq<WireMessageView>, b: Seq<WireMessageView>)
    requires
        is_filled(a, b),
        a.len() > 0,
        a[0] == filler(a[0].role),
    ensures
        is_filled(a.skip(1), b),
    decreases b.len(),
{
    if b.len() > 0 {
        if b.last() == filler(b.last().role) && is_filled(a, b.drop_last()) {
            lemma_filled_without_first(a, b.drop_last());
        } else if a.len() == 1 {
            assert(a.skip(1) =~= a.drop_last());
        } else {
            lemma_filled_without_first(a.drop_last(), b.drop_last());
            assert(a.skip(1).drop_last() =~= a.drop_last().skip(1));
            assert(a.skip(1).last() == a.last());
        }
    }
}

proof fn lemma_pairs_after_other_role(first: WireMessageView, ms: Seq<WireMessageView>)
    requires
        ms.len() > 0,
        ms[0].role != first.role,
    ensures
        same_role_pairs(seq![first] + ms) == same_role_pairs(ms),
    decreases ms.len(),
{
    let led = seq![first] + ms;
    assert(led.drop_last() =~= seq![first] + ms.drop_last());
    if ms.len() > 1 {
        lemma_pairs_after_other_role(first, ms.drop_last());
        assert(led[led.len() - 2] == ms[ms.len() - 2]);
    } else {
        assert(same_role_pairs(led.drop_last()) == 0);
        assert(led[led.len() - 2] == first);
    }
}

/// All that alternation adds is fillers: one before each message that has the role
/// of the one before it, and one at the start where an assistant message leads.
pub proof fn alternation_adds_only_fillers(ms: Seq<WireMessageView>)
    ensures
        is_filled(ms, alternated(ms)),
        alternated(ms).len() == ms.len() + same_role_pairs(ms) + (if ms.len() > 0 && ms[0].role
            == WireRole::Assistant {
            1nat
        } else {
            0nat
        }),
{
    lemma_spaced_is_filled(ms);
    if ms.len() > 0 && ms[0].role == WireRole::Assistant {
        let f = filler(WireRole::User);
        let led = seq![f] + ms;
        lemma_spaced_is_filled(led);
        lemma_filled_without_first(led, spaced(led));
        assert(led.skip(1) =~= ms);
        lemma_pairs_after_other_role(f, ms);
    }
}

/// Every message that goes out has a block other than an image.
pub open spec fn has_substance(messages: Seq<MessageView>) -> bool {
    forall|i: int|
        0 <= i < messages.len() && wire_role((#[trigger] messages[i]).role) is Some
            ==> exists|j: int|
            0 <= j < messages[i].content.len() && !((#[trigger] messages[i].content[j]) is Image)
}

proof fn lemma_blocks_leave_something(
    ledger: LedgerView,
    compat: ProviderCompat,
    ids: Seq<Seq<char>>,
    blocks: Seq<BlockView>,
    j: int,
)
    requires
        0 <= j < blocks.len(),
        !(blocks[j] is Image),
    ensures
        ({
            let acc = with_blocks(ledger, compat, ids, blocks);
            acc.content.len() > 0 || acc.placeholder is Some
        }),
    decreases blocks.len(),
{
    if j < blocks.len() - 1 {
        lemma_blocks_leave_something(ledger, compat, ids, blocks.drop_last(), j);
    }
}

proof fn lemma_messages_not_empty(
    messages: Seq<MessageView>,
    compat: ProviderCompat,
    ids: Seq<Seq<char>>,
)
    requires
        has_substance(messages),
    ensures
        forall|i: int|
            0 <= i < with_messages(compat, ids, messages).out.len() ==> (#[trigger] with_messages(
                compat,
                ids,
                messages,
            ).out[i]).content.len() > 0,
    decreases messages.len(),
{
    if messages.len() > 0 {
        let front = messages.drop_last();
        let m = messages[messages.len() - 1];
        assert forall|i: int|
            0 <= i < front.len() && wire_role((#[trigger] front[i]).role) is Some implies exists|
            j: int,
        |
            0 <= j < front[i].content.len() && !((#[trigger] front[i].content[j]) is Image) by {
            assert(front[i] == messages[i]);
        }
        lemma_messages_not_empty(front, compat, ids);
        if wire_role(m.role) is Some {
            let j = choose|j: int| 0 <= j < m.content.len() && !((#[trigger] m.content[j]) is Image);
            let before = with_messages(compat, ids, front);
            lemma_blocks_leave_something(before.ledger, compat, ids, m.content, j);
            let r = with_messages(compat, ids, messages).out;
            assert forall|i: int| 0 <= i < r.len() implies (#[trigger] r[i]).content.len() > 0 by {
                if i < before.out.len() {
                    assert(before.out[i].content.len() > 0);
                }
            }
        }
    }
}

proof fn lemma_spaced_not_empty(ms: Seq<WireMessageView>)
    requires
        forall|i: int| 0 <= i < ms.len() ==> (#[trigger] ms[i]).content.len() > 0,
    ensures
        forall|i: int| 0 <= i < spaced(ms).len() ==> (#[trigger] spaced(ms)[i]).content.len() > 0,
    decreases ms.len(),
{
    if ms.len() > 0 {
        let front = ms.drop_last();
        assert forall|i: int| 0 <= i < front.len() implies (#[trigger] front[i]).content.len()
            > 0 by {
            assert(front[i] == ms[i]);
        }
        lemma_spaced_not_empty(front);
        assert(ms[ms.len() - 1].content.len() > 0);
    }
}

/// A conversation whose messages each hold more than images goes out without an
/// empty message: where nothing is left of one, a placeholder stands in it.
pub proof fn no_empty_message_goes_out(
    messages: Seq<MessageView>,
    compat: ProviderCompat,
    ids: Seq<Seq<char>>,
)
    requires
        has_substance(messages),
    ensures
        forall|i: int|
            0 <= i < wire_messages(messages, compat, ids).len() ==> (#[trigger] wire_messages(
                messages,
                compat,
                ids,
            )[i]).content.len() > 0,
{
    let all = with_messages(compat, ids, messages).out;
    lemma_messages_not_empty(messages, compat, ids);
    lemma_spaced_not_empty(all);
    let led = seq![filler(WireRole::User)] + all;
    assert forall|i: int| 0 <= i < led.len() implies (#[trigger] led[i]).content.len() > 0 by {
        if i > 0 {
            assert(led[i] == all[i - 1]);
        }
    }
    lemma_spaced_not_empty(led);
}

/// The conversation without its system messages.
pub open spec fn without_system(messages: Seq<MessageView>) -> Seq<MessageView>
    decreases messages.len(),
{
    if messages.len() == 0 {
        Seq::empty()
    } else if messages.last().role == Role::System {
        without_system(messages.drop_last())
    } else {
        without_system(messages.drop_last()).push(messages.last())
    }
}

proof fn lemma_system_messages_do_nothing(
    messages: Seq<MessageView>,
    compat: ProviderCompat,
    ids: Seq<Seq<char>>,
)
    ensures
        with_messages(compat, ids, without_system(messages)) == with_messages(
            compat,
            ids,
            messages,
        ),
    decreases messages.len(),
{
    if messages.len() > 0 {
        let front = messages.drop_last();
        lemma_system_messages_do_nothing(front, compat, ids);
        if messages.last().role != Role::System {
            assert(without_system(messages).drop_last() =~= without_system(front));
        }
    }
}

/// System messages of the conversation leave no trace in the messages of a
/// request.
pub proof fn system_messages_leave_no_trace(
    messages: Seq<MessageView>,
    compat: ProviderCompat,
    ids: Seq<Seq<char>>,
)
    ensures
        wire_messages(without_system(messages), compat, ids) == wire_messages(
            messages,
            compat,
            ids,
        ),
{
    lemma_system_messages_do_nothing(messages, compat, ids);
}

/// With merging asked for, and before alternation, no two messages in a row have
/// one role.
pub proof fn merging_leaves_no_role_twice(
    messages: Seq<MessageView>,
    compat: ProviderCompat,
    ids: Seq<Seq<char>>,
)
    requires
        setting(compat.messages.merge_same_role, false),
    ensures
        alternates(with_messages(compat, ids, messages).out),
    decreases messages.len(),
{
    if messages.len() > 0 {
        merging_leaves_no_role_twice(messages.drop_last(), compat, ids);
    }
}

// ---------------------------------------------------------------------------
// Results answer calls
// ---------------------------------------------------------------------------

/// The blocks of some messages, one after the other.
pub open spec fn all_blocks(ms: Seq<WireMessageView>) -> Seq<WireBlockView>
    decreases ms.len(),
{
    if ms.len() == 0 {
        Seq::empty()
    } else {
        all_blocks(ms.drop_last()) + ms.last().content
    }
}

/// A call goes out under this id.
pub open spec fn has_call(blocks: Seq<WireBlockView>, id: Seq<char>) -> bool {
    exists|q: int|
        0 <= q < blocks.len() && ((#[trigger] blocks[q]) matches WireBlockView::ToolUse {
            id: called,
            ..
        } && called == id)
}

/// Every result answers a call that goes out before it.
pub open spec fn results_answer_calls(blocks: Seq<WireBlockView>) -> bool {
    forall|p: int|
        0 <= p < blocks.len() ==> ((#[trigger] blocks[p]) matches WireBlockView::ToolResult {
            tool_use_id,
            ..
        } ==> has_call(blocks.take(p), tool_use_id))
}

/// The ledger knows only ids under which calls went out.
spec fn ledger_agrees(l: LedgerView, blocks: Seq<WireBlockView>) -> bool {
    forall|id: Seq<char>| #[trigger] l.available.contains(id) ==> has_call(blocks, id)
}

proof fn lemma_has_call_extends(a: Seq<WireBlockView>, b: Seq<WireBlockView>, id: Seq<char>)
    requires
        has_call(a, id),
        a.len() <= b.len(),
        b.take(a.len() as int) == a,
    ensures
        has_call(b, id),
{
    let q = choose|q: int|
        0 <= q < a.len() && ((#[trigger] a[q]) matches WireBlockView::ToolUse { id: called, .. }
            && called == id);
    assert(b.take(a.len() as int)[q] == b[q]);
}

proof fn lemma_push_block(
    l: LedgerView,
    after: LedgerView,
    blocks: Seq<WireBlockView>,
    b: WireBlockView,
)
    requires
        ledger_agrees(l, blocks),
        results_answer_calls(blocks),
        b matches WireBlockView::ToolResult { tool_use_id, .. } ==> has_call(blocks, tool_use_id),
        forall|id: Seq<char>| #[trigger]
            after.available.contains(id) ==> l.available.contains(id) || (
            b matches WireBlockView::ToolUse { id: called, .. } && called == id),
    ensures
        ledger_agrees(after, blocks.push(b)),
        results_answer_calls(blocks.push(b)),
{
    let more = blocks.push(b);
    assert(more.take(blocks.len() as int) =~= blocks);
    assert forall|id: Seq<char>| #[trigger] after.available.contains(id) implies has_call(
        more,
        id,
    ) by {
        if l.available.contains(id) {
            lemma_has_call_extends(blocks, more, id);
        } else {
            assert(more[blocks.len() as int] == b);
        }
    }
    assert forall|p: int| 0 <= p < more.len() implies ((
    #[trigger] more[p]) matches WireBlockView::ToolResult { tool_use_id, .. } ==> has_call(
        more.take(p),
        tool_use_id,
    )) by {
        if p < blocks.len() {
            assert(more[p] == blocks[p]);
            assert(more.take(p) =~= blocks.take(p));
        }
    }
}

proof fn lemma_blocks_answer(
    base: Seq<WireBlockView>,
    ledger: LedgerView,
    compat: ProviderCompat,
    ids: Seq<Seq<char>>,
    blocks: Seq<BlockView>,
)
    requires
        rules_of(compat).clean_orphan_tool_results,
        ledger_agrees(ledger, base),
        results_answer_calls(base),
    ensures
        ({
            let acc = with_blocks(ledger, compat, ids, blocks);
            &&& ledger_agrees(acc.ledger, base + acc.content)
            &&& results_answer_calls(base + acc.content)
        }),
    decreases blocks.len(),
{
    if blocks.len() == 0 {
        assert(base + Seq::<WireBlockView>::empty() =~= base);
    } else {
        lemma_blocks_answer(base, ledger, compat, ids, blocks.drop_last());
        let before = with_blocks(ledger, compat, ids, blocks.drop_last());
        let acc = with_blocks(ledger, compat, ids, blocks);
        if acc.content.len() > before.content.len() {
            let b = acc.content.last();
            assert(acc.content =~= before.content.push(b));
            assert(base + acc.content =~= (base + before.content).push(b));
            lemma_push_block(before.ledger, acc.ledger, base + before.content, b);
        } else {
            assert(acc.content == before.content);
            assert(acc.ledger.available == before.ledger.available);
        }
    }
}

proof fn lemma_messages_answer(
    messages: Seq<MessageView>,
    compat: ProviderCompat,
    ids: Seq<Seq<char>>,
)
    requires
        rules_of(compat).clean_orphan_tool_results,
    ensures
        ({
            let acc = with_messages(compat, ids, messages);
            &&& ledger_agrees(acc.ledger, all_blocks(acc.out))
            &&& results_answer_calls(all_blocks(acc.out))
        }),
    decreases messages.len(),
{
    if messages.len() > 0 {
        lemma_messages_answer(messages.drop_last(), compat, ids);
        let before = with_messages(compat, ids, messages.drop_last());
        let msg = messages.last();
        if let Some(role) = wire_role(msg.role) {
            let base = all_blocks(before.out);
            let parts = with_blocks(before.ledger, compat, ids, msg.content);
            lemma_blocks_answer(base, before.ledger, compat, ids, msg.content);
            let content = or_text(parts.content, parts.placeholder);
            if content != parts.content {
                let b = content[0];
                assert(parts.content =~= Seq::empty());
                assert(base + parts.content =~= base);
                assert(base + content =~= base.push(b));
                lemma_push_block(parts.ledger, parts.ledger, base, b);
            }
            let m = WireMessageView { role, content };
            let merge = setting(compat.messages.merge_same_role, false);
            lemma_all_blocks_of_added(before.out, merge, m);
        }
    }
}

proof fn lemma_all_blocks_of_added(out: Seq<WireMessageView>, merge: bool, m: WireMessageView)
    ensures
        all_blocks(with_wire_message(out, merge, m)) == all_blocks(out) + m.content,
{
    let r = with_wire_message(out, merge, m);
    if merge && out.len() > 0 && out.last().role == m.role {
        assert(r.drop_last() =~= out.drop_last());
        assert(all_blocks(r) =~= all_blocks(out) + m.content);
    } else {
        assert(r.drop_last() =~= out);
    }
}

proof fn lemma_spacing_keeps_calls(ms: Seq<WireMessageView>, id: Seq<char>)
    requires
        has_call(all_blocks(ms), id),
    ensures
        has_call(all_blocks(spaced(ms)), id),
    decreases ms.len(),
{
    if ms.len() > 0 {
        let rest = ms.drop_last();
        let head = all_blocks(rest);
        let s = spaced(rest);
        let m = ms.last();
        lemma_spaced_blocks(ms);
        let q = choose|q: int|
            0 <= q < all_blocks(ms).len() && ((
            #[trigger] all_blocks(ms)[q]) matches WireBlockView::ToolUse { id: called, .. }
                && called == id);
        let long = all_blocks(spaced(ms));
        let front = long.len() - m.content.len();
        if q < head.len() {
            assert(head[q] == all_blocks(ms)[q]);
            lemma_spacing_keeps_calls(rest, id);
            assert(long.take(all_blocks(s).len() as int) =~= all_blocks(s));
            lemma_has_call_extends(all_blocks(s), long, id);
        } else {
            assert(long[front + (q - head.len())] == all_blocks(ms)[q]);
        }
    }
}

/// The blocks after spacing: those before, at most one text, and the last
/// message's.
proof fn lemma_spaced_blocks(ms: Seq<WireMessageView>)
    requires
        ms.len() > 0,
    ensures
        ({
            let s = all_blocks(spaced(ms.drop_last()));
            let long = all_blocks(spaced(ms));
            ||| long == s + ms.last().content
            ||| long == s.push(WireBlockView::Text { text: "."@ }) + ms.last().content
        }),
{
    let rest = spaced(ms.drop_last());
    let m = ms.last();
    if rest.len() > 0 && rest.last().role == m.role {
        let f = rest.push(filler(other_role(m.role)));
        assert(f.drop_last() =~= rest);
        assert(f.push(m).drop_last() =~= f);
        assert(all_blocks(f) =~= all_blocks(rest).push(WireBlockView::Text { text: "."@ }));
    } else {
        assert(rest.push(m).drop_last() =~= rest);
    }
}

proof fn lemma_spacing_keeps_answers(ms: Seq<WireMessageView>)
    requires
        results_answer_calls(all_blocks(ms)),
    ensures
        results_answer_calls(all_blocks(spaced(ms))),
    decreases ms.len(),
{
    if ms.len() > 0 {
        let rest = ms.drop_last();
        let head = all_blocks(rest);
        let short = all_blocks(ms);
        let s = all_blocks(spaced(rest));
        let m = ms.last();
        let long = all_blocks(spaced(ms));
        lemma_spaced_blocks(ms);
        let front = long.len() - m.content.len();
        assert forall|p: int| 0 <= p < head.len() implies ((
        #[trigger] head[p]) matches WireBlockView::ToolResult { tool_use_id, .. } ==> has_call(
            head.take(p),
            tool_use_id,
        )) by {
            assert(short[p] == head[p]);
            assert(short.take(p) =~= head.take(p));
        }
        lemma_spacing_keeps_answers(rest);
        assert forall|p: int| 0 <= p < long.len() implies ((
        #[trigger] long[p]) matches WireBlockView::ToolResult { tool_use_id, .. } ==> has_call(
            long.take(p),
            tool_use_id,
        )) by {
            if let WireBlockView::ToolResult { tool_use_id, .. } = long[p] {
                if p < s.len() {
                    assert(long[p] == s[p]);
                    assert(long.take(p) =~= s.take(p));
                } else if p >= front {
                    let p0 = head.len() + (p - front);
                    assert(short[p0] == long[p]);
                    assert(has_call(short.take(p0), tool_use_id));
                    let q = choose|q: int|
                        0 <= q < p0 && ((
                        #[trigger] short.take(p0)[q]) matches WireBlockView::ToolUse {
                            id: called,
                            ..
                        } && called == tool_use_id);
                    if q < head.len() {
                        assert(head[q] == short.take(p0)[q]);
                        assert(has_call(head, tool_use_id));
                        lemma_spacing_keeps_calls(rest, tool_use_id);
                        assert(long.take(p).take(s.len() as int) =~= s);
                        lemma_has_call_extends(s, long.take(p), tool_use_id);
                    } else {
                        assert(long.take(p)[front + (q - head.len())] == short.take(p0)[q]);
                    }
                }
            }
        }
    }
}

/// With orphan results cleaned, every tool result that goes out answers a tool
/// call that goes out before it.
pub proof fn every_result_answers_an_earlier_call(
    messages: Seq<MessageView>,
    compat: ProviderCompat,
    ids: Seq<Seq<char>>,
)
    requires
        setting(compat.messages.clean_orphan_tool_results, false),
    ensures
        results_answer_calls(all_blocks(wire_messages(messages, compat, ids))),
{
    lemma_messages_answer(messages, compat, ids);
    let ms = with_messages(compat, ids, messages).out;
    if setting(compat.messages.ensure_alternation, false) {
        if ms.len() > 0 && ms[0].role == WireRole::Assistant {
            let led = seq![filler(WireRole::User)] + ms;
            lemma_leading_filler(ms);
            lemma_spacing_keeps_answers(led);
        } else {
            lemma_spacing_keeps_answers(ms);
        }
    }
}

proof fn lemma_leading_blocks(ms: Seq<WireMessageView>)
    ensures
        all_blocks(seq![filler(WireRole::User)] + ms) == seq![WireBlockView::Text { text: "."@ }]
            + all_blocks(ms),
    decreases ms.len(),
{
    let led = seq![filler(WireRole::User)] + ms;
    if ms.len() == 0 {
        assert(led.drop_last() =~= Seq::empty());
        assert(led.last() == filler(WireRole::User));
        assert(all_blocks(led.drop_last()) =~= Seq::empty());
        assert(all_blocks(led) =~= seq![WireBlockView::Text { text: "."@ }] + all_blocks(ms));
    } else {
        lemma_leading_blocks(ms.drop_last());
        assert(led.drop_last() =~= seq![filler(WireRole::User)] + ms.drop_last());
        assert(led.last() == ms.last());
        assert(all_blocks(led) =~= seq![WireBlockView::Text { text: "."@ }] + all_blocks(ms));
    }
}

proof fn lemma_leading_filler(ms: Seq<WireMessageView>)
    requires
        results_answer_calls(all_blocks(ms)),
    ensures
        results_answer_calls(all_blocks(seq![filler(WireRole::User)] + ms)),
{
    lemma_leading_blocks(ms);
    let short = all_blocks(ms);
    let long = all_blocks(seq![filler(WireRole::User)] + ms);
    assert forall|p: int| 0 <= p < long.len() implies ((
    #[trigger] long[p]) matches WireBlockView::ToolResult { tool_use_id, .. } ==> has_call(
        long.take(p),
        tool_use_id,
    )) by {
        if let WireBlockView::ToolResult { tool_use_id, .. } = long[p] {
            assert(short[p - 1] == long[p]);
            let q = choose|q: int|
                0 <= q < p - 1 && ((
                #[trigger] short.take(p - 1)[q]) matches WireBlockView::ToolUse { id: called, .. }
                    && called == tool_use_id);
            assert(long.take(p)[q + 1] == short.take(p - 1)[q]);
        }
    }
}

// ---------------------------------------------------------------------------
// Malformed calls do not go out
// ---------------------------------------------------------------------------

/// Every call has a name and an id.
pub open spec fn calls_are_named(blocks: Seq<WireBlockView>) -> bool {
    forall|p: int|
        0 <= p < blocks.len() ==> ((#[trigger] blocks[p]) matches WireBlockView::ToolUse {
            id,
            name,
            ..
        } ==> id.len() > 0 && name.len() > 0)
}

proof fn lemma_blocks_named(
    ledger: LedgerView,
    compat: ProviderCompat,
    ids: Seq<Seq<char>>,
    blocks: Seq<BlockView>,
)
    requires
        rules_of(compat).sanitize,
        forall|i: int| 0 <= i < ids.len() ==> (#[trigger] ids[i]).len() > 0,
        ledger.drawn + calls_without_id(blocks) <= ids.len(),
    ensures
        calls_are_named(with_blocks(ledger, compat, ids, blocks).content),
        with_blocks(ledger, compat, ids, blocks).ledger.drawn <= ledger.drawn + calls_without_id(
            blocks,
        ),
    decreases blocks.len(),
{
    if blocks.len() > 0 {
        lemma_blocks_named(ledger, compat, ids, blocks.drop_last());
        let before = with_blocks(ledger, compat, ids, blocks.drop_last());
        let acc = with_blocks(ledger, compat, ids, blocks);
        assert forall|p: int| 0 <= p < acc.content.len() implies ((
        #[trigger] acc.content[p]) matches WireBlockView::ToolUse { id, name, .. } ==> id.len() > 0
            && name.len() > 0) by {
            if p < before.content.len() {
                assert(acc.content[p] == before.content[p]);
            }
        }
    }
}

proof fn lemma_messages_named(
    messages: Seq<MessageView>,
    compat: ProviderCompat,
    ids: Seq<Seq<char>>,
)
    requires
        rules_of(compat).sanitize,
        forall|i: int| 0 <= i < ids.len() ==> (#[trigger] ids[i]).len() > 0,
        ids_needed(messages) <= ids.len(),
    ensures
        calls_are_named(all_blocks(with_messages(compat, ids, messages).out)),
        with_messages(compat, ids, messages).ledger.drawn <= ids_needed(messages),
    decreases messages.len(),
{
    if messages.len() > 0 {
        lemma_messages_named(messages.drop_last(), compat, ids);
        let before = with_messages(compat, ids, messages.drop_last());
        let msg = messages.last();
        if let Some(role) = wire_role(msg.role) {
            lemma_blocks_named(before.ledger, compat, ids, msg.content);
            let parts = with_blocks(before.ledger, compat, ids, msg.content);
            let content = or_text(parts.content, parts.placeholder);
            lemma_all_blocks_of_added(
                before.out,
                setting(compat.messages.merge_same_role, false),
                WireMessageView { role, content },
            );
            let short = all_blocks(before.out);
            let long = short + content;
            assert forall|p: int| 0 <= p < long.len() implies ((
            #[trigger] long[p]) matches WireBlockView::ToolUse { id, name, .. } ==> id.len() > 0
                && name.len() > 0) by {
                if p < short.len() {
                    assert(long[p] == short[p]);
                } else {
                    assert(long[p] == content[p - short.len()]);
                }
            }
        }
    }
}

proof fn lemma_spacing_keeps_names(ms: Seq<WireMessageView>)
    requires
        calls_are_named(all_blocks(ms)),
    ensures
        calls_are_named(all_blocks(spaced(ms))),
    decreases ms.len(),
{
    if ms.len() > 0 {
        let rest = ms.drop_last();
        let short = all_blocks(ms);
        let head = all_blocks(rest);
        let s = all_blocks(spaced(rest));
        let long = all_blocks(spaced(ms));
        let front = long.len() - ms.last().content.len();
        lemma_spaced_blocks(ms);
        assert forall|p: int| 0 <= p < head.len() implies ((
        #[trigger] head[p]) matches WireBlockView::ToolUse { id, name, .. } ==> id.len() > 0
            && name.len() > 0) by {
            assert(head[p] == short[p]);
        }
        lemma_spacing_keeps_names(rest);
        assert forall|p: int| 0 <= p < long.len() implies ((
        #[trigger] long[p]) matches WireBlockView::ToolUse { id, name, .. } ==> id.len() > 0
            && name.len() > 0) by {
            if p < s.len() {
                assert(long[p] == s[p]);
            } else if p >= front {
                assert(long[p] == short[head.len() + (p - front)]);
            }
        }
    }
}

/// With malformed calls sanitized, and with non-empty ids for the calls that
/// lack one, every tool call that goes out has a name and an id.
pub proof fn no_malformed_call_goes_out(
    messages: Seq<MessageView>,
    compat: ProviderCompat,
    ids: Seq<Seq<char>>,
)
    requires
        setting(compat.tools.sanitize_malformed_tool_calls, false),
        forall|i: int| 0 <= i < ids.len() ==> (#[trigger] ids[i]).len() > 0,
        ids_needed(messages) <= ids.len(),
    ensures
        calls_are_named(all_blocks(wire_messages(messages, compat, ids))),
{
    lemma_messages_named(messages, compat, ids);
    let ms = with_messages(compat, ids, messages).out;
    if setting(compat.messages.ensure_alternation, false) {
        if ms.len() > 0 && ms[0].role == WireRole::Assistant {
            let led = seq![filler(WireRole::User)] + ms;
            lemma_leading_blocks(ms);
            let short = all_blocks(ms);
            let long = all_blocks(led);
            assert forall|p: int| 0 <= p < long.len() implies ((
            #[trigger] long[p]) matches WireBlockView::ToolUse { id, name, .. } ==> id.len() > 0
                && name.len() > 0) by {
                if p > 0 {
                    assert(long[p] == short[p - 1]);
                }
            }
            lemma_spacing_keeps_names(led);
        } else {
            lemma_spacing_keeps_names(ms);
        }
    }
}

} // verus!
