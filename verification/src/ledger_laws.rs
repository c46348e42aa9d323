//! Laws of tool ids: how generated ids are written, which calls need one, and that
//! calls without an id and their results find each other in order.

use vstd::prelude::*;

use crate::clock::Timestamp;
use crate::json::json_parse;
use crate::llm::EventView;
use crate::message::{BlockView, MessageView};
use crate::openai_stream;
use crate::sequences::{total, total_by_last};
use crate::text::{
    hex, hex_value, hexadecimal_length, hexadecimal_reads_back, padding_keeps_the_number, sixteens,
    zero_padded,
};
use crate::tool_call_sanitize::DroppedToolCallReason;
use crate::tool_ids::{
    after_call, after_result, are_fresh, are_taken, call_fate, call_id_text, calls_without_id,
    counted_ids, first_entry, id_text, ids_needed, later_reading, reading_of, result_fate, takes,
    tool_id_text, CallFate, IdStyle, LedgerView, ResultFate, ToolIdRules, LAST_READING,
};

verus! {

broadcast use vstd::string::group_string_axioms;

// ---------------------------------------------------------------------------
// Generated ids
// ---------------------------------------------------------------------------

/// A tool id is marked as one, names its reading in hexadecimal and ends in eight
/// digits that mix the reading's last half.
pub proof fn tool_ids_name_their_reading(millis: nat)
    ensures
        ({
            let id = id_text(IdStyle::Tool, millis);
            let n = id.len();
            &&& n >= 16
            &&& id.subrange(0, 6) == "toolu_"@
            &&& hex_value(id.subrange(6, n - 9)) == millis
            &&& id[n - 9] == '_'
            &&& hex_value(id.subrange(n - 8, n as int)) == (millis % 0x1_0000_0000) * 0x9E37_79B1
                % 0x1_0000_0000
        }),
{
    let mixed = ((millis % 0x1_0000_0000) * 2654435761) % 0x1_0000_0000;
    let tail = zero_padded(hex(mixed), 8);
    reveal_with_fuel(sixteens, 9);
    assert(sixteens(8) == 0x1_0000_0000);
    hexadecimal_length(mixed, 8);
    reveal_strlit("toolu_");
    reveal_strlit("_");
    let id = tool_id_text(millis);
    let n = id.len();
    lemma_numeral_length(millis);
    assert(tail.len() == 8);
    assert(id.subrange(0, 6) =~= "toolu_"@);
    assert(id.subrange(6, n - 9) =~= hex(millis));
    assert(id.subrange(n - 8, n as int) =~= tail);
    hexadecimal_reads_back(millis);
    hexadecimal_reads_back(mixed);
    padding_keeps_the_number(hex(mixed), 8);
}

proof fn lemma_numeral_length(n: nat)
    ensures
        hex(n).len() > 0,
{
}

/// A call id is marked as one and ends in sixteen digits that mix the reading.
pub proof fn call_ids_mix_their_reading(nanos: nat)
    ensures
        ({
            let id = id_text(IdStyle::Call, nanos);
            &&& id.len() == 21
            &&& id.subrange(0, 5) == "call_"@
            &&& hex_value(id.subrange(5, 21)) == (nanos % 0x1_0000_0000_0000_0000)
                * 6364136223846793005 % 0x1_0000_0000_0000_0000
        }),
{
    let mixed = ((nanos % 0x1_0000_0000_0000_0000) * 6364136223846793005)
        % 0x1_0000_0000_0000_0000;
    reveal_with_fuel(sixteens, 17);
    assert(sixteens(16) == 0x1_0000_0000_0000_0000);
    hexadecimal_length(mixed, 16);
    reveal_strlit("call_");
    let id = call_id_text(nanos);
    assert(id.subrange(0, 5) =~= "call_"@);
    assert(id.subrange(5, 21) =~= zero_padded(hex(mixed), 16));
    hexadecimal_reads_back(mixed);
    padding_keeps_the_number(hex(mixed), 16);
}

/// Tool ids read the clock in whole milliseconds since the epoch and call ids in
/// nanoseconds, without what is above sixty-four bits; a clock before the epoch reads
/// zero.
pub proof fn clocks_are_read_in_the_unit_of_the_id(t: Timestamp)
    requires
        t.nanos < 1_000_000_000,
    ensures
        t.secs >= 0 ==> {
            let r = reading_of(IdStyle::Tool, t);
            r / 1000 == t.secs && r % 1000 == t.nanos / 1_000_000
        },
        t.secs >= 0 ==> reading_of(IdStyle::Call, t) == (t.secs * 1_000_000_000 + t.nanos)
            % 0x1_0000_0000_0000_0000,
        t.secs < 0 ==> reading_of(IdStyle::Tool, t) == 0 && reading_of(IdStyle::Call, t) == 0,
{
    if t.secs >= 0 {
        let n = t.secs * 1_000_000_000 + t.nanos;
        assert(n / 1_000_000 == t.secs * 1000 + t.nanos / 1_000_000);
    }
}

/// The next reading is the clock's where that has moved on, and otherwise one more than
/// the last.
pub proof fn readings_move_on(reading: u128, last: u128)
    requires
        last < LAST_READING,
    ensures
        reading > last ==> later_reading(reading, last) == reading,
        reading <= last ==> later_reading(reading, last) == last + 1,
{
}

/// The calls without an id in a message.
pub open spec fn unnamed_calls(m: MessageView) -> nat {
    total(
        m.content,
        |b: BlockView|
            if b is ToolUse && b->ToolUse_id.len() == 0 {
                1nat
            } else {
                0nat
            },
    )
}

proof fn lemma_calls_without_id(blocks: Seq<BlockView>)
    ensures
        calls_without_id(blocks) == total(
            blocks,
            |b: BlockView|
                if b is ToolUse && b->ToolUse_id.len() == 0 {
                    1nat
                } else {
                    0nat
                },
        ),
    decreases blocks.len(),
{
    let weight = |b: BlockView|
        if b is ToolUse && b->ToolUse_id.len() == 0 {
            1nat
        } else {
            0nat
        };
    if blocks.len() > 0 {
        lemma_calls_without_id(blocks.drop_last());
        total_by_last(blocks, weight);
    }
}

/// As many ids are made as the conversation has calls without one.
pub proof fn every_unnamed_call_gets_an_id(messages: Seq<MessageView>)
    ensures
        ids_needed(messages) == total(messages, |m: MessageView| unnamed_calls(m)),
    decreases messages.len(),
{
    if messages.len() > 0 {
        every_unnamed_call_gets_an_id(messages.drop_last());
        total_by_last(messages, |m: MessageView| unnamed_calls(m));
        lemma_calls_without_id(messages.last().content);
    }
}

// ---------------------------------------------------------------------------
// Calls and results
// ---------------------------------------------------------------------------

/// A call with a name and an id goes out under its id. One without a name does not go
/// out where malformed calls are left out; one without an id gets a made one where
/// these are wanted, and otherwise goes the same way.
pub proof fn complete_calls_go_out(
    l: LedgerView,
    rules: ToolIdRules,
    ids: Seq<Seq<char>>,
    id: Seq<char>,
    name: Seq<char>,
)
    ensures
        id.len() > 0 && name.len() > 0 ==> call_fate(l, rules, ids, id, name) == CallFate::Sent(id),
        !rules.sanitize && id.len() > 0 ==> call_fate(l, rules, ids, id, name) == CallFate::Sent(
            id,
        ),
        rules.sanitize && name.len() == 0 ==> call_fate(l, rules, ids, id, name)
            == CallFate::Dropped(DroppedToolCallReason::EmptyName),
        id.len() == 0 && rules.auto_tool_id && (name.len() > 0 || !rules.sanitize) ==> call_fate(
            l,
            rules,
            ids,
            id,
            name,
        ) == CallFate::Sent(ids[l.drawn as int]),
        id.len() == 0 && !rules.auto_tool_id && rules.sanitize && name.len() > 0 ==> call_fate(
            l,
            rules,
            ids,
            id,
            name,
        ) == CallFate::Dropped(DroppedToolCallReason::EmptyId),
        id.len() == 0 && !rules.auto_tool_id && !rules.sanitize ==> call_fate(
            l,
            rules,
            ids,
            id,
            name,
        ) == CallFate::Sent(id),
{
}

proof fn lemma_no_entry<T>(entries: Seq<(Seq<char>, T)>, key: Seq<char>, i: nat)
    requires
        forall|k: int| 0 <= k < entries.len() ==> (#[trigger] entries[k]).0 != key,
    ensures
        first_entry(entries, key, i) is None,
    decreases entries.len() - i,
{
    if i < entries.len() {
        assert(entries[i as int].0 != key);
        lemma_no_entry(entries, key, i + 1);
    }
}

proof fn lemma_first_entry_at<T>(entries: Seq<(Seq<char>, T)>, key: Seq<char>, i: nat, k: nat)
    requires
        i <= k < entries.len(),
        entries[k as int].0 == key,
        forall|j: int| i <= j < k ==> (#[trigger] entries[j]).0 != key,
    ensures
        first_entry(entries, key, i) == Some(k),
    decreases k - i,
{
    if i < k {
        assert(entries[i as int].0 != key);
        lemma_first_entry_at(entries, key, i + 1, k);
    }
}

/// Of two calls without an id that go out one after the other, the first result
/// without an id belongs to the first and the second to the second.
pub proof fn made_ids_come_back_in_order(
    l: LedgerView,
    rules: ToolIdRules,
    ids: Seq<Seq<char>>,
    first: Seq<char>,
    second: Seq<char>,
)
    requires
        rules.auto_tool_id,
        first.len() > 0,
        second.len() > 0,
        forall|k: int| 0 <= k < l.dropped.len() ==> (#[trigger] l.dropped[k]).0.len() > 0,
        forall|k: int| 0 <= k < l.generated.len() ==> (#[trigger] l.generated[k]).0.len() > 0,
    ensures
        ({
            let none = Seq::<char>::empty();
            let one = after_call(l, rules, ids, none, first);
            let two = after_call(one, rules, ids, none, second);
            let answered = after_result(two, none);
            &&& call_fate(l, rules, ids, none, first) == CallFate::Sent(ids[l.drawn as int])
            &&& call_fate(one, rules, ids, none, second) == CallFate::Sent(ids[(l.drawn + 1) as int])
            &&& result_fate(two, rules, none) == ResultFate::Sent(ids[l.drawn as int])
            &&& result_fate(answered, rules, none) == ResultFate::Sent(ids[(l.drawn + 1) as int])
            &&& after_result(answered, none).generated == l.generated
        }),
{
    let none = Seq::<char>::empty();
    let one = after_call(l, rules, ids, none, first);
    let two = after_call(one, rules, ids, none, second);
    let n = l.generated.len();
    assert forall|k: int| 0 <= k < l.dropped.len() implies (#[trigger] l.dropped[k]).0 != none by {
        assert(l.dropped[k].0.len() > 0);
    }
    lemma_no_entry(l.dropped, none, 0);
    assert forall|j: int| 0 <= j < n implies (#[trigger] two.generated[j]).0 != none by {
        assert(two.generated[j] == l.generated[j]);
        assert(l.generated[j].0.len() > 0);
    }
    lemma_first_entry_at(two.generated, none, 0, n);
    let answered = after_result(two, none);
    assert forall|j: int| 0 <= j < n implies (#[trigger] answered.generated[j]).0 != none by {
        assert(answered.generated[j] == l.generated[j]);
        assert(l.generated[j].0.len() > 0);
    }
    assert(answered.generated[n as int] == two.generated[(n + 1) as int]);
    lemma_first_entry_at(answered.generated, none, 0, n);
    assert(after_result(answered, none).generated =~= l.generated);
}

/// A result whose id no call went out under does not go out where orphans are
/// cleaned, and otherwise goes out as it is.
pub proof fn orphans_are_told_apart(l: LedgerView, rules: ToolIdRules, id: Seq<char>)
    requires
        forall|k: int| 0 <= k < l.dropped.len() ==> (#[trigger] l.dropped[k]).0 != id,
        forall|k: int| 0 <= k < l.generated.len() ==> (#[trigger] l.generated[k]).0 != id,
    ensures
        !rules.clean_orphan_tool_results || l.available.contains(id) ==> result_fate(l, rules, id)
            == ResultFate::Sent(id),
        rules.clean_orphan_tool_results && !l.available.contains(id) ==> result_fate(l, rules, id)
            == ResultFate::Orphan,
        after_result(l, id) == l,
{
    lemma_no_entry(l.dropped, id, 0);
    lemma_no_entry(l.generated, id, 0);
}

// ---------------------------------------------------------------------------
// Made ids
// ---------------------------------------------------------------------------

/// Each id is that of the reading after the reading of the one before.
pub open spec fn count_up(style: IdStyle, ids: Seq<Seq<char>>, first: nat) -> bool {
    forall|k: int| 0 <= k < ids.len() ==> #[trigger] ids[k] == id_text(style, (first + k) as nat)
}

/// Fresh ids are as many as are asked for, no two of them the same, and each is the id
/// of the reading after that of the one before.
pub proof fn fresh_ids_differ(style: IdStyle, ids: Seq<Seq<char>>, n: nat)
    requires
        are_fresh(style, ids, n),
    ensures
        ids.len() == n,
        forall|i: int, j: int| 0 <= i < j < n ==> #[trigger] ids[i] != #[trigger] ids[j],
        exists|first: nat| count_up(style, ids, first),
{
    let after = choose|after: u128| are_taken(style, 0, ids, n, after);
    let first = choose|first: u128| #[trigger]
        takes(style, 0, n, first, after) && ids == counted_ids(style, first as nat, n);
    let start = first as nat;
    assert forall|k: int| 0 <= k < ids.len() implies #[trigger] ids[k] == id_text(
        style,
        (start + k) as nat,
    ) by {
        assert(ids[k] == counted_ids(style, start, n)[k]);
    }
    assert(count_up(style, ids, start));
}

/// A payload comes out as some ids of the generator, one for each call and no two the
/// same, make it.
pub proof fn payloads_use_made_ids(
    st: openai_stream::StreamStateView,
    data: Seq<char>,
    auto_tool_id: bool,
    before: u128,
    last: u128,
    after: openai_stream::StreamStateView,
    events: Seq<EventView>,
)
    requires
        openai_stream::data_outcome_from(st, data, auto_tool_id, before, last, after, events),
    ensures
        exists|ids: Seq<Seq<char>>|
            {
                &&& ids.len() == openai_stream::ids_for_data(st, data)
                &&& forall|i: int, j: int|
                    0 <= i < j < ids.len() ==> #[trigger] ids[i] != #[trigger] ids[j]
                &&& after == (#[trigger] openai_stream::on_data(st, data, auto_tool_id, ids)).state
                &&& events == openai_stream::on_data(st, data, auto_tool_id, ids).events
            },
        json_parse(data) is None ==> openai_stream::ids_for_data(st, data) == 0,
        json_parse(data) matches Some(json) ==> openai_stream::ids_for_data(st, data)
            == openai_stream::with_delta(st, json).state.tool_calls.len(),
{
    let ids = choose|ids: Seq<Seq<char>>|
        {
            &&& are_taken(IdStyle::Call, before, ids, openai_stream::ids_for_data(st, data), last)
            &&& after == (#[trigger] openai_stream::on_data(st, data, auto_tool_id, ids)).state
            &&& events == openai_stream::on_data(st, data, auto_tool_id, ids).events
        };
    assert(after == openai_stream::on_data(st, data, auto_tool_id, ids).state);
}

} // verus!
