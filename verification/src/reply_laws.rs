//! What is handed out of a streamed reply.

use vstd::prelude::*;

use crate::anthropic_stream;
use crate::anthropic_stream::{StreamStateView, StreamStep};
use crate::compat::setting;
use crate::json::{at, json_parse, text_at, u64_at, JsonView};
use crate::llm::EventView;
use crate::message::{StopReason, TokenUsage};
use crate::openai_stream;
use crate::openai_stream::{
    finish_reason, first_choice, fragment_index, fragments_may_come_in_any_number_of_chunks, grown,
    on_chunk, parsed_arguments, with_delta, with_fragment, with_fragments, AccumulatorView,
    ChunkStep,
};
use crate::sequences::{
    gathered, gathered_by_last, gathered_nothing, gathered_of_both, gathered_of_more,
    gathered_of_one, only_if,
};

verus! {

broadcast use vstd::string::group_string_axioms;

// ---------------------------------------------------------------------------
// What events say
// ---------------------------------------------------------------------------

/// The pieces of text among some events.
pub open spec fn texts_shown(events: Seq<EventView>) -> Seq<Seq<char>> {
    gathered(events, |e: EventView| only_if(e is TextDelta, e->TextDelta_0))
}

/// The pieces of thought among some events.
pub open spec fn thoughts_shown(events: Seq<EventView>) -> Seq<Seq<char>> {
    gathered(events, |e: EventView| only_if(e is ThinkingDelta, e->ThinkingDelta_0))
}

/// The signatures among some events.
pub open spec fn signatures_shown(events: Seq<EventView>) -> Seq<Seq<char>> {
    gathered(events, |e: EventView| only_if(e is ThinkingSignature, e->ThinkingSignature_0))
}

/// The calls among some events.
pub open spec fn calls_shown(events: Seq<EventView>) -> Seq<EventView> {
    gathered(events, |e: EventView| only_if(e is ToolUse, e))
}

/// The ends among some events.
pub open spec fn ends_shown(events: Seq<EventView>) -> Seq<EventView> {
    gathered(events, |e: EventView| only_if(e is Done, e))
}

/// The errors among some events.
pub open spec fn errors_shown(events: Seq<EventView>) -> Seq<Seq<char>> {
    gathered(events, |e: EventView| only_if(e is Error, e->Error_0))
}

// ---------------------------------------------------------------------------
// Anthropic
// ---------------------------------------------------------------------------

/// A payload: its type and its text.
pub struct Payload {
    pub kind: Seq<char>,
    pub data: Seq<char>,
}

/// The state and the events after some payloads.
pub open spec fn read_payloads(st: StreamStateView, payloads: Seq<Payload>) -> StreamStep
    decreases payloads.len(),
{
    if payloads.len() == 0 {
        StreamStep { state: st, events: Seq::empty() }
    } else {
        let before = read_payloads(st, payloads.drop_last());
        let step = anthropic_stream::on_data(
            before.state,
            payloads.last().kind,
            payloads.last().data,
        );
        StreamStep { state: step.state, events: before.events + step.events }
    }
}

/// The piece of a kind that a payload carries: the text under `key` of a delta whose
/// type is `kind`.
pub open spec fn piece(p: Payload, kind: Seq<char>, key: Seq<char>) -> Option<Seq<char>> {
    if p.kind == "content_block_delta"@ && json_parse(p.data) is Some {
        let delta = at(json_parse(p.data), "delta"@);
        if text_at(at(delta, "type"@)) == Some(kind) {
            text_at(at(delta, key))
        } else {
            None
        }
    } else {
        None
    }
}

/// The pieces of a kind that some payloads carry.
pub open spec fn pieces(payloads: Seq<Payload>, kind: Seq<char>, key: Seq<char>) -> Seq<Seq<char>> {
    gathered(
        payloads,
        |p: Payload| only_if(piece(p, kind, key) is Some, piece(p, kind, key).unwrap()),
    )
}

proof fn lemma_kinds()
    ensures
        "message_start"@ != "content_block_start"@,
        "message_start"@ != "content_block_delta"@,
        "message_start"@ != "content_block_stop"@,
        "message_start"@ != "message_delta"@,
        "message_start"@ != "error"@,
        "content_block_start"@ != "content_block_delta"@,
        "content_block_start"@ != "content_block_stop"@,
        "content_block_start"@ != "message_delta"@,
        "content_block_start"@ != "error"@,
        "content_block_delta"@ != "content_block_stop"@,
        "content_block_delta"@ != "message_delta"@,
        "content_block_delta"@ != "error"@,
        "content_block_stop"@ != "message_delta"@,
        "content_block_stop"@ != "error"@,
        "message_delta"@ != "error"@,
        "text_delta"@ != "input_json_delta"@,
        "text_delta"@ != "thinking_delta"@,
        "text_delta"@ != "signature_delta"@,
        "input_json_delta"@ != "thinking_delta"@,
        "input_json_delta"@ != "signature_delta"@,
        "thinking_delta"@ != "signature_delta"@,
        ""@ != "text_delta"@,
        ""@ != "input_json_delta"@,
        ""@ != "thinking_delta"@,
        ""@ != "signature_delta"@,
        ""@ != "tool_use"@,
{
    reveal_strlit("message_start");
    reveal_strlit("content_block_start");
    reveal_strlit("content_block_delta");
    reveal_strlit("content_block_stop");
    reveal_strlit("message_delta");
    reveal_strlit("error");
    reveal_strlit("text_delta");
    reveal_strlit("input_json_delta");
    reveal_strlit("thinking_delta");
    reveal_strlit("signature_delta");
    reveal_strlit("tool_use");
    reveal_strlit("");
    assert("message_start"@.len() == 13 && "message_delta"@.len() == 13);
    assert("message_start"@[8] == 's' && "message_delta"@[8] == 'd');
    assert("content_block_start"@.len() == 19 && "content_block_delta"@.len() == 19);
    assert("content_block_start"@[14] == 's' && "content_block_delta"@[14] == 'd');
    assert("content_block_stop"@.len() == 18 && "error"@.len() == 5);
    assert("text_delta"@.len() == 10 && "input_json_delta"@.len() == 16);
    assert("thinking_delta"@.len() == 14 && "signature_delta"@.len() == 15);
    assert("tool_use"@.len() == 8 && ""@.len() == 0);
}

/// One payload hands out at most one event, and none where its text is not JSON or
/// its type is none of those known.
pub proof fn payloads_hand_out_one_event_at_most(st: StreamStateView, p: Payload)
    ensures
        anthropic_stream::on_data(st, p.kind, p.data).events.len() <= 1,
        json_parse(p.data) is None || (p.kind != "message_start"@ && p.kind
            != "content_block_start"@ && p.kind != "content_block_delta"@ && p.kind
            != "content_block_stop"@ && p.kind != "message_delta"@ && p.kind != "error"@)
            ==> anthropic_stream::on_data(st, p.kind, p.data) == (StreamStep {
            state: st,
            events: Seq::empty(),
        }),
{
}

proof fn lemma_one_piece(st: StreamStateView, p: Payload)
    ensures
        ({
            let events = anthropic_stream::on_data(st, p.kind, p.data).events;
            &&& texts_shown(events) == only_if(
                piece(p, "text_delta"@, "text"@) is Some,
                piece(p, "text_delta"@, "text"@).unwrap(),
            )
            &&& thoughts_shown(events) == only_if(
                piece(p, "thinking_delta"@, "thinking"@) is Some,
                piece(p, "thinking_delta"@, "thinking"@).unwrap(),
            )
            &&& signatures_shown(events) == only_if(
                piece(p, "signature_delta"@, "signature"@) is Some,
                piece(p, "signature_delta"@, "signature"@).unwrap(),
            )
        }),
{
    lemma_kinds();
    let events = anthropic_stream::on_data(st, p.kind, p.data).events;
    if events.len() == 0 {
        assert(events =~= Seq::empty());
        assert(texts_shown(events) =~= Seq::empty());
        assert(thoughts_shown(events) =~= Seq::empty());
        assert(signatures_shown(events) =~= Seq::empty());
    } else {
        let e = events[0];
        assert(events =~= seq![e]);
        gathered_of_one(e, |e: EventView| only_if(e is TextDelta, e->TextDelta_0));
        gathered_of_one(e, |e: EventView| only_if(e is ThinkingDelta, e->ThinkingDelta_0));
        gathered_of_one(
            e,
            |e: EventView| only_if(e is ThinkingSignature, e->ThinkingSignature_0),
        );
    }
}

/// What a stream shows as text, as thought and as signatures is, piece by piece and
/// character for character, what its deltas carry.
pub proof fn replies_are_handed_on_word_for_word(st: StreamStateView, payloads: Seq<Payload>)
    ensures
        ({
            let events = read_payloads(st, payloads).events;
            &&& texts_shown(events) == pieces(payloads, "text_delta"@, "text"@)
            &&& thoughts_shown(events) == pieces(payloads, "thinking_delta"@, "thinking"@)
            &&& signatures_shown(events) == pieces(payloads, "signature_delta"@, "signature"@)
        }),
    decreases payloads.len(),
{
    if payloads.len() == 0 {
        assert(texts_shown(Seq::empty()) =~= Seq::empty());
        assert(thoughts_shown(Seq::empty()) =~= Seq::empty());
        assert(signatures_shown(Seq::empty()) =~= Seq::empty());
        assert(pieces(payloads, "text_delta"@, "text"@) =~= Seq::empty());
        assert(pieces(payloads, "thinking_delta"@, "thinking"@) =~= Seq::empty());
        assert(pieces(payloads, "signature_delta"@, "signature"@) =~= Seq::empty());
    } else {
        let front = payloads.drop_last();
        let p = payloads.last();
        replies_are_handed_on_word_for_word(st, front);
        let before = read_payloads(st, front);
        let step = anthropic_stream::on_data(before.state, p.kind, p.data);
        lemma_one_piece(before.state, p);
        gathered_of_both(
            before.events,
            step.events,
            |e: EventView| only_if(e is TextDelta, e->TextDelta_0),
        );
        gathered_of_both(
            before.events,
            step.events,
            |e: EventView| only_if(e is ThinkingDelta, e->ThinkingDelta_0),
        );
        gathered_of_both(
            before.events,
            step.events,
            |e: EventView| only_if(e is ThinkingSignature, e->ThinkingSignature_0),
        );
        gathered_by_last(
            payloads,
            |p: Payload|
                only_if(
                    piece(p, "text_delta"@, "text"@) is Some,
                    piece(p, "text_delta"@, "text"@).unwrap(),
                ),
        );
        gathered_by_last(
            payloads,
            |p: Payload|
                only_if(
                    piece(p, "thinking_delta"@, "thinking"@) is Some,
                    piece(p, "thinking_delta"@, "thinking"@).unwrap(),
                ),
        );
        gathered_by_last(
            payloads,
            |p: Payload|
                only_if(
                    piece(p, "signature_delta"@, "signature"@) is Some,
                    piece(p, "signature_delta"@, "signature"@).unwrap(),
                ),
        );
        lemma_pieces_by_last(payloads, "text_delta"@, "text"@);
        lemma_pieces_by_last(payloads, "thinking_delta"@, "thinking"@);
        lemma_pieces_by_last(payloads, "signature_delta"@, "signature"@);
    }
}

proof fn lemma_pieces_by_last(payloads: Seq<Payload>, kind: Seq<char>, key: Seq<char>)
    requires
        payloads.len() > 0,
    ensures
        pieces(payloads, kind, key) == pieces(payloads.drop_last(), kind, key) + only_if(
            piece(payloads.last(), kind, key) is Some,
            piece(payloads.last(), kind, key).unwrap(),
        ),
{
    gathered_by_last(
        payloads,
        |p: Payload| only_if(piece(p, kind, key) is Some, piece(p, kind, key).unwrap()),
    );
}

/// The payload neither starts nor ends a block.
pub open spec fn is_inside(p: Payload) -> bool {
    p.kind != "content_block_start"@ && p.kind != "content_block_stop"@
}

proof fn lemma_read_one(st: StreamStateView, p: Payload)
    ensures
        read_payloads(st, seq![p]) == anthropic_stream::on_data(st, p.kind, p.data),
{
    let front = seq![p].drop_last();
    assert(front.len() == 0);
    assert(read_payloads(st, front) == (StreamStep { state: st, events: Seq::empty() }));
    assert(seq![p].last() == p);
    let step = anthropic_stream::on_data(st, p.kind, p.data);
    assert(Seq::<EventView>::empty() + step.events =~= step.events);
}

proof fn lemma_read_more(st: StreamStateView, a: Seq<Payload>, b: Seq<Payload>)
    ensures
        read_payloads(st, a + b) == ({
            let before = read_payloads(st, a);
            let after = read_payloads(before.state, b);
            StreamStep { state: after.state, events: before.events + after.events }
        }),
    decreases b.len(),
{
    let before = read_payloads(st, a);
    if b.len() == 0 {
        assert(a + b =~= a);
        assert(before.events + Seq::<EventView>::empty() =~= before.events);
    } else {
        assert((a + b).drop_last() =~= a + b.drop_last());
        lemma_read_more(st, a, b.drop_last());
        let mid = read_payloads(before.state, b.drop_last());
        let step = anthropic_stream::on_data(mid.state, b.last().kind, b.last().data);
        assert((before.events + mid.events) + step.events =~= before.events + (mid.events
            + step.events));
    }
}

/// Inside a block no call is handed out and the pieces of a tool's input add up.
proof fn lemma_inside(st: StreamStateView, payloads: Seq<Payload>)
    requires
        forall|i: int| 0 <= i < payloads.len() ==> is_inside(#[trigger] payloads[i]),
    ensures
        ({
            let step = read_payloads(st, payloads);
            &&& calls_shown(step.events) == Seq::<EventView>::empty()
            &&& step.state.current_block_type == st.current_block_type
            &&& step.state.tool_id == st.tool_id
            &&& step.state.tool_name == st.tool_name
            &&& step.state.tool_input_json == st.tool_input_json + gathered(
                pieces(payloads, "input_json_delta"@, "partial_json"@),
                |s: Seq<char>| s,
            )
        }),
    decreases payloads.len(),
{
    let call = |e: EventView| only_if(e is ToolUse, e);
    let same = |s: Seq<char>| s;
    if payloads.len() == 0 {
        assert(calls_shown(Seq::empty()) =~= Seq::empty());
        assert(pieces(payloads, "input_json_delta"@, "partial_json"@) =~= Seq::empty());
        assert(gathered(Seq::<Seq<char>>::empty(), same) =~= Seq::empty());
        assert(st.tool_input_json + Seq::<char>::empty() =~= st.tool_input_json);
    } else {
        let front = payloads.drop_last();
        let p = payloads[payloads.len() - 1];
        assert forall|i: int| 0 <= i < front.len() implies is_inside(#[trigger] front[i]) by {
            assert(front[i] == payloads[i]);
        }
        lemma_inside(st, front);
        lemma_kinds();
        let before = read_payloads(st, front);
        let step = anthropic_stream::on_data(before.state, p.kind, p.data);
        gathered_of_both(before.events, step.events, call);
        assert(is_inside(p));
        assert(calls_shown(step.events) =~= Seq::empty()) by {
            if step.events.len() == 0 {
                assert(step.events =~= Seq::empty());
            } else {
                assert(step.events =~= seq![step.events[0]]);
                gathered_of_one(step.events[0], call);
            }
        }
        assert(calls_shown(before.events + step.events) =~= Seq::empty());
        lemma_pieces_by_last(payloads, "input_json_delta"@, "partial_json"@);
        let x = pieces(front, "input_json_delta"@, "partial_json"@);
        let q = piece(p, "input_json_delta"@, "partial_json"@);
        if q is Some {
            assert(x + only_if(true, q.unwrap()) =~= x.push(q.unwrap()));
            gathered_of_more(x, q.unwrap(), same);
            assert(st.tool_input_json + (gathered(x, same) + q.unwrap()) =~= (st.tool_input_json
                + gathered(x, same)) + q.unwrap());
        } else {
            assert(x + only_if(false, q.unwrap()) =~= x);
        }
    }
}

/// Between the start of a tool call and its end, whatever else comes in, one call is
/// handed out: under the id and the name that the start gives, with the input that
/// all its pieces make together, or an empty one where they make no JSON.
pub proof fn calls_are_handed_out_whole(
    st: StreamStateView,
    start: Payload,
    inside: Seq<Payload>,
    stop: Payload,
)
    requires
        start.kind == "content_block_start"@,
        json_parse(start.data) is Some,
        text_at(at(at(json_parse(start.data), "content_block"@), "type"@)) == Some("tool_use"@),
        forall|i: int| 0 <= i < inside.len() ==> is_inside(#[trigger] inside[i]),
        stop.kind == "content_block_stop"@,
        json_parse(stop.data) is Some,
    ensures
        ({
            let block = at(json_parse(start.data), "content_block"@);
            let input = gathered(
                pieces(inside, "input_json_delta"@, "partial_json"@),
                |s: Seq<char>| s,
            );
            calls_shown(read_payloads(st, seq![start] + inside + seq![stop]).events) == seq![
                EventView::ToolUse {
                    id: setting(text_at(at(block, "id"@)), ""@),
                    name: setting(text_at(at(block, "name"@)), ""@),
                    input: setting(json_parse(input), JsonView::Object(Map::empty())),
                    extra: None,
                },
            ]
        }),
{
    let call = |e: EventView| only_if(e is ToolUse, e);
    let input = gathered(
        pieces(inside, "input_json_delta"@, "partial_json"@),
        |s: Seq<char>| s,
    );
    lemma_kinds();
    let opened = anthropic_stream::on_data(st, start.kind, start.data);
    lemma_read_one(st, start);
    let first = read_payloads(st, seq![start]);
    assert(first.state == opened.state);
    assert(first.events =~= Seq::empty());
    lemma_inside(first.state, inside);
    lemma_read_more(st, seq![start], inside);
    lemma_read_more(st, seq![start] + inside, seq![stop]);
    let fed = read_payloads(st, seq![start] + inside);
    assert(first.state.tool_input_json + input =~= input);
    let closed = anthropic_stream::on_data(fed.state, stop.kind, stop.data);
    lemma_read_one(fed.state, stop);
    let last = read_payloads(fed.state, seq![stop]);
    assert(last.events =~= closed.events);
    let middle = read_payloads(first.state, inside).events;
    assert(fed.events =~= middle);
    gathered_of_both(fed.events, last.events, call);
    let e = closed.events[0];
    assert(closed.events =~= seq![e]);
    gathered_of_one(e, call);
    assert(calls_shown(fed.events + last.events) =~= seq![e]);
}

/// A block that is not a tool call hands out no call.
pub proof fn other_blocks_hand_out_no_call(
    st: StreamStateView,
    start: Payload,
    inside: Seq<Payload>,
    stop: Payload,
)
    requires
        start.kind == "content_block_start"@,
        json_parse(start.data) is Some,
        text_at(at(at(json_parse(start.data), "content_block"@), "type"@)) != Some("tool_use"@),
        forall|i: int| 0 <= i < inside.len() ==> is_inside(#[trigger] inside[i]),
        stop.kind == "content_block_stop"@,
    ensures
        calls_shown(read_payloads(st, seq![start] + inside + seq![stop]).events) == Seq::<
            EventView,
        >::empty(),
{
    let call = |e: EventView| only_if(e is ToolUse, e);
    lemma_kinds();
    let opened = anthropic_stream::on_data(st, start.kind, start.data);
    lemma_read_one(st, start);
    let first = read_payloads(st, seq![start]);
    assert(first.state == opened.state);
    assert(first.events =~= Seq::empty());
    lemma_inside(first.state, inside);
    lemma_read_more(st, seq![start], inside);
    lemma_read_more(st, seq![start] + inside, seq![stop]);
    let fed = read_payloads(st, seq![start] + inside);
    let closed = anthropic_stream::on_data(fed.state, stop.kind, stop.data);
    lemma_read_one(fed.state, stop);
    let last = read_payloads(fed.state, seq![stop]);
    assert(closed.events =~= Seq::empty());
    assert(last.events =~= Seq::empty());
    let middle = read_payloads(first.state, inside).events;
    assert(fed.events =~= middle);
    assert(fed.events + last.events =~= middle);
}

/// Why a reply ended, by the name that is given for it.
pub open spec fn reason_named(name: Option<Seq<char>>) -> StopReason {
    if name == Some("tool_use"@) {
        StopReason::ToolUse
    } else if name == Some("max_tokens"@) {
        StopReason::MaxTokens
    } else {
        StopReason::EndTurn
    }
}

proof fn lemma_between_counts(st: StreamStateView, payloads: Seq<Payload>)
    requires
        forall|i: int|
            0 <= i < payloads.len() ==> (#[trigger] payloads[i]).kind != "message_start"@
                && payloads[i].kind != "message_delta"@,
    ensures
        read_payloads(st, payloads).state.usage == st.usage,
        ends_shown(read_payloads(st, payloads).events) == Seq::<EventView>::empty(),
    decreases payloads.len(),
{
    let end = |e: EventView| only_if(e is Done, e);
    if payloads.len() == 0 {
        assert(ends_shown(Seq::empty()) =~= Seq::empty());
    } else {
        let front = payloads.drop_last();
        let p = payloads[payloads.len() - 1];
        assert forall|i: int| 0 <= i < front.len() implies (#[trigger] front[i]).kind
            != "message_start"@ && front[i].kind != "message_delta"@ by {
            assert(front[i] == payloads[i]);
        }
        lemma_between_counts(st, front);
        lemma_kinds();
        let before = read_payloads(st, front);
        let step = anthropic_stream::on_data(before.state, p.kind, p.data);
        gathered_of_both(before.events, step.events, end);
        assert(ends_shown(step.events) =~= Seq::empty()) by {
            if step.events.len() == 0 {
                assert(step.events =~= Seq::empty());
            } else {
                assert(step.events =~= seq![step.events[0]]);
                gathered_of_one(step.events[0], end);
            }
        }
        assert(ends_shown(before.events + step.events) =~= Seq::empty());
    }
}

/// A reply ends once, with the reason that its end names, the prompt and cache
/// counts that its start reports and the output count that its end reports.
pub proof fn replies_end_with_their_counts(
    st: StreamStateView,
    start: Payload,
    between: Seq<Payload>,
    end: Payload,
)
    requires
        start.kind == "message_start"@,
        json_parse(start.data) is Some,
        at(at(json_parse(start.data), "message"@), "usage"@) is Some,
        forall|i: int|
            0 <= i < between.len() ==> (#[trigger] between[i]).kind != "message_start"@
                && between[i].kind != "message_delta"@,
        end.kind == "message_delta"@,
        json_parse(end.data) is Some,
    ensures
        ({
            let prompt = at(at(json_parse(start.data), "message"@), "usage"@);
            let output = at(json_parse(end.data), "usage"@);
            ends_shown(read_payloads(st, seq![start] + between + seq![end]).events) == seq![
                EventView::Done {
                    stop_reason: reason_named(
                        text_at(at(at(json_parse(end.data), "delta"@), "stop_reason"@)),
                    ),
                    usage: TokenUsage {
                        input_tokens: setting(u64_at(at(prompt, "input_tokens"@)), 0),
                        output_tokens: if output is Some {
                            setting(u64_at(at(output, "output_tokens"@)), 0)
                        } else {
                            st.usage.output_tokens
                        },
                        cache_creation_tokens: setting(
                            u64_at(at(prompt, "cache_creation_input_tokens"@)),
                            0,
                        ),
                        cache_read_tokens: setting(
                            u64_at(at(prompt, "cache_read_input_tokens"@)),
                            0,
                        ),
                    },
                },
            ]
        }),
{
    let done = |e: EventView| only_if(e is Done, e);
    lemma_kinds();
    reveal_strlit("end_turn");
    reveal_strlit("tool_use");
    reveal_strlit("max_tokens");
    assert("end_turn"@.len() == 8 && "max_tokens"@.len() == 10);
    assert("end_turn"@[0] == 'e' && "tool_use"@[0] == 't');
    lemma_read_one(st, start);
    let first = read_payloads(st, seq![start]);
    assert(first.events =~= Seq::empty());
    lemma_between_counts(first.state, between);
    lemma_read_more(st, seq![start], between);
    lemma_read_more(st, seq![start] + between, seq![end]);
    let fed = read_payloads(st, seq![start] + between);
    let closed = anthropic_stream::on_data(fed.state, end.kind, end.data);
    lemma_read_one(fed.state, end);
    let last = read_payloads(fed.state, seq![end]);
    assert(last.events =~= closed.events);
    let middle = read_payloads(first.state, between).events;
    assert(fed.events =~= middle);
    gathered_of_both(fed.events, last.events, done);
    let e = closed.events[0];
    assert(closed.events =~= seq![e]);
    gathered_of_one(e, done);
    assert(ends_shown(fed.events + last.events) =~= seq![e]);
}

/// An error is handed on with its message, and nothing else is an error.
pub proof fn errors_are_handed_on(st: StreamStateView, payloads: Seq<Payload>)
    ensures
        errors_shown(read_payloads(st, payloads).events) == gathered(
            payloads,
            |p: Payload|
                only_if(
                    p.kind == "error"@ && json_parse(p.data) is Some,
                    setting(
                        text_at(at(at(json_parse(p.data), "error"@), "message"@)),
                        "Unknown API error"@,
                    ),
                ),
        ),
    decreases payloads.len(),
{
    let error = |e: EventView| only_if(e is Error, e->Error_0);
    let source = |p: Payload|
        only_if(
            p.kind == "error"@ && json_parse(p.data) is Some,
            setting(
                text_at(at(at(json_parse(p.data), "error"@), "message"@)),
                "Unknown API error"@,
            ),
        );
    if payloads.len() == 0 {
        assert(errors_shown(Seq::empty()) =~= Seq::empty());
        assert(gathered(payloads, source) =~= Seq::empty());
    } else {
        let front = payloads.drop_last();
        let p = payloads.last();
        errors_are_handed_on(st, front);
        lemma_kinds();
        let before = read_payloads(st, front);
        let step = anthropic_stream::on_data(before.state, p.kind, p.data);
        gathered_of_both(before.events, step.events, error);
        gathered_by_last(payloads, source);
        assert(errors_shown(step.events) =~= source(p)) by {
            if step.events.len() == 0 {
                assert(step.events =~= Seq::empty());
            } else {
                assert(step.events =~= seq![step.events[0]]);
                gathered_of_one(step.events[0], error);
            }
        }
    }
}

// ---------------------------------------------------------------------------
// OpenAI
// ---------------------------------------------------------------------------

/// The state and the events after some chunks, with `ids[k]` the ids at hand for the
/// chunk at `k`.
pub open spec fn read_chunks(
    st: openai_stream::StreamStateView,
    chunks: Seq<JsonView>,
    auto_tool_id: bool,
    ids: Seq<Seq<Seq<char>>>,
) -> ChunkStep
    decreases chunks.len(),
{
    if chunks.len() == 0 {
        ChunkStep { state: st, events: Seq::empty() }
    } else {
        let before = read_chunks(st, chunks.drop_last(), auto_tool_id, ids);
        let json = chunks.last();
        let step = on_chunk(
            before.state,
            json,
            auto_tool_id,
            ids[chunks.len() - 1],
            parsed_arguments(with_delta(before.state, json).state.tool_calls),
        );
        ChunkStep { state: step.state, events: before.events + step.events }
    }
}

/// The first choice of a chunk.
pub open spec fn choice_in(json: JsonView) -> Option<JsonView> {
    match at(Some(json), "choices"@) {
        Some(JsonView::Array(list)) => if list.len() > 0 {
            Some(list[0])
        } else {
            None
        },
        _ => None,
    }
}

/// The text under a key of what a chunk adds, where it is not empty.
pub open spec fn text_added(json: JsonView, key: Seq<char>) -> Seq<Seq<char>> {
    let text = text_at(at(at(choice_in(json), "delta"@), key));
    only_if(text is Some && text.unwrap().len() > 0, text.unwrap())
}

/// The fragments of tool calls that a chunk adds.
pub open spec fn fragments_in(json: JsonView) -> Seq<JsonView> {
    match at(at(choice_in(json), "delta"@), "tool_calls"@) {
        Some(JsonView::Array(list)) => list,
        _ => Seq::empty(),
    }
}

/// Why a chunk ends the reply, where it does.
pub open spec fn reason_in(json: JsonView) -> Option<Seq<char>> {
    text_at(at(choice_in(json), "finish_reason"@))
}

/// The index that a fragment names, or the first.
pub open spec fn index_in(tc: JsonView) -> int {
    setting(u64_at(at(Some(tc), "index"@)), 0) as usize as int
}

/// The fragments of one index, in order.
pub open spec fn fragments_of(tcs: Seq<JsonView>, i: int) -> Seq<JsonView> {
    gathered(tcs, |tc: JsonView| only_if(index_in(tc) == i, tc))
}

/// The last of some values, or another where there is none.
pub open spec fn last_or<T>(s: Seq<T>, otherwise: T) -> T {
    if s.len() > 0 {
        s[s.len() - 1]
    } else {
        otherwise
    }
}

/// The names that some fragments give, less the empty ones.
pub open spec fn names_in(tcs: Seq<JsonView>) -> Seq<Seq<char>> {
    gathered(
        tcs,
        |tc: JsonView|
            only_if(
                text_at(at(at(Some(tc), "function"@), "name"@)) is Some && text_at(
                    at(at(Some(tc), "function"@), "name"@),
                ).unwrap().len() > 0,
                text_at(at(at(Some(tc), "function"@), "name"@)).unwrap(),
            ),
    )
}

/// The ids that some fragments give.
pub open spec fn ids_in(tcs: Seq<JsonView>) -> Seq<Seq<char>> {
    gathered(
        tcs,
        |tc: JsonView|
            only_if(
                text_at(at(Some(tc), "id"@)) is Some,
                text_at(at(Some(tc), "id"@)).unwrap(),
            ),
    )
}

/// The arguments that some fragments make together.
pub open spec fn arguments_in(tcs: Seq<JsonView>) -> Seq<char> {
    gathered(
        tcs,
        |tc: JsonView|
            setting(text_at(at(at(Some(tc), "function"@), "arguments"@)), Seq::empty()),
    )
}

/// What some fragments bring along, less what is null.
pub open spec fn extras_in(tcs: Seq<JsonView>) -> Seq<JsonView> {
    gathered(
        tcs,
        |tc: JsonView|
            only_if(
                at(Some(tc), "extra_content"@) is Some && !(at(
                    Some(tc),
                    "extra_content"@,
                ).unwrap() is Null),
                at(Some(tc), "extra_content"@).unwrap(),
            ),
    )
}

/// The call that the fragments of one index make together.
pub open spec fn put_together(tcs: Seq<JsonView>) -> AccumulatorView {
    AccumulatorView {
        id: last_or(ids_in(tcs), Seq::empty()),
        name: last_or(names_in(tcs), Seq::empty()),
        arguments: arguments_in(tcs),
        extra: if extras_in(tcs).len() > 0 {
            Some(extras_in(tcs)[extras_in(tcs).len() - 1])
        } else {
            None
        },
    }
}

proof fn lemma_put_together_more(tcs: Seq<JsonView>, tc: JsonView)
    ensures
        put_together(tcs.push(tc)) == with_fragment(put_together(tcs), tc),
{
    gathered_of_more(
        tcs,
        tc,
        |tc: JsonView|
            only_if(
                text_at(at(at(Some(tc), "function"@), "name"@)) is Some && text_at(
                    at(at(Some(tc), "function"@), "name"@),
                ).unwrap().len() > 0,
                text_at(at(at(Some(tc), "function"@), "name"@)).unwrap(),
            ),
    );
    gathered_of_more(
        tcs,
        tc,
        |tc: JsonView|
            only_if(
                text_at(at(Some(tc), "id"@)) is Some,
                text_at(at(Some(tc), "id"@)).unwrap(),
            ),
    );
    gathered_of_more(
        tcs,
        tc,
        |tc: JsonView|
            setting(text_at(at(at(Some(tc), "function"@), "arguments"@)), Seq::empty()),
    );
    gathered_of_more(
        tcs,
        tc,
        |tc: JsonView|
            only_if(
                at(Some(tc), "extra_content"@) is Some && !(at(
                    Some(tc),
                    "extra_content"@,
                ).unwrap() is Null),
                at(Some(tc), "extra_content"@).unwrap(),
            ),
    );
    assert(arguments_in(tcs) + Seq::<char>::empty() =~= arguments_in(tcs));
}

proof fn lemma_put_together_nothing(tcs: Seq<JsonView>)
    requires
        tcs.len() == 0,
    ensures
        put_together(tcs) == openai_stream::empty_accumulator(),
{
    assert(names_in(tcs) =~= Seq::empty());
    assert(ids_in(tcs) =~= Seq::empty());
    assert(arguments_in(tcs) =~= Seq::empty());
    assert(extras_in(tcs) =~= Seq::empty());
}

proof fn lemma_no_fragments_of(tcs: Seq<JsonView>, i: int)
    requires
        forall|t: int| 0 <= t < tcs.len() ==> index_in(#[trigger] tcs[t]) != i,
    ensures
        fragments_of(tcs, i).len() == 0,
{
    gathered_nothing(tcs, |tc: JsonView| only_if(index_in(tc) == i, tc));
}

/// The calls that fragments make: one for each index up to the highest, each put
/// together from the fragments of its index alone.
pub proof fn fragments_make_calls(tcs: Seq<JsonView>)
    ensures
        ({
            let calls = with_fragments(Seq::empty(), tcs);
            &&& forall|t: int| 0 <= t < tcs.len() ==> index_in(#[trigger] tcs[t]) < calls.len()
            &&& calls.len() > 0 ==> exists|t: int|
                0 <= t < tcs.len() && index_in(#[trigger] tcs[t]) == calls.len() - 1
            &&& forall|i: int|
                0 <= i < calls.len() ==> #[trigger] calls[i] == put_together(fragments_of(tcs, i))
        }),
    decreases tcs.len(),
{
    let calls = with_fragments(Seq::empty(), tcs);
    if tcs.len() > 0 {
        let front = tcs.drop_last();
        let tc = tcs[tcs.len() - 1];
        fragments_make_calls(front);
        let before = with_fragments(Seq::empty(), front);
        let index = index_in(tc);
        assert(index == fragment_index(tc));
        let long = grown(before, index as nat);
        assert forall|t: int| 0 <= t < tcs.len() implies index_in(#[trigger] tcs[t])
            < calls.len() by {
            if t < front.len() {
                assert(index_in(front[t]) < before.len());
            }
        }
        if index >= before.len() {
            assert(index_in(tcs[tcs.len() - 1]) == calls.len() - 1);
        } else {
            let t = choose|t: int|
                0 <= t < front.len() && index_in(#[trigger] front[t]) == before.len() - 1;
            assert(index_in(tcs[t]) == calls.len() - 1);
        }
        assert forall|i: int| 0 <= i < calls.len() implies #[trigger] calls[i] == put_together(
            fragments_of(tcs, i),
        ) by {
            let pick = |tc: JsonView| only_if(index_in(tc) == i, tc);
            gathered_by_last(tcs, pick);
            assert(fragments_of(tcs, i) == fragments_of(front, i) + pick(tc));
            if i >= before.len() {
                assert forall|t: int| 0 <= t < front.len() implies index_in(#[trigger] front[t])
                    != i by {
                    assert(index_in(front[t]) < before.len());
                }
                lemma_no_fragments_of(front, i);
                lemma_put_together_nothing(fragments_of(front, i));
                assert(long[i] == openai_stream::empty_accumulator());
            } else {
                assert(long[i] == before[i]);
            }
            assert(long[i] == put_together(fragments_of(front, i)));
            if i == index {
                assert(fragments_of(tcs, i) =~= fragments_of(front, i).push(tc));
                lemma_put_together_more(fragments_of(front, i), tc);
            } else {
                assert(fragments_of(tcs, i) =~= fragments_of(front, i));
            }
        }
    }
}

proof fn lemma_chunk_calls(st: openai_stream::StreamStateView, json: JsonView)
    ensures
        with_delta(st, json).state.tool_calls == with_fragments(st.tool_calls, fragments_in(json)),
        finish_reason(json) == reason_in(json),
        first_choice(json) == choice_in(json),
        texts_shown(with_delta(st, json).events) == text_added(json, "content"@),
        thoughts_shown(with_delta(st, json).events) == text_added(json, "reasoning_content"@),
        calls_shown(with_delta(st, json).events) == Seq::<EventView>::empty(),
{
    let text = |e: EventView| only_if(e is TextDelta, e->TextDelta_0);
    let thought = |e: EventView| only_if(e is ThinkingDelta, e->ThinkingDelta_0);
    let call = |e: EventView| only_if(e is ToolUse, e);
    let events = with_delta(st, json).events;
    let a = text_added(json, "reasoning_content"@);
    let b = text_added(json, "content"@);
    let x = if a.len() > 0 {
        seq![EventView::ThinkingDelta(a[0])]
    } else {
        Seq::empty()
    };
    let y = if b.len() > 0 {
        seq![EventView::TextDelta(b[0])]
    } else {
        Seq::empty()
    };
    assert(first_choice(json) == choice_in(json));
    assert(events =~= x + y);
    gathered_of_both(x, y, text);
    gathered_of_both(x, y, thought);
    gathered_of_both(x, y, call);
    if a.len() > 0 {
        gathered_of_one(x[0], text);
        gathered_of_one(x[0], thought);
        gathered_of_one(x[0], call);
    }
    if b.len() > 0 {
        gathered_of_one(y[0], text);
        gathered_of_one(y[0], thought);
        gathered_of_one(y[0], call);
    }
    assert(texts_shown(events) =~= b);
    assert(thoughts_shown(events) =~= a);
    assert(calls_shown(events) =~= Seq::empty());
    assert(with_delta(st, json).state.tool_calls =~= with_fragments(
        st.tool_calls,
        fragments_in(json),
    ));
}

proof fn lemma_call_events_are_calls(events: Seq<EventView>)
    requires
        forall|i: int| 0 <= i < events.len() ==> (#[trigger] events[i]) is ToolUse,
    ensures
        calls_shown(events) == events,
        texts_shown(events) == Seq::<Seq<char>>::empty(),
        thoughts_shown(events) == Seq::<Seq<char>>::empty(),
    decreases events.len(),
{
    let text = |e: EventView| only_if(e is TextDelta, e->TextDelta_0);
    let thought = |e: EventView| only_if(e is ThinkingDelta, e->ThinkingDelta_0);
    let call = |e: EventView| only_if(e is ToolUse, e);
    if events.len() > 0 {
        let front = events.drop_last();
        assert forall|i: int| 0 <= i < front.len() implies (#[trigger] front[i]) is ToolUse by {
            assert(front[i] == events[i]);
        }
        lemma_call_events_are_calls(front);
        gathered_by_last(events, text);
        gathered_by_last(events, thought);
        gathered_by_last(events, call);
        assert(events[events.len() - 1] is ToolUse);
        assert(calls_shown(events) =~= events);
        assert(texts_shown(events) =~= Seq::empty());
        assert(thoughts_shown(events) =~= Seq::empty());
    } else {
        assert(calls_shown(events) =~= events);
        assert(texts_shown(events) =~= Seq::empty());
        assert(thoughts_shown(events) =~= Seq::empty());
    }
}

proof fn lemma_chunk_shows(
    st: openai_stream::StreamStateView,
    json: JsonView,
    auto_tool_id: bool,
    ids: Seq<Seq<char>>,
)
    ensures
        ({
            let calls = with_delta(st, json).state.tool_calls;
            let step = on_chunk(st, json, auto_tool_id, ids, parsed_arguments(calls));
            let ends = reason_in(json) == Some("tool_calls"@) || reason_in(json) == Some("stop"@);
            &&& texts_shown(step.events) == text_added(json, "content"@)
            &&& thoughts_shown(step.events) == text_added(json, "reasoning_content"@)
            &&& calls_shown(step.events).len() == (if ends {
                calls.len()
            } else {
                0
            })
            &&& ends ==> forall|i: int|
                0 <= i < calls.len() ==> #[trigger] calls_shown(step.events)[i]
                    == openai_stream::call_event(
                    calls[i],
                    auto_tool_id,
                    ids[i],
                    json_parse(calls[i].arguments),
                )
            &&& ends ==> step.state.tool_calls.len() == 0
            &&& !ends ==> step.state.tool_calls == calls
        }),
{
    lemma_chunk_calls(st, json);
    let calls = with_delta(st, json).state.tool_calls;
    let shown = with_delta(st, json);
    let inputs = parsed_arguments(calls);
    let step = on_chunk(st, json, auto_tool_id, ids, inputs);
    let text = |e: EventView| only_if(e is TextDelta, e->TextDelta_0);
    let thought = |e: EventView| only_if(e is ThinkingDelta, e->ThinkingDelta_0);
    let call = |e: EventView| only_if(e is ToolUse, e);
    match reason_in(json) {
        None => {},
        Some(reason) => {
            let end = openai_stream::finished(shown.state, reason, auto_tool_id, ids, inputs);
            assert forall|i: int| 0 <= i < end.events.len() implies (
            #[trigger] end.events[i]) is ToolUse by {}
            lemma_call_events_are_calls(end.events);
            gathered_of_both(shown.events, end.events, text);
            gathered_of_both(shown.events, end.events, thought);
            gathered_of_both(shown.events, end.events, call);
            assert(texts_shown(step.events) =~= texts_shown(shown.events));
            assert(thoughts_shown(step.events) =~= thoughts_shown(shown.events));
            assert(calls_shown(step.events) =~= end.events);
            reveal_strlit("tool_calls");
            reveal_strlit("stop");
            reveal_strlit("length");
            assert("tool_calls"@.len() == 10 && "stop"@.len() == 4 && "length"@.len() == 6);
        },
    }
}

/// What a stream shows as text and as thought is, piece by piece and character for
/// character, what its chunks add, less the empty pieces.
pub proof fn chunks_are_handed_on_word_for_word(
    st: openai_stream::StreamStateView,
    chunks: Seq<JsonView>,
    auto_tool_id: bool,
    ids: Seq<Seq<Seq<char>>>,
)
    ensures
        ({
            let events = read_chunks(st, chunks, auto_tool_id, ids).events;
            &&& texts_shown(events) == gathered(
                chunks,
                |json: JsonView| text_added(json, "content"@),
            )
            &&& thoughts_shown(events) == gathered(
                chunks,
                |json: JsonView| text_added(json, "reasoning_content"@),
            )
        }),
    decreases chunks.len(),
{
    let text = |e: EventView| only_if(e is TextDelta, e->TextDelta_0);
    let thought = |e: EventView| only_if(e is ThinkingDelta, e->ThinkingDelta_0);
    let said = |json: JsonView| text_added(json, "content"@);
    let mused = |json: JsonView| text_added(json, "reasoning_content"@);
    if chunks.len() == 0 {
        assert(texts_shown(Seq::empty()) =~= Seq::empty());
        assert(thoughts_shown(Seq::empty()) =~= Seq::empty());
        assert(gathered(chunks, said) =~= Seq::empty());
        assert(gathered(chunks, mused) =~= Seq::empty());
    } else {
        let front = chunks.drop_last();
        let json = chunks.last();
        chunks_are_handed_on_word_for_word(st, front, auto_tool_id, ids);
        let before = read_chunks(st, front, auto_tool_id, ids);
        lemma_chunk_shows(before.state, json, auto_tool_id, ids[chunks.len() - 1]);
        let step = on_chunk(
            before.state,
            json,
            auto_tool_id,
            ids[chunks.len() - 1],
            parsed_arguments(with_delta(before.state, json).state.tool_calls),
        );
        gathered_of_both(before.events, step.events, text);
        gathered_of_both(before.events, step.events, thought);
        gathered_by_last(chunks, said);
        gathered_by_last(chunks, mused);
    }
}

proof fn lemma_calls_so_far(
    chunks: Seq<JsonView>,
    auto_tool_id: bool,
    ids: Seq<Seq<Seq<char>>>,
)
    requires
        forall|k: int|
            0 <= k < chunks.len() ==> reason_in(#[trigger] chunks[k]) != Some("tool_calls"@)
                && reason_in(chunks[k]) != Some("stop"@),
    ensures
        ({
            let step = read_chunks(openai_stream::fresh_state(), chunks, auto_tool_id, ids);
            &&& step.state.tool_calls == with_fragments(
                Seq::empty(),
                gathered(chunks, |json: JsonView| fragments_in(json)),
            )
            &&& calls_shown(step.events) == Seq::<EventView>::empty()
        }),
    decreases chunks.len(),
{
    let st = openai_stream::fresh_state();
    let give = |json: JsonView| fragments_in(json);
    let call = |e: EventView| only_if(e is ToolUse, e);
    if chunks.len() == 0 {
        assert(gathered(chunks, give) =~= Seq::empty());
        assert(calls_shown(Seq::empty()) =~= Seq::empty());
    } else {
        let front = chunks.drop_last();
        let json = chunks[chunks.len() - 1];
        assert forall|k: int| 0 <= k < front.len() implies reason_in(#[trigger] front[k]) != Some(
            "tool_calls"@,
        ) && reason_in(front[k]) != Some("stop"@) by {
            assert(front[k] == chunks[k]);
        }
        lemma_calls_so_far(front, auto_tool_id, ids);
        let before = read_chunks(st, front, auto_tool_id, ids);
        let step = on_chunk(
            before.state,
            json,
            auto_tool_id,
            ids[chunks.len() - 1],
            parsed_arguments(with_delta(before.state, json).state.tool_calls),
        );
        assert(reason_in(json) != Some("tool_calls"@) && reason_in(json) != Some("stop"@));
        lemma_chunk_calls(before.state, json);
        lemma_chunk_shows(before.state, json, auto_tool_id, ids[chunks.len() - 1]);
        gathered_by_last(chunks, give);
        fragments_may_come_in_any_number_of_chunks(
            Seq::empty(),
            gathered(front, give),
            fragments_in(json),
        );
        gathered_of_both(before.events, step.events, call);
        assert(calls_shown(step.events) =~= Seq::empty());
        assert(calls_shown(before.events + step.events) =~= Seq::empty());
    }
}

/// However the fragments of parallel calls are spread over the chunks of a reply, its
/// end hands out one call for each index, in order: under the name that the fragments
/// of that index gave, the last that is not empty, with the arguments that they make
/// together, or none where these are not JSON, and under their id, or a given one.
pub proof fn parallel_calls_are_kept_apart(
    chunks: Seq<JsonView>,
    last: JsonView,
    auto_tool_id: bool,
    ids: Seq<Seq<Seq<char>>>,
)
    requires
        forall|k: int|
            0 <= k < chunks.len() ==> reason_in(#[trigger] chunks[k]) != Some("tool_calls"@)
                && reason_in(chunks[k]) != Some("stop"@),
        reason_in(last) == Some("tool_calls"@) || reason_in(last) == Some("stop"@),
    ensures
        ({
            let tcs = gathered(chunks.push(last), |json: JsonView| fragments_in(json));
            let step = read_chunks(
                openai_stream::fresh_state(),
                chunks.push(last),
                auto_tool_id,
                ids,
            );
            let calls = calls_shown(step.events);
            &&& forall|t: int| 0 <= t < tcs.len() ==> index_in(#[trigger] tcs[t]) < calls.len()
            &&& calls.len() > 0 ==> exists|t: int|
                0 <= t < tcs.len() && index_in(#[trigger] tcs[t]) == calls.len() - 1
            &&& forall|i: int|
                0 <= i < calls.len() ==> {
                    let own = fragments_of(tcs, i);
                    let id = last_or(ids_in(own), Seq::empty());
                    #[trigger] calls[i] == EventView::ToolUse {
                        id: if id.len() == 0 && auto_tool_id {
                            ids[chunks.len() as int][i]
                        } else {
                            id
                        },
                        name: last_or(names_in(own), Seq::empty()),
                        input: setting(
                            json_parse(arguments_in(own)),
                            JsonView::Object(Map::empty()),
                        ),
                        extra: if extras_in(own).len() > 0 {
                            Some(extras_in(own)[extras_in(own).len() - 1])
                        } else {
                            None
                        },
                    }
                }
            &&& step.state.tool_calls.len() == 0
        }),
{
    let st = openai_stream::fresh_state();
    let give = |json: JsonView| fragments_in(json);
    let call = |e: EventView| only_if(e is ToolUse, e);
    let more = chunks.push(last);
    lemma_calls_so_far(chunks, auto_tool_id, ids);
    assert(more.drop_last() =~= chunks);
    let before = read_chunks(st, chunks, auto_tool_id, ids);
    let own_ids = ids[chunks.len() as int];
    lemma_chunk_calls(before.state, last);
    lemma_chunk_shows(before.state, last, auto_tool_id, own_ids);
    gathered_of_more(chunks, last, give);
    let tcs = gathered(more, give);
    fragments_may_come_in_any_number_of_chunks(
        Seq::empty(),
        gathered(chunks, give),
        fragments_in(last),
    );
    fragments_make_calls(tcs);
    let parts = with_delta(before.state, last).state.tool_calls;
    let step = on_chunk(before.state, last, auto_tool_id, own_ids, parsed_arguments(parts));
    gathered_of_both(before.events, step.events, call);
    assert(calls_shown(before.events + step.events) =~= calls_shown(step.events));
    let calls = calls_shown(step.events);
    assert forall|i: int| 0 <= i < calls.len() implies {
        let own = fragments_of(tcs, i);
        let id = last_or(ids_in(own), Seq::empty());
        #[trigger] calls[i] == EventView::ToolUse {
            id: if id.len() == 0 && auto_tool_id {
                ids[chunks.len() as int][i]
            } else {
                id
            },
            name: last_or(names_in(own), Seq::empty()),
            input: setting(json_parse(arguments_in(own)), JsonView::Object(Map::empty())),
            extra: if extras_in(own).len() > 0 {
                Some(extras_in(own)[extras_in(own).len() - 1])
            } else {
                None
            },
        }
    } by {
        assert(parts[i] == put_together(fragments_of(tcs, i)));
    }
}

/// Why a reply ends: at `stop` its turn, at `tool_calls` or with calls at hand a tool
/// round, at `length` the token limit. A chunk that names no such reason leaves it
/// open.
pub proof fn reasons_are_kept(
    st: openai_stream::StreamStateView,
    json: JsonView,
    auto_tool_id: bool,
    ids: Seq<Seq<char>>,
)
    ensures
        ({
            let calls = with_delta(st, json).state.tool_calls;
            let step = on_chunk(st, json, auto_tool_id, ids, parsed_arguments(calls));
            step.state.pending_done == (if reason_in(json) == Some("length"@) {
                Some(StopReason::MaxTokens)
            } else if reason_in(json) == Some("tool_calls"@) || (reason_in(json) == Some("stop"@)
                && calls_shown(step.events).len() > 0) {
                Some(StopReason::ToolUse)
            } else if reason_in(json) == Some("stop"@) {
                Some(StopReason::EndTurn)
            } else {
                st.pending_done
            })
        }),
{
    lemma_chunk_calls(st, json);
    lemma_chunk_shows(st, json, auto_tool_id, ids);
    reveal_strlit("tool_calls");
    reveal_strlit("stop");
    reveal_strlit("length");
    assert("tool_calls"@.len() == 10 && "stop"@.len() == 4 && "length"@.len() == 6);
}

/// The counts that a chunk reports replace those before it, with cached prompt tokens
/// added to the others; what it does not report stays, and the end of the reply
/// carries the counts.
pub proof fn counts_are_taken_over(
    st: openai_stream::StreamStateView,
    json: JsonView,
    auto_tool_id: bool,
    ids: Seq<Seq<char>>,
)
    requires
        openai_stream::usage_fits(st, json),
    ensures
        ({
            let calls = with_delta(st, json).state.tool_calls;
            let after = on_chunk(st, json, auto_tool_id, ids, parsed_arguments(calls)).state;
            let usage = at(Some(json), "usage"@);
            &&& usage is None ==> after.input_tokens == st.input_tokens && after.output_tokens
                == st.output_tokens
            &&& u64_at(at(usage, "prompt_tokens"@)) matches Some(n) ==> after.input_tokens == n
                + setting(u64_at(at(usage, "prompt_cache_hit_tokens"@)), 0)
            &&& usage is Some && u64_at(at(usage, "prompt_tokens"@)) is None ==> after.input_tokens
                == st.input_tokens + setting(u64_at(at(usage, "prompt_cache_hit_tokens"@)), 0)
            &&& u64_at(at(usage, "completion_tokens"@)) matches Some(n) ==> after.output_tokens
                == n
            &&& u64_at(at(usage, "completion_tokens"@)) is None ==> after.output_tokens
                == st.output_tokens
            &&& after.pending_done matches Some(reason) ==> openai_stream::done_event(after)
                == Some(
                EventView::Done {
                    stop_reason: reason,
                    usage: TokenUsage {
                        input_tokens: after.input_tokens,
                        output_tokens: after.output_tokens,
                        cache_creation_tokens: 0,
                        cache_read_tokens: 0,
                    },
                },
            )
            &&& after.pending_done is None ==> openai_stream::done_event(after) is None
        }),
{
    lemma_chunk_calls(st, json);
}

/// A payload does what the chunk that it writes does, with the arguments of the calls
/// read as JSON; one that is no JSON does nothing.
pub proof fn payloads_are_read_as_chunks(
    st: openai_stream::StreamStateView,
    data: Seq<char>,
    auto_tool_id: bool,
    ids: Seq<Seq<char>>,
)
    ensures
        json_parse(data) is None ==> {
            let step = openai_stream::on_data(st, data, auto_tool_id, ids);
            step.state == st && step.events.len() == 0
        },
        json_parse(data) matches Some(json) ==> {
            let chunks = seq![json];
            let step = openai_stream::on_data(st, data, auto_tool_id, ids);
            &&& step.state == read_chunks(st, chunks, auto_tool_id, seq![ids]).state
            &&& step.events == read_chunks(st, chunks, auto_tool_id, seq![ids]).events
        },
{
    if let Some(json) = json_parse(data) {
        let chunks = seq![json];
        assert(chunks.drop_last() =~= Seq::empty());
        let none = read_chunks(st, chunks.drop_last(), auto_tool_id, seq![ids]);
        assert(none.state == st);
        assert(none.events =~= Seq::empty());
        let step = openai_stream::on_data(st, data, auto_tool_id, ids);
        assert(read_chunks(st, chunks, auto_tool_id, seq![ids]).events =~= none.events + step.events);
        assert(none.events + step.events =~= step.events);
    }
}

/// Prompt tokens fit exactly where the count and the cached ones together do.
pub proof fn prompt_tokens_fit_where_their_sum_does(
    st: openai_stream::StreamStateView,
    json: JsonView,
)
    ensures
        openai_stream::usage_fits(st, json) <==> {
            let usage = at(Some(json), "usage"@);
            let cached = u64_at(at(usage, "prompt_cache_hit_tokens"@));
            let prompt = u64_at(at(usage, "prompt_tokens"@));
            usage is None || (if prompt is Some {
                prompt->0 as int
            } else {
                st.input_tokens as int
            }) + (if cached is Some {
                cached->0 as int
            } else {
                0
            }) < 0x1_0000_0000_0000_0000
        },
{
}

/// A payload changes of the state only what it tells: the start of a message the
/// prompt counts, its end the output count, the start of a block its type and, for a
/// call, its id and name, a piece of input the input so far, and the end of a block its
/// type and the input. What is no JSON, and any other payload, changes nothing.
pub proof fn payloads_change_only_what_they_tell(
    st: StreamStateView,
    kind: Seq<char>,
    data: Seq<char>,
)
    ensures
        ({
            let after = anthropic_stream::on_data(st, kind, data).state;
            let json = json_parse(data);
            let block = at(json, "content_block"@);
            let prompt = at(at(json, "message"@), "usage"@);
            let output = at(json, "usage"@);
            &&& json is None ==> after == st
            &&& kind != "message_start"@ && kind != "message_delta"@ && kind
                != "content_block_start"@ && kind != "content_block_delta"@ && kind
                != "content_block_stop"@ ==> after == st
            &&& json is Some && kind == "message_start"@ ==> {
                &&& prompt is None ==> after == st
                &&& prompt is Some ==> after == (StreamStateView {
                    usage: TokenUsage {
                        input_tokens: setting(u64_at(at(prompt, "input_tokens"@)), 0),
                        output_tokens: st.usage.output_tokens,
                        cache_creation_tokens: setting(
                            u64_at(at(prompt, "cache_creation_input_tokens"@)),
                            0,
                        ),
                        cache_read_tokens: setting(
                            u64_at(at(prompt, "cache_read_input_tokens"@)),
                            0,
                        ),
                    },
                    ..st
                })
            }
            &&& json is Some && kind == "message_delta"@ ==> {
                &&& output is None ==> after == st
                &&& output is Some ==> after == (StreamStateView {
                    usage: TokenUsage {
                        output_tokens: setting(u64_at(at(output, "output_tokens"@)), 0),
                        ..st.usage
                    },
                    ..st
                })
            }
            &&& json is Some && kind == "content_block_start"@ ==> {
                let named = setting(text_at(at(block, "type"@)), ""@);
                &&& after.current_block_type == Some(named)
                &&& after.usage == st.usage
                &&& named == "tool_use"@ ==> {
                    &&& after.tool_id == setting(text_at(at(block, "id"@)), ""@)
                    &&& after.tool_name == setting(text_at(at(block, "name"@)), ""@)
                    &&& after.tool_input_json.len() == 0
                }
                &&& named != "tool_use"@ ==> after == (StreamStateView {
                    current_block_type: after.current_block_type,
                    ..st
                })
            }
            &&& json is Some && kind == "content_block_delta"@ ==> {
                let delta = at(json, "delta"@);
                let piece = text_at(at(delta, "partial_json"@));
                after == (StreamStateView {
                    tool_input_json: st.tool_input_json + (if text_at(at(delta, "type"@)) == Some(
                        "input_json_delta"@,
                    ) && piece is Some {
                        piece->0
                    } else {
                        Seq::empty()
                    }),
                    ..st
                })
            }
            &&& json is Some && kind == "content_block_stop"@ ==> after == (StreamStateView {
                current_block_type: None,
                tool_input_json: if st.current_block_type == Some("tool_use"@) {
                    Seq::empty()
                } else {
                    st.tool_input_json
                },
                ..st
            })
        }),
{
    lemma_kinds();
    let after = anthropic_stream::on_data(st, kind, data).state;
    if json_parse(data) is Some && kind == "content_block_delta"@ {
        let delta = at(json_parse(data), "delta"@);
        let piece = text_at(at(delta, "partial_json"@));
        assert(st.tool_input_json + Seq::<char>::empty() =~= st.tool_input_json);
        if text_at(at(delta, "type"@)) == Some("input_json_delta"@) && piece is Some {
            assert(after.tool_input_json == st.tool_input_json + piece->0);
        } else {
            assert(after == st);
        }
    }
}

} // verus!
