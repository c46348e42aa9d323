//! Laws of collected replies: what the user is shown and what is kept of a reply is
//! what its events brought, in their order.

use vstd::prelude::*;

use crate::json::json_text;
use crate::llm::EventView;
use crate::message::BlockView;
use crate::sequences::{gathered, gathered_by_last, only_if};
use crate::stream::{collected, shown, with_event, OutcomeView, StreamOutputView};

verus! {

/// A collected reply holds every piece of text, every thought and every call of its
/// events, each in order and unchanged, whatever came between them.
pub proof fn replies_hold_every_piece(events: Seq<EventView>)
    ensures
        collected(events).assistant_text == gathered(
            events,
            |e: EventView|
                if e is TextDelta {
                    e->TextDelta_0
                } else {
                    Seq::empty()
                },
        ),
        collected(events).thinking_text == gathered(
            events,
            |e: EventView|
                if e is ThinkingDelta {
                    e->ThinkingDelta_0
                } else {
                    Seq::empty()
                },
        ),
        collected(events).tool_calls == gathered(
            events,
            |e: EventView|
                only_if(
                    e is ToolUse,
                    BlockView::ToolUse {
                        id: e->ToolUse_id,
                        name: e->ToolUse_name,
                        input: e->ToolUse_input,
                        extra: e->ToolUse_extra,
                    },
                ),
        ),
    decreases events.len(),
{
    let text = |e: EventView|
        if e is TextDelta {
            e->TextDelta_0
        } else {
            Seq::empty()
        };
    let thought = |e: EventView|
        if e is ThinkingDelta {
            e->ThinkingDelta_0
        } else {
            Seq::empty()
        };
    let call = |e: EventView|
        only_if(
            e is ToolUse,
            BlockView::ToolUse {
                id: e->ToolUse_id,
                name: e->ToolUse_name,
                input: e->ToolUse_input,
                extra: e->ToolUse_extra,
            },
        );
    if events.len() > 0 {
        replies_hold_every_piece(events.drop_last());
        gathered_by_last(events, text);
        gathered_by_last(events, thought);
        gathered_by_last(events, call);
    }
    assert(collected(events).assistant_text =~= gathered(events, text));
    assert(collected(events).thinking_text =~= gathered(events, thought));
    assert(collected(events).tool_calls =~= gathered(events, call));
}

/// One more event adds its piece at the end of its kind and leaves the other kinds as
/// they are.
pub proof fn pieces_do_not_mix(o: OutcomeView, e: EventView)
    ensures
        !(e is TextDelta) ==> with_event(o, e).assistant_text == o.assistant_text,
        !(e is ThinkingDelta) ==> with_event(o, e).thinking_text == o.thinking_text,
        !(e is ThinkingSignature) ==> with_event(o, e).thinking_signature == o.thinking_signature,
        !(e is ToolUse) ==> with_event(o, e).tool_calls == o.tool_calls,
        !(e is Done) ==> with_event(o, e).stop_reason == o.stop_reason && with_event(o, e).usage
            == o.usage,
        e is TextDelta ==> with_event(o, e).assistant_text == o.assistant_text + e->TextDelta_0,
        e is ThinkingDelta ==> with_event(o, e).thinking_text == o.thinking_text
            + e->ThinkingDelta_0,
        e is ThinkingSignature ==> with_event(o, e).thinking_signature == Some(
            e->ThinkingSignature_0,
        ),
        e is Done ==> with_event(o, e).stop_reason == e->Done_stop_reason && with_event(o, e).usage
            == e->Done_usage,
{
}

/// Text and thoughts are shown as they come and calls with their input as JSON text;
/// signatures, ends and errors show nothing.
pub proof fn pieces_are_shown_as_they_come(e: EventView)
    ensures
        shown(e) is Some <==> e is TextDelta || e is ThinkingDelta || e is ToolUse,
        e is TextDelta ==> shown(e) == Some(StreamOutputView::TextDelta(e->TextDelta_0)),
        e is ThinkingDelta ==> shown(e) == Some(StreamOutputView::Thinking(e->ThinkingDelta_0)),
        e is ToolUse ==> shown(e) == Some(
            StreamOutputView::ToolCall {
                id: e->ToolUse_id,
                name: e->ToolUse_name,
                input: json_text(e->ToolUse_input),
            },
        ),
{
}

} // verus!
