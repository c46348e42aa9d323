//! One model reply, collected from its events.

use vstd::prelude::*;

use crate::error::AgentError;
use crate::json::json_text;
use crate::llm::{EventView, LlmEvent};
use crate::message::{block_views, copy_blocks, no_usage, BlockView, ContentBlock, StopReason, TokenUsage};
use crate::text::{copy_opt, is_empty, opt_view};

verus! {

broadcast use vstd::string::group_string_axioms;

/// A complete model reply.
#[derive(Debug)]
pub struct StreamOutcome {
    pub assistant_text: String,
    pub thinking_text: String,
    pub thinking_signature: Option<String>,
    pub tool_calls: Vec<ContentBlock>,
    pub stop_reason: StopReason,
    pub usage: TokenUsage,
}

#[verifier::ext_equal]
pub struct OutcomeView {
    pub assistant_text: Seq<char>,
    pub thinking_text: Seq<char>,
    pub thinking_signature: Option<Seq<char>>,
    pub tool_calls: Seq<BlockView>,
    pub stop_reason: StopReason,
    pub usage: TokenUsage,
}

impl StreamOutcome {
    pub open spec fn view(&self) -> OutcomeView {
        OutcomeView {
            assistant_text: self.assistant_text@,
            thinking_text: self.thinking_text@,
            thinking_signature: opt_view(self.thinking_signature),
            tool_calls: block_views(self.tool_calls@),
            stop_reason: self.stop_reason,
            usage: self.usage,
        }
    }
}

/// What is shown to the user while a reply arrives.
#[derive(Debug)]
pub enum StreamOutput {
    TextDelta(String),
    ToolCall { id: String, name: String, input: String },
    Thinking(String),
}

#[verifier::ext_equal]
pub enum StreamOutputView {
    TextDelta(Seq<char>),
    ToolCall { id: Seq<char>, name: Seq<char>, input: Seq<char> },
    Thinking(Seq<char>),
}

impl StreamOutput {
    pub open spec fn view(&self) -> StreamOutputView {
        match self {
            StreamOutput::TextDelta(s) => StreamOutputView::TextDelta(s@),
            StreamOutput::ToolCall { id, name, input } => StreamOutputView::ToolCall {
                id: id@,
                name: name@,
                input: input@,
            },
            StreamOutput::Thinking(s) => StreamOutputView::Thinking(s@),
        }
    }
}

// ---------------------------------------------------------------------------
// Model
// ---------------------------------------------------------------------------

pub open spec fn empty_outcome() -> OutcomeView {
    OutcomeView {
        assistant_text: Seq::empty(),
        thinking_text: Seq::empty(),
        thinking_signature: None,
        tool_calls: Seq::empty(),
        stop_reason: StopReason::EndTurn,
        usage: no_usage(),
    }
}

/// The reply with one more event. An error ends it and is not part of it.
pub open spec fn with_event(o: OutcomeView, e: EventView) -> OutcomeView {
    match e {
        EventView::TextDelta(s) => OutcomeView { assistant_text: o.assistant_text + s, ..o },
        EventView::ToolUse { id, name, input, extra } => OutcomeView {
            tool_calls: o.tool_calls.push(BlockView::ToolUse { id, name, input, extra }),
            ..o
        },
        EventView::ThinkingDelta(s) => OutcomeView { thinking_text: o.thinking_text + s, ..o },
        EventView::ThinkingSignature(s) => OutcomeView { thinking_signature: Some(s), ..o },
        EventView::Done { stop_reason, usage } => OutcomeView { stop_reason, usage, ..o },
        EventView::Error(_) => o,
    }
}

/// What an event shows to the user.
pub open spec fn shown(e: EventView) -> Option<StreamOutputView> {
    match e {
        EventView::TextDelta(s) => Some(StreamOutputView::TextDelta(s)),
        EventView::ToolUse { id, name, input, .. } => Some(
            StreamOutputView::ToolCall { id, name, input: json_text(input) },
        ),
        EventView::ThinkingDelta(s) => Some(StreamOutputView::Thinking(s)),
        _ => None,
    }
}

pub open spec fn output_view(o: Option<StreamOutput>) -> Option<StreamOutputView> {
    match o {
        Some(o) => Some(o@),
        None => None,
    }
}

/// The reply that some events make.
pub open spec fn collected(events: Seq<EventView>) -> OutcomeView
    decreases events.len(),
{
    if events.len() == 0 {
        empty_outcome()
    } else {
        with_event(collected(events.drop_last()), events.last())
    }
}

/// The blocks of the assistant message for a reply: thinking, text, tool calls.
pub open spec fn assistant_content(o: OutcomeView) -> Seq<BlockView> {
    let thinking = if o.thinking_text.len() > 0 || o.thinking_signature is Some {
        seq![BlockView::Thinking { thinking: o.thinking_text, signature: o.thinking_signature }]
    } else {
        Seq::empty()
    };
    let text = if o.assistant_text.len() > 0 {
        seq![BlockView::Text { text: o.assistant_text }]
    } else {
        Seq::empty()
    };
    thinking + text + o.tool_calls
}

// ---------------------------------------------------------------------------
// Executable
// ---------------------------------------------------------------------------

impl StreamOutcome {
    /// A reply of which nothing has arrived.
    pub fn start() -> (r: Self)
        ensures
            r@ == empty_outcome(),
    {
        let r = StreamOutcome {
            assistant_text: String::new(),
            thinking_text: String::new(),
            thinking_signature: None,
            tool_calls: Vec::new(),
            stop_reason: StopReason::EndTurn,
            usage: TokenUsage::default(),
        };
        assert(r@.tool_calls =~= Seq::empty());
        r
    }

    /// Takes in one event and says what it shows; an error event ends the reply.
    pub fn push_event(&mut self, event: LlmEvent) -> (r: Result<Option<StreamOutput>, AgentError>)
        ensures
            final(self)@ == with_event(old(self)@, event@),
            match r {
                Ok(output) => !(event@ is Error) && output_view(output) == shown(event@),
                Err(e) => e matches AgentError::ApiError(s) && event@ == EventView::Error(s@),
            },
    {
        match event {
            LlmEvent::TextDelta(text) => {
                self.assistant_text.append(text.as_str());
                Ok(Some(StreamOutput::TextDelta(text)))
            },
            LlmEvent::ToolUse { id, name, input, extra } => {
                let output = StreamOutput::ToolCall {
                    id: id.clone(),
                    name: name.clone(),
                    input: input.to_text(),
                };
                let ghost before = block_views(self.tool_calls@);
                let block = ContentBlock::ToolUse { id, name, input, extra };
                self.tool_calls.push(block);
                assert(block_views(self.tool_calls@) =~= before.push(block@));
                Ok(Some(output))
            },
            LlmEvent::ThinkingDelta(text) => {
                self.thinking_text.append(text.as_str());
                Ok(Some(StreamOutput::Thinking(text)))
            },
            LlmEvent::ThinkingSignature(signature) => {
                self.thinking_signature = Some(signature);
                Ok(None)
            },
            LlmEvent::Done { stop_reason, usage } => {
                self.stop_reason = stop_reason;
                self.usage = usage;
                Ok(None)
            },
            LlmEvent::Error(e) => Err(AgentError::ApiError(e)),
        }
    }
}

/// Assemble the assistant message content blocks (thinking, text, tool calls)
/// from a completed [`StreamOutcome`], preserving the canonical block order.
pub fn build_assistant_content(outcome: &StreamOutcome) -> (r: Vec<ContentBlock>)
    ensures
        block_views(r@) == assistant_content(outcome@),
{
    let mut content: Vec<ContentBlock> = Vec::new();
    if !is_empty(outcome.thinking_text.as_str()) || outcome.thinking_signature.is_some() {
        content.push(
            ContentBlock::Thinking {
                thinking: outcome.thinking_text.clone(),
                signature: copy_opt(&outcome.thinking_signature),
            },
        );
    }
    if !is_empty(outcome.assistant_text.as_str()) {
        content.push(ContentBlock::Text { text: outcome.assistant_text.clone() });
    }
    let ghost head = block_views(content@);
    let mut calls = copy_blocks(&outcome.tool_calls);
    let ghost tail = block_views(calls@);
    content.append(&mut calls);
    assert(block_views(content@) =~= head + tail);
    assert(block_views(content@) =~= assistant_content(outcome@));
    content
}

// ---------------------------------------------------------------------------
// Laws
// ---------------------------------------------------------------------------

/// The text pieces of some events, put together.
pub open spec fn text_of_events(events: Seq<EventView>) -> Seq<char>
    decreases events.len(),
{
    if events.len() == 0 {
        Seq::empty()
    } else {
        let rest = text_of_events(events.drop_last());
        match events.last() {
            EventView::TextDelta(s) => rest + s,
            _ => rest,
        }
    }
}

/// The tool calls among some events.
pub open spec fn calls_of_events(events: Seq<EventView>) -> Seq<BlockView>
    decreases events.len(),
{
    if events.len() == 0 {
        Seq::empty()
    } else {
        let rest = calls_of_events(events.drop_last());
        match events.last() {
            EventView::ToolUse { id, name, input, extra } => rest.push(
                BlockView::ToolUse { id, name, input, extra },
            ),
            _ => rest,
        }
    }
}

/// A collected reply holds the text pieces put together and the tool calls in
/// order, and nothing else among its calls.
pub proof fn replies_hold_what_was_sent(events: Seq<EventView>)
    ensures
        collected(events).assistant_text == text_of_events(events),
        collected(events).tool_calls == calls_of_events(events),
        forall|i: int|
            0 <= i < collected(events).tool_calls.len() ==> (#[trigger] collected(
                events,
            ).tool_calls[i]) is ToolUse,
    decreases events.len(),
{
    if events.len() > 0 {
        replies_hold_what_was_sent(events.drop_last());
    }
}

/// The thinking pieces of some events, put together.
pub open spec fn thoughts_of_events(events: Seq<EventView>) -> Seq<char>
    decreases events.len(),
{
    if events.len() == 0 {
        Seq::empty()
    } else {
        let rest = thoughts_of_events(events.drop_last());
        match events.last() {
            EventView::ThinkingDelta(s) => rest + s,
            _ => rest,
        }
    }
}

/// The event at `i` is the last of those that `counts` picks.
pub open spec fn is_last_of(
    events: Seq<EventView>,
    counts: spec_fn(EventView) -> bool,
    i: int,
) -> bool {
    &&& 0 <= i < events.len()
    &&& counts(events[i])
    &&& forall|j: int| i < j < events.len() ==> !counts(#[trigger] events[j])
}

proof fn lemma_is_last_of_shorter(
    events: Seq<EventView>,
    counts: spec_fn(EventView) -> bool,
    i: int,
)
    requires
        is_last_of(events, counts, i),
        i < events.len() - 1,
    ensures
        is_last_of(events.drop_last(), counts, i),
{
    assert forall|j: int| i < j < events.drop_last().len() implies !counts(
        #[trigger] events.drop_last()[j],
    ) by {
        assert(!counts(events[j]));
    }
}

/// A collected reply holds the thinking pieces put together.
pub proof fn thoughts_are_kept_in_order(events: Seq<EventView>)
    ensures
        collected(events).thinking_text == thoughts_of_events(events),
    decreases events.len(),
{
    if events.len() > 0 {
        thoughts_are_kept_in_order(events.drop_last());
    }
}

/// The last signature counts; without one there is none.
pub proof fn the_last_signature_counts(events: Seq<EventView>, i: int)
    ensures
        is_last_of(events, |e: EventView| e is ThinkingSignature, i) ==> collected(
            events,
        ).thinking_signature == Some(events[i]->ThinkingSignature_0),
        (forall|j: int| 0 <= j < events.len() ==> !((#[trigger] events[j]) is ThinkingSignature))
            ==> collected(events).thinking_signature is None,
    decreases events.len(),
{
    if events.len() > 0 {
        let front = events.drop_last();
        let last = events[events.len() - 1];
        the_last_signature_counts(front, i);
        let counts = |e: EventView| e is ThinkingSignature;
        if is_last_of(events, counts, i) && i < events.len() - 1 {
            assert(!counts(last));
            lemma_is_last_of_shorter(events, counts, i);
        }
        if forall|j: int| 0 <= j < events.len() ==> !((#[trigger] events[j]) is ThinkingSignature) {
            assert(!(last is ThinkingSignature));
            assert forall|j: int| 0 <= j < front.len() implies !((
            #[trigger] front[j]) is ThinkingSignature) by {
                assert(front[j] == events[j]);
            }
        }
    }
}

/// Why the reply ended and what it used is what its last end says; a reply that
/// breaks off without one ended its turn and used nothing.
pub proof fn the_last_end_counts(events: Seq<EventView>, i: int)
    ensures
        is_last_of(events, |e: EventView| e is Done, i) ==> {
            &&& collected(events).stop_reason == events[i]->Done_stop_reason
            &&& collected(events).usage == events[i]->Done_usage
        },
        (forall|j: int| 0 <= j < events.len() ==> !((#[trigger] events[j]) is Done)) ==> {
            &&& collected(events).stop_reason == StopReason::EndTurn
            &&& collected(events).usage == no_usage()
        },
    decreases events.len(),
{
    if events.len() > 0 {
        let front = events.drop_last();
        let last = events[events.len() - 1];
        the_last_end_counts(front, i);
        let counts = |e: EventView| e is Done;
        if is_last_of(events, counts, i) && i < events.len() - 1 {
            assert(!counts(last));
            lemma_is_last_of_shorter(events, counts, i);
        }
        if forall|j: int| 0 <= j < events.len() ==> !((#[trigger] events[j]) is Done) {
            assert(!(last is Done));
            assert forall|j: int| 0 <= j < front.len() implies !((#[trigger] front[j]) is Done) by {
                assert(front[j] == events[j]);
            }
        }
    }
}

} // verus!
