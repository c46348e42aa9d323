//! Replies in the Anthropic streaming format.

use vstd::prelude::*;

use crate::compat::setting;
use crate::json::{
    at, json_parse, member, ref_view, text_at, text_value, u64_at, u64_value, JsonValue, JsonView,
};
use crate::llm::{event_views, EventView, LlmEvent};
use crate::message::{opt_json, StopReason, TokenUsage};
use crate::text::{copy_text, opt_view, str_eq};

verus! {

broadcast use vstd::string::group_string_axioms;

/// State machine for accumulating SSE content blocks
#[derive(Debug)]
pub struct StreamState {
    /// Current block type being accumulated
    pub current_block_type: Option<String>,
    /// Accumulated tool input JSON fragments
    pub tool_input_json: String,
    /// Tool use ID for current block
    pub tool_id: String,
    /// Tool name for current block
    pub tool_name: String,
    /// Input tokens from message_start
    pub input_tokens: u64,
    /// Output tokens accumulated
    pub output_tokens: u64,
    /// Cache creation tokens (prompt caching)
    pub cache_creation_tokens: u64,
    /// Cache read tokens (prompt caching)
    pub cache_read_tokens: u64,
}

/// The state as mathematics.
#[verifier::ext_equal]
pub struct StreamStateView {
    pub current_block_type: Option<Seq<char>>,
    pub tool_input_json: Seq<char>,
    pub tool_id: Seq<char>,
    pub tool_name: Seq<char>,
    pub usage: TokenUsage,
}

/// Nothing received.
pub open spec fn fresh_state() -> StreamStateView {
    StreamStateView {
        current_block_type: None,
        tool_input_json: Seq::empty(),
        tool_id: Seq::empty(),
        tool_name: Seq::empty(),
        usage: TokenUsage {
            input_tokens: 0,
            output_tokens: 0,
            cache_creation_tokens: 0,
            cache_read_tokens: 0,
        },
    }
}

impl Default for StreamState {
    fn default() -> (r: Self)
        ensures
            r@ == fresh_state(),
    {
        Self::new()
    }
}

impl StreamState {
    pub open spec fn view(&self) -> StreamStateView {
        StreamStateView {
            current_block_type: opt_view(self.current_block_type),
            tool_input_json: self.tool_input_json@,
            tool_id: self.tool_id@,
            tool_name: self.tool_name@,
            usage: TokenUsage {
                input_tokens: self.input_tokens,
                output_tokens: self.output_tokens,
                cache_creation_tokens: self.cache_creation_tokens,
                cache_read_tokens: self.cache_read_tokens,
            },
        }
    }

    pub fn new() -> (r: Self)
        ensures
            r@ == fresh_state(),
    {
        Self {
            current_block_type: None,
            tool_input_json: String::new(),
            tool_id: String::new(),
            tool_name: String::new(),
            input_tokens: 0,
            output_tokens: 0,
            cache_creation_tokens: 0,
            cache_read_tokens: 0,
        }
    }
}

// ---------------------------------------------------------------------------
// Model
// ---------------------------------------------------------------------------

/// A state, and the events on the way to it.
#[verifier::ext_equal]
pub struct StreamStep {
    pub state: StreamStateView,
    pub events: Seq<EventView>,
}

/// The start of a message tells the size of the prompt.
pub open spec fn on_message_start(st: StreamStateView, json: JsonView) -> StreamStep {
    let usage = at(at(Some(json), "message"@), "usage"@);
    StreamStep {
        state: if usage is Some {
            StreamStateView {
                usage: TokenUsage {
                    input_tokens: setting(u64_at(at(usage, "input_tokens"@)), 0),
                    cache_creation_tokens: setting(
                        u64_at(at(usage, "cache_creation_input_tokens"@)),
                        0,
                    ),
                    cache_read_tokens: setting(u64_at(at(usage, "cache_read_input_tokens"@)), 0),
                    ..st.usage
                },
                ..st
            }
        } else {
            st
        },
        events: Seq::empty(),
    }
}

/// The start of a block tells its type, and of a tool call its id and name.
pub open spec fn on_block_start(st: StreamStateView, json: JsonView) -> StreamStep {
    let block = at(Some(json), "content_block"@);
    let block_type = setting(text_at(at(block, "type"@)), ""@);
    let typed = StreamStateView { current_block_type: Some(block_type), ..st };
    StreamStep {
        state: if block_type == "tool_use"@ {
            StreamStateView {
                tool_id: setting(text_at(at(block, "id"@)), ""@),
                tool_name: setting(text_at(at(block, "name"@)), ""@),
                tool_input_json: Seq::empty(),
                ..typed
            }
        } else {
            typed
        },
        events: Seq::empty(),
    }
}

/// A fragment is handed on, or kept where it belongs to a tool's input.
pub open spec fn on_block_delta(st: StreamStateView, json: JsonView) -> StreamStep {
    let delta = at(Some(json), "delta"@);
    let delta_type = setting(text_at(at(delta, "type"@)), ""@);
    let same = StreamStep { state: st, events: Seq::empty() };
    if delta_type == "text_delta"@ {
        match text_at(at(delta, "text"@)) {
            Some(text) => StreamStep { state: st, events: seq![EventView::TextDelta(text)] },
            None => same,
        }
    } else if delta_type == "input_json_delta"@ {
        match text_at(at(delta, "partial_json"@)) {
            Some(partial) => StreamStep {
                state: StreamStateView { tool_input_json: st.tool_input_json + partial, ..st },
                events: Seq::empty(),
            },
            None => same,
        }
    } else if delta_type == "thinking_delta"@ {
        match text_at(at(delta, "thinking"@)) {
            Some(text) => StreamStep { state: st, events: seq![EventView::ThinkingDelta(text)] },
            None => same,
        }
    } else if delta_type == "signature_delta"@ {
        match text_at(at(delta, "signature"@)) {
            Some(text) => StreamStep {
                state: st,
                events: seq![EventView::ThinkingSignature(text)],
            },
            None => same,
        }
    } else {
        same
    }
}

/// The end of a tool call hands it on, with an empty object for an input that is
/// not JSON.
pub open spec fn on_block_stop(st: StreamStateView, input: Option<JsonView>) -> StreamStep {
    if st.current_block_type == Some("tool_use"@) {
        StreamStep {
            state: StreamStateView {
                current_block_type: None,
                tool_input_json: Seq::empty(),
                ..st
            },
            events: seq![
                EventView::ToolUse {
                    id: st.tool_id,
                    name: st.tool_name,
                    input: setting(input, JsonView::Object(Map::empty())),
                    extra: None,
                },
            ],
        }
    } else {
        StreamStep {
            state: StreamStateView { current_block_type: None, ..st },
            events: Seq::empty(),
        }
    }
}

pub open spec fn stop_reason_of(name: Option<Seq<char>>) -> StopReason {
    match name {
        Some(name) => if name == "end_turn"@ {
            StopReason::EndTurn
        } else if name == "tool_use"@ {
            StopReason::ToolUse
        } else if name == "max_tokens"@ {
            StopReason::MaxTokens
        } else {
            StopReason::EndTurn
        },
        None => StopReason::EndTurn,
    }
}

/// The end of a message tells why, and what was used.
pub open spec fn on_message_delta(st: StreamStateView, json: JsonView) -> StreamStep {
    let usage = at(Some(json), "usage"@);
    let counted = if usage is Some {
        StreamStateView {
            usage: TokenUsage {
                output_tokens: setting(u64_at(at(usage, "output_tokens"@)), 0),
                ..st.usage
            },
            ..st
        }
    } else {
        st
    };
    StreamStep {
        state: counted,
        events: seq![
            EventView::Done {
                stop_reason: stop_reason_of(
                    text_at(at(at(Some(json), "delta"@), "stop_reason"@)),
                ),
                usage: counted.usage,
            },
        ],
    }
}

pub open spec fn on_error(st: StreamStateView, json: JsonView) -> StreamStep {
    StreamStep {
        state: st,
        events: seq![
            EventView::Error(
                setting(
                    text_at(at(at(Some(json), "error"@), "message"@)),
                    "Unknown API error"@,
                ),
            ),
        ],
    }
}

/// One event of the stream, with `input` the accumulated tool input read as
/// JSON.
pub open spec fn on_event(
    st: StreamStateView,
    event_type: Seq<char>,
    json: JsonView,
    input: Option<JsonView>,
) -> StreamStep {
    if event_type == "message_start"@ {
        on_message_start(st, json)
    } else if event_type == "content_block_start"@ {
        on_block_start(st, json)
    } else if event_type == "content_block_delta"@ {
        on_block_delta(st, json)
    } else if event_type == "content_block_stop"@ {
        on_block_stop(st, input)
    } else if event_type == "message_delta"@ {
        on_message_delta(st, json)
    } else if event_type == "error"@ {
        on_error(st, json)
    } else {
        StreamStep { state: st, events: Seq::empty() }
    }
}

/// One payload of the stream. What is not JSON is passed over.
pub open spec fn on_data(st: StreamStateView, event_type: Seq<char>, data: Seq<char>) -> StreamStep {
    match json_parse(data) {
        Some(json) => on_event(st, event_type, json, json_parse(st.tool_input_json)),
        None => StreamStep { state: st, events: Seq::empty() },
    }
}

// ---------------------------------------------------------------------------
// Executable
// ---------------------------------------------------------------------------

proof fn lemma_no_events(v: Vec<LlmEvent>)
    requires
        v@.len() == 0,
    ensures
        event_views(v@) == Seq::<EventView>::empty(),
{
    assert(event_views(v@) =~= Seq::<EventView>::empty());
}

fn one_event(e: LlmEvent) -> (r: Vec<LlmEvent>)
    ensures
        event_views(r@) == seq![e@],
{
    let mut r: Vec<LlmEvent> = Vec::new();
    r.push(e);
    assert(event_views(r@) =~= seq![e@]);
    r
}

fn no_event() -> (r: Vec<LlmEvent>)
    ensures
        event_views(r@) == Seq::<EventView>::empty(),
{
    let r: Vec<LlmEvent> = Vec::new();
    proof {
        lemma_no_events(r);
    }
    r
}

fn text_or_empty(v: Option<&JsonValue>) -> (r: String)
    ensures
        r@ == setting(text_at(ref_view(v)), ""@),
{
    match text_value(v) {
        Some(s) => copy_text(s),
        None => copy_text(""),
    }
}

fn count_or_zero(v: Option<&JsonValue>) -> (r: u64)
    ensures
        r == setting(u64_at(ref_view(v)), 0),
{
    match u64_value(v) {
        Some(n) => n,
        None => 0,
    }
}

fn start_message(json: &JsonValue, state: &mut StreamState) -> (r: Vec<LlmEvent>)
    ensures
        final(state)@ == on_message_start(old(state)@, json@).state,
        event_views(r@) == on_message_start(old(state)@, json@).events,
{
    let usage = member(member(Some(json), "message"), "usage");
    if usage.is_some() {
        state.input_tokens = count_or_zero(member(usage, "input_tokens"));
        state.cache_creation_tokens = count_or_zero(member(usage, "cache_creation_input_tokens"));
        state.cache_read_tokens = count_or_zero(member(usage, "cache_read_input_tokens"));
    }
    no_event()
}

fn start_block(json: &JsonValue, state: &mut StreamState) -> (r: Vec<LlmEvent>)
    ensures
        final(state)@ == on_block_start(old(state)@, json@).state,
        event_views(r@) == on_block_start(old(state)@, json@).events,
{
    let block = member(Some(json), "content_block");
    let block_type = text_or_empty(member(block, "type"));
    let is_tool = str_eq(block_type.as_str(), "tool_use");
    state.current_block_type = Some(block_type);
    if is_tool {
        state.tool_id = text_or_empty(member(block, "id"));
        state.tool_name = text_or_empty(member(block, "name"));
        state.tool_input_json = String::new();
    }
    no_event()
}

fn extend_block(json: &JsonValue, state: &mut StreamState) -> (r: Vec<LlmEvent>)
    ensures
        final(state)@ == on_block_delta(old(state)@, json@).state,
        event_views(r@) == on_block_delta(old(state)@, json@).events,
{
    let delta = member(Some(json), "delta");
    let delta_type = text_or_empty(member(delta, "type"));
    if str_eq(delta_type.as_str(), "text_delta") {
        if let Some(text) = text_value(member(delta, "text")) {
            return one_event(LlmEvent::TextDelta(copy_text(text)));
        }
    } else if str_eq(delta_type.as_str(), "input_json_delta") {
        if let Some(partial) = text_value(member(delta, "partial_json")) {
            state.tool_input_json.append(partial);
        }
    } else if str_eq(delta_type.as_str(), "thinking_delta") {
        if let Some(text) = text_value(member(delta, "thinking")) {
            return one_event(LlmEvent::ThinkingDelta(copy_text(text)));
        }
    } else if str_eq(delta_type.as_str(), "signature_delta") {
        if let Some(text) = text_value(member(delta, "signature")) {
            return one_event(LlmEvent::ThinkingSignature(copy_text(text)));
        }
    }
    no_event()
}

fn stop_block(input: Option<JsonValue>, state: &mut StreamState) -> (r: Vec<LlmEvent>)
    ensures
        final(state)@ == on_block_stop(old(state)@, opt_json(input)).state,
        event_views(r@) == on_block_stop(old(state)@, opt_json(input)).events,
{
    let is_tool = match &state.current_block_type {
        Some(t) => str_eq(t.as_str(), "tool_use"),
        None => false,
    };
    state.current_block_type = None;
    if is_tool {
        let input = match input {
            Some(v) => v,
            None => JsonValue::empty_object(),
        };
        state.tool_input_json = String::new();
        one_event(
            LlmEvent::ToolUse {
                id: state.tool_id.clone(),
                name: state.tool_name.clone(),
                input,
                extra: None,
            },
        )
    } else {
        no_event()
    }
}

fn read_stop_reason(name: Option<&str>) -> (r: StopReason)
    ensures
        r == stop_reason_of(
            match name {
                Some(s) => Some(s@),
                None => None,
            },
        ),
{
    match name {
        Some(name) => if str_eq(name, "end_turn") {
            StopReason::EndTurn
        } else if str_eq(name, "tool_use") {
            StopReason::ToolUse
        } else if str_eq(name, "max_tokens") {
            StopReason::MaxTokens
        } else {
            StopReason::EndTurn
        },
        None => StopReason::EndTurn,
    }
}

fn end_message(json: &JsonValue, state: &mut StreamState) -> (r: Vec<LlmEvent>)
    ensures
        final(state)@ == on_message_delta(old(state)@, json@).state,
        event_views(r@) == on_message_delta(old(state)@, json@).events,
{
    let delta = member(Some(json), "delta");
    let stop_reason = read_stop_reason(text_value(member(delta, "stop_reason")));
    let usage = member(Some(json), "usage");
    if usage.is_some() {
        state.output_tokens = count_or_zero(member(usage, "output_tokens"));
    }
    one_event(
        LlmEvent::Done {
            stop_reason,
            usage: TokenUsage {
                input_tokens: state.input_tokens,
                output_tokens: state.output_tokens,
                cache_creation_tokens: state.cache_creation_tokens,
                cache_read_tokens: state.cache_read_tokens,
            },
        },
    )
}

fn report_error(json: &JsonValue, Ghost(st): Ghost<StreamStateView>) -> (r: Vec<LlmEvent>)
    ensures
        event_views(r@) == on_error(st, json@).events,
{
    let error = member(Some(json), "error");
    let message = match text_value(member(error, "message")) {
        Some(s) => copy_text(s),
        None => copy_text("Unknown API error"),
    };
    one_event(LlmEvent::Error(message))
}

/// Fold one event of the stream into the state, with `input` the accumulated
/// tool input read as JSON.
pub fn apply_sse_event(
    event_type: &str,
    json: &JsonValue,
    input: Option<JsonValue>,
    state: &mut StreamState,
) -> (r: Vec<LlmEvent>)
    ensures
        final(state)@ == on_event(old(state)@, event_type@, json@, opt_json(input)).state,
        event_views(r@) == on_event(old(state)@, event_type@, json@, opt_json(input)).events,
{
    if str_eq(event_type, "message_start") {
        start_message(json, state)
    } else if str_eq(event_type, "content_block_start") {
        start_block(json, state)
    } else if str_eq(event_type, "content_block_delta") {
        extend_block(json, state)
    } else if str_eq(event_type, "content_block_stop") {
        stop_block(input, state)
    } else if str_eq(event_type, "message_delta") {
        end_message(json, state)
    } else if str_eq(event_type, "error") {
        report_error(json, Ghost(state@))
    } else {
        no_event()
    }
}

/// Parse a single SSE data payload into zero or more LlmEvents
pub fn parse_sse_data(event_type: &str, data: &str, state: &mut StreamState) -> (r: Vec<LlmEvent>)
    ensures
        final(state)@ == on_data(old(state)@, event_type@, data@).state,
        event_views(r@) == on_data(old(state)@, event_type@, data@).events,
{
    match JsonValue::parse(data) {
        Some(json) => {
            let input = if str_eq(event_type, "content_block_stop") {
                JsonValue::parse(state.tool_input_json.as_str())
            } else {
                None
            };
            apply_sse_event(event_type, &json, input, state)
        },
        None => no_event(),
    }
}

// ---------------------------------------------------------------------------
// Laws
// ---------------------------------------------------------------------------

/// The piece of a tool input that a delta carries.
pub open spec fn input_piece(json: JsonView) -> Option<Seq<char>> {
    let delta = at(Some(json), "delta"@);
    if text_at(at(delta, "type"@)) == Some("input_json_delta"@) {
        text_at(at(delta, "partial_json"@))
    } else {
        None
    }
}

/// Pieces of a tool input, put together.
pub open spec fn input_pieces(jsons: Seq<JsonView>) -> Seq<char>
    decreases jsons.len(),
{
    if jsons.len() == 0 {
        Seq::empty()
    } else {
        input_pieces(jsons.drop_last()) + setting(input_piece(jsons.last()), Seq::empty())
    }
}

/// The state and the events after some deltas.
pub open spec fn after_deltas(st: StreamStateView, jsons: Seq<JsonView>) -> StreamStep
    decreases jsons.len(),
{
    if jsons.len() == 0 {
        StreamStep { state: st, events: Seq::empty() }
    } else {
        let before = after_deltas(st, jsons.drop_last());
        let step = on_block_delta(before.state, jsons.last());
        StreamStep { state: step.state, events: before.events + step.events }
    }
}

/// However a tool input is cut into deltas, they show nothing, and the end of
/// the block hands out one call, under the id and the name that its start gave,
/// with the input that the pieces make together.
pub proof fn tool_inputs_add_up(
    st: StreamStateView,
    start: JsonView,
    jsons: Seq<JsonView>,
    input: Option<JsonView>,
)
    requires
        text_at(at(at(Some(start), "content_block"@), "type"@)) == Some("tool_use"@),
        forall|i: int| 0 <= i < jsons.len() ==> input_piece(#[trigger] jsons[i]) is Some,
        ({
            let opened = on_block_start(st, start).state;
            input == json_parse(after_deltas(opened, jsons).state.tool_input_json)
        }),
    ensures
        ({
            let opened = on_block_start(st, start).state;
            let fed = after_deltas(opened, jsons);
            let closed = on_block_stop(fed.state, input);
            let block = at(Some(start), "content_block"@);
            &&& fed.events == Seq::<EventView>::empty()
            &&& fed.state.tool_input_json == input_pieces(jsons)
            &&& closed.events == seq![
                EventView::ToolUse {
                    id: setting(text_at(at(block, "id"@)), ""@),
                    name: setting(text_at(at(block, "name"@)), ""@),
                    input: setting(
                        json_parse(input_pieces(jsons)),
                        JsonView::Object(Map::empty()),
                    ),
                    extra: None,
                },
            ]
        }),
{
    let opened = on_block_start(st, start).state;
    lemma_deltas(opened, jsons);
    assert(opened.tool_input_json + input_pieces(jsons) =~= input_pieces(jsons));
}

proof fn lemma_deltas(st: StreamStateView, jsons: Seq<JsonView>)
    requires
        forall|i: int| 0 <= i < jsons.len() ==> input_piece(#[trigger] jsons[i]) is Some,
    ensures
        after_deltas(st, jsons).events == Seq::<EventView>::empty(),
        after_deltas(st, jsons).state == (StreamStateView {
            tool_input_json: st.tool_input_json + input_pieces(jsons),
            ..st
        }),
    decreases jsons.len(),
{
    if jsons.len() == 0 {
        assert(st.tool_input_json + input_pieces(jsons) =~= st.tool_input_json);
    } else {
        let front = jsons.drop_last();
        assert forall|i: int| 0 <= i < front.len() implies input_piece(
            #[trigger] front[i],
        ) is Some by {
            assert(front[i] == jsons[i]);
        }
        lemma_deltas(st, front);
        let before = after_deltas(st, front);
        assert(input_piece(jsons[jsons.len() - 1]) is Some);
        reveal_strlit("text_delta");
        reveal_strlit("input_json_delta");
        assert("text_delta"@.len() != "input_json_delta"@.len());
        let piece = input_piece(jsons.last()).unwrap();
        assert(on_block_delta(before.state, jsons.last()).state.tool_input_json
            == before.state.tool_input_json + piece);
        assert((st.tool_input_json + input_pieces(front)) + piece =~= st.tool_input_json
            + input_pieces(jsons));
        assert(after_deltas(st, jsons).events =~= Seq::empty());
    }
}

} // verus!
