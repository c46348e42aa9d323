//! Replies in the OpenAI chat streaming format.

use vstd::prelude::*;

use crate::compat::setting;
use crate::json::{
    at, json_parse, member, ref_view, text_at, text_value, u64_at, u64_value, JsonValue, JsonView,
};
use crate::llm::{event_views, EventView, LlmEvent};
use crate::message::{opt_json, StopReason, TokenUsage};
use crate::text::{copy_text, is_empty, str_eq, views};
use crate::tool_ids::{are_taken, IdGenerator, IdStyle};

verus! {

broadcast use vstd::string::group_string_axioms;

/// State for accumulating tool call deltas by index
#[derive(Debug)]
pub struct ToolCallAccumulator {
    pub id: String,
    pub name: String,
    pub arguments: String,
    pub extra: Option<JsonValue>,
}

/// What a reply has brought so far.
#[derive(Debug)]
pub struct StreamState {
    pub tool_calls: Vec<ToolCallAccumulator>,
    pub input_tokens: u64,
    pub output_tokens: u64,
    /// Why the reply ended, once known: emitted on [DONE] so the final usage-only
    /// chunk has a chance to update token counts.
    pub pending_done: Option<StopReason>,
}

#[verifier::ext_equal]
pub struct AccumulatorView {
    pub id: Seq<char>,
    pub name: Seq<char>,
    pub arguments: Seq<char>,
    pub extra: Option<JsonView>,
}

#[verifier::ext_equal]
pub struct StreamStateView {
    pub tool_calls: Seq<AccumulatorView>,
    pub input_tokens: u64,
    pub output_tokens: u64,
    pub pending_done: Option<StopReason>,
}

impl ToolCallAccumulator {
    pub open spec fn view(&self) -> AccumulatorView {
        AccumulatorView {
            id: self.id@,
            name: self.name@,
            arguments: self.arguments@,
            extra: opt_json(self.extra),
        }
    }
}

pub open spec fn accumulator_views(calls: Seq<ToolCallAccumulator>) -> Seq<AccumulatorView> {
    Seq::new(calls.len(), |i: int| calls[i]@)
}

impl StreamState {
    pub open spec fn view(&self) -> StreamStateView {
        StreamStateView {
            tool_calls: accumulator_views(self.tool_calls@),
            input_tokens: self.input_tokens,
            output_tokens: self.output_tokens,
            pending_done: self.pending_done,
        }
    }
}

// ---------------------------------------------------------------------------
// Model
// ---------------------------------------------------------------------------

pub open spec fn fresh_state() -> StreamStateView {
    StreamStateView {
        tool_calls: Seq::empty(),
        input_tokens: 0,
        output_tokens: 0,
        pending_done: None,
    }
}

pub open spec fn empty_accumulator() -> AccumulatorView {
    AccumulatorView {
        id: Seq::empty(),
        name: Seq::empty(),
        arguments: Seq::empty(),
        extra: None,
    }
}

/// The prompt tokens that a chunk reports, the cached ones counted in.
pub open spec fn prompt_tokens(st: StreamStateView, usage: Option<JsonView>) -> int {
    setting(u64_at(at(usage, "prompt_tokens"@)), st.input_tokens) + setting(
        u64_at(at(usage, "prompt_cache_hit_tokens"@)),
        0,
    )
}

/// The prompt tokens that a chunk reports can be counted.
pub open spec fn usage_fits(st: StreamStateView, json: JsonView) -> bool {
    at(Some(json), "usage"@) is Some ==> prompt_tokens(st, at(Some(json), "usage"@)) <= u64::MAX
}

/// The counts of a chunk that reports some.
pub open spec fn with_usage(st: StreamStateView, json: JsonView) -> StreamStateView {
    let usage = at(Some(json), "usage"@);
    if usage is Some {
        StreamStateView {
            input_tokens: prompt_tokens(st, usage) as u64,
            output_tokens: setting(u64_at(at(usage, "completion_tokens"@)), st.output_tokens),
            ..st
        }
    } else {
        st
    }
}

/// The calls, made so many that there is one at an index.
pub open spec fn grown(calls: Seq<AccumulatorView>, index: nat) -> Seq<AccumulatorView> {
    if index < calls.len() {
        calls
    } else {
        calls + Seq::new((index + 1 - calls.len()) as nat, |i: int| empty_accumulator())
    }
}

/// A call with what one fragment adds to it. An empty name does not replace one.
pub open spec fn with_fragment(acc: AccumulatorView, tc: JsonView) -> AccumulatorView {
    let function = at(Some(tc), "function"@);
    let name = text_at(at(function, "name"@));
    AccumulatorView {
        id: setting(text_at(at(Some(tc), "id"@)), acc.id),
        name: match name {
            Some(n) => if n.len() > 0 {
                n
            } else {
                acc.name
            },
            None => acc.name,
        },
        arguments: match text_at(at(function, "arguments"@)) {
            Some(args) => acc.arguments + args,
            None => acc.arguments,
        },
        extra: match at(Some(tc), "extra_content"@) {
            Some(extra) => if extra is Null {
                acc.extra
            } else {
                Some(extra)
            },
            None => acc.extra,
        },
    }
}

/// The index that a fragment names.
pub open spec fn fragment_index(tc: JsonView) -> usize {
    setting(u64_at(at(Some(tc), "index"@)), 0) as usize
}

pub open spec fn with_fragments(calls: Seq<AccumulatorView>, tcs: Seq<JsonView>) -> Seq<
    AccumulatorView,
>
    decreases tcs.len(),
{
    if tcs.len() == 0 {
        calls
    } else {
        let before = with_fragments(calls, tcs.drop_last());
        let index = fragment_index(tcs.last()) as nat;
        let long = grown(before, index);
        long.update(index as int, with_fragment(long[index as int], tcs.last()))
    }
}

/// The first choice of a chunk.
pub open spec fn first_choice(json: JsonView) -> Option<JsonView> {
    match at(Some(json), "choices"@) {
        Some(choices) => match choices.as_array() {
            Some(list) => if list.len() > 0 {
                Some(list[0])
            } else {
                None
            },
            None => None,
        },
        None => None,
    }
}

/// A text, where it is there and not empty.
pub open spec fn shown_text(v: Option<JsonView>) -> Option<Seq<char>> {
    match text_at(v) {
        Some(s) => if s.len() > 0 {
            Some(s)
        } else {
            None
        },
        None => None,
    }
}

/// The thought and the text of a chunk.
pub open spec fn delta_events(delta: Option<JsonView>) -> Seq<EventView> {
    let thought = match shown_text(at(delta, "reasoning_content"@)) {
        Some(s) => seq![EventView::ThinkingDelta(s)],
        None => Seq::empty(),
    };
    match shown_text(at(delta, "content"@)) {
        Some(s) => thought.push(EventView::TextDelta(s)),
        None => thought,
    }
}

/// The tool calls after a chunk.
pub open spec fn delta_calls(calls: Seq<AccumulatorView>, delta: Option<JsonView>) -> Seq<
    AccumulatorView,
> {
    match at(delta, "tool_calls"@) {
        Some(v) => match v.as_array() {
            Some(tcs) => with_fragments(calls, tcs),
            None => calls,
        },
        None => calls,
    }
}

/// The event for a finished call, with an empty object for arguments that are
/// not JSON.
pub open spec fn call_event(
    acc: AccumulatorView,
    auto_tool_id: bool,
    fresh: Seq<char>,
    input: Option<JsonView>,
) -> EventView {
    EventView::ToolUse {
        id: if acc.id.len() == 0 && auto_tool_id {
            fresh
        } else {
            acc.id
        },
        name: acc.name,
        input: setting(input, JsonView::Object(Map::empty())),
        extra: acc.extra,
    }
}

pub open spec fn call_events(
    calls: Seq<AccumulatorView>,
    auto_tool_id: bool,
    ids: Seq<Seq<char>>,
    inputs: Seq<Option<JsonView>>,
) -> Seq<EventView> {
    Seq::new(calls.len(), |i: int| call_event(calls[i], auto_tool_id, ids[i], inputs[i]))
}

/// A state, and the events on the way to it.
#[verifier::ext_equal]
pub struct ChunkStep {
    pub state: StreamStateView,
    pub events: Seq<EventView>,
}

/// The end of a reply: the calls are handed out, and the reason is kept.
pub open spec fn finished(
    st: StreamStateView,
    reason: Seq<char>,
    auto_tool_id: bool,
    ids: Seq<Seq<char>>,
    inputs: Seq<Option<JsonView>>,
) -> ChunkStep {
    if reason == "tool_calls"@ || reason == "stop"@ {
        if st.tool_calls.len() > 0 {
            ChunkStep {
                state: StreamStateView {
                    tool_calls: Seq::empty(),
                    pending_done: Some(StopReason::ToolUse),
                    ..st
                },
                events: call_events(st.tool_calls, auto_tool_id, ids, inputs),
            }
        } else {
            ChunkStep {
                state: StreamStateView {
                    pending_done: Some(
                        if reason == "stop"@ {
                            StopReason::EndTurn
                        } else {
                            StopReason::ToolUse
                        },
                    ),
                    ..st
                },
                events: Seq::empty(),
            }
        }
    } else if reason == "length"@ {
        ChunkStep {
            state: StreamStateView { pending_done: Some(StopReason::MaxTokens), ..st },
            events: Seq::empty(),
        }
    } else {
        ChunkStep { state: st, events: Seq::empty() }
    }
}

/// The state after the usage and the fragments of a chunk, and what it shows.
pub open spec fn with_delta(st: StreamStateView, json: JsonView) -> ChunkStep {
    let counted = with_usage(st, json);
    match first_choice(json) {
        None => ChunkStep { state: counted, events: Seq::empty() },
        Some(choice) => {
            let delta = at(Some(choice), "delta"@);
            ChunkStep {
                state: StreamStateView {
                    tool_calls: delta_calls(counted.tool_calls, delta),
                    ..counted
                },
                events: delta_events(delta),
            }
        },
    }
}

/// Why a chunk ends the reply, where it does.
pub open spec fn finish_reason(json: JsonView) -> Option<Seq<char>> {
    match first_choice(json) {
        Some(choice) => text_at(at(Some(choice), "finish_reason"@)),
        None => None,
    }
}

/// One chunk, with `ids` for the calls without one and `inputs` the arguments of
/// the calls read as JSON.
pub open spec fn on_chunk(
    st: StreamStateView,
    json: JsonView,
    auto_tool_id: bool,
    ids: Seq<Seq<char>>,
    inputs: Seq<Option<JsonView>>,
) -> ChunkStep {
    let shown = with_delta(st, json);
    match finish_reason(json) {
        None => shown,
        Some(reason) => {
            let end = finished(shown.state, reason, auto_tool_id, ids, inputs);
            ChunkStep { state: end.state, events: shown.events + end.events }
        },
    }
}

/// The arguments of some calls, read as JSON.
pub open spec fn parsed_arguments(calls: Seq<AccumulatorView>) -> Seq<Option<JsonView>> {
    Seq::new(calls.len(), |i: int| json_parse(calls[i].arguments))
}

pub open spec fn opt_json_views(v: Seq<Option<JsonValue>>) -> Seq<Option<JsonView>> {
    Seq::new(v.len(), |i: int| opt_json(v[i]))
}

/// The last event of a reply, with the counts as they are by then.
pub open spec fn done_event(st: StreamStateView) -> Option<EventView> {
    match st.pending_done {
        Some(stop_reason) => Some(
            EventView::Done {
                stop_reason,
                usage: TokenUsage {
                    input_tokens: st.input_tokens,
                    output_tokens: st.output_tokens,
                    cache_creation_tokens: 0,
                    cache_read_tokens: 0,
                },
            },
        ),
        None => None,
    }
}

// ---------------------------------------------------------------------------
// Executable
// ---------------------------------------------------------------------------

impl StreamState {
    pub fn new() -> (r: Self)
        ensures
            r@ == fresh_state(),
    {
        let r = Self {
            tool_calls: Vec::new(),
            input_tokens: 0,
            output_tokens: 0,
            pending_done: None,
        };
        assert(r@.tool_calls =~= Seq::empty());
        r
    }

    /// Emit the deferred Done event with up-to-date token counts.
    ///
    /// OpenAI sends usage in a separate trailing chunk (choices:[]) *after* the
    /// chunk that carries `finish_reason`. We defer the Done event until [DONE]
    /// so that token counts are always accurate.
    pub fn flush_done(&mut self) -> (r: Option<LlmEvent>)
        ensures
            final(self)@ == (StreamStateView { pending_done: None, ..old(self)@ }),
            match r {
                Some(e) => done_event(old(self)@) == Some(e@),
                None => done_event(old(self)@) is None,
            },
    {
        match self.pending_done {
            Some(stop_reason) => {
                self.pending_done = None;
                Some(
                    LlmEvent::Done {
                        stop_reason,
                        usage: TokenUsage {
                            input_tokens: self.input_tokens,
                            output_tokens: self.output_tokens,
                            cache_creation_tokens: 0,
                            cache_read_tokens: 0,
                        },
                    },
                )
            },
            None => None,
        }
    }

    /// Makes so many accumulators that there is one at an index.
    fn get_or_create_tool(&mut self, index: usize)
        ensures
            final(self)@ == (StreamStateView {
                tool_calls: grown(old(self)@.tool_calls, index as nat),
                ..old(self)@
            }),
    {
        let ghost start = self@;
        let ghost given = self.tool_calls@.len();
        assert(accumulator_views(self.tool_calls@) =~= start.tool_calls + Seq::new(
            0,
            |i: int| empty_accumulator(),
        ));
        while self.tool_calls.len() <= index
            invariant
                given <= self.tool_calls@.len(),
                self.tool_calls@.len() > given ==> self.tool_calls@.len() <= index + 1,
                start.tool_calls.len() == given,
                self@ == (StreamStateView {
                    tool_calls: start.tool_calls + Seq::new(
                        (self.tool_calls@.len() - given) as nat,
                        |i: int| empty_accumulator(),
                    ),
                    ..start
                }),
            decreases index + 1 - self.tool_calls@.len(),
        {
            let fresh = ToolCallAccumulator {
                id: String::new(),
                name: String::new(),
                arguments: String::new(),
                extra: None,
            };
            assert(fresh@ == empty_accumulator());
            let ghost before = self@.tool_calls;
            self.tool_calls.push(fresh);
            assert(self@.tool_calls =~= before.push(fresh@));
            assert(self@.tool_calls =~= start.tool_calls + Seq::new(
                (self.tool_calls@.len() - given) as nat,
                |i: int| empty_accumulator(),
            ));
        }
        assert(self@.tool_calls =~= grown(start.tool_calls, index as nat));
    }
}

fn add_fragment(acc: &mut ToolCallAccumulator, tc: &JsonValue)
    ensures
        final(acc)@ == with_fragment(old(acc)@, tc@),
{
    if let Some(id) = text_value(member(Some(tc), "id")) {
        acc.id = copy_text(id);
    }
    let function = member(Some(tc), "function");
    // Only overwrite when non-empty — some third-party APIs send `"name":""`
    // in every delta chunk which would erase the real name from the first chunk.
    if let Some(name) = text_value(member(function, "name")) {
        if !is_empty(name) {
            acc.name = copy_text(name);
        }
    }
    if let Some(args) = text_value(member(function, "arguments")) {
        acc.arguments.append(args);
    }
    if let Some(extra) = member(Some(tc), "extra_content") {
        if !extra.is_null() {
            acc.extra = Some(extra.clone());
        }
    }
}

fn add_fragments(state: &mut StreamState, tcs: &Vec<JsonValue>)
    ensures
        final(state)@ == (StreamStateView {
            tool_calls: with_fragments(
                old(state)@.tool_calls,
                JsonValue::Array(*tcs)@->Array_0,
            ),
            ..old(state)@
        }),
{
    let ghost start = state@;
    let ghost all = JsonValue::Array(*tcs)@->Array_0;
    for i in 0..tcs.len()
        invariant
            all == JsonValue::Array(*tcs)@->Array_0,
            all.len() == tcs@.len(),
            state@ == (StreamStateView {
                tool_calls: with_fragments(start.tool_calls, all.take(i as int)),
                ..start
            }),
    {
        assert(all.take(i + 1).drop_last() =~= all.take(i as int));
        assert(all.take(i + 1).last() == tcs@[i as int]@);
        let index: usize = match u64_value(member(Some(&tcs[i]), "index")) {
            Some(n) => n as usize,
            None => 0,
        };
        assert(index == fragment_index(tcs@[i as int]@));
        state.get_or_create_tool(index);
        let ghost long = state@.tool_calls;
        let mut acc = ToolCallAccumulator {
            id: String::new(),
            name: String::new(),
            arguments: String::new(),
            extra: None,
        };
        assert(long.len() == state.tool_calls@.len());
        std::mem::swap(&mut acc, &mut state.tool_calls[index]);
        assert(acc@ == long[index as int]);
        add_fragment(&mut acc, &tcs[i]);
        std::mem::swap(&mut acc, &mut state.tool_calls[index]);
        assert(state@.tool_calls =~= long.update(
            index as int,
            with_fragment(long[index as int], tcs@[i as int]@),
        ));
    }
    assert(all.take(all.len() as int) =~= all);
}

/// The first choice of a chunk.
fn choice_of<'a>(json: &'a JsonValue) -> (r: Option<&'a JsonValue>)
    ensures
        ref_view(r) == first_choice(json@),
{
    match member(Some(json), "choices") {
        Some(choices) => match choices.as_array() {
            Some(list) => if list.len() > 0 {
                assert(choices@->Array_0[0] == list@[0]@);
                Some(&list[0])
            } else {
                None
            },
            None => None,
        },
        None => None,
    }
}

/// Fold the usage and the fragments of a chunk into the state.
pub fn apply_delta(json: &JsonValue, state: &mut StreamState) -> (r: Vec<LlmEvent>)
    requires
        usage_fits(old(state)@, json@),
    ensures
        final(state)@ == with_delta(old(state)@, json@).state,
        event_views(r@) == with_delta(old(state)@, json@).events,
{
    let ghost start = state@;
    let mut events: Vec<LlmEvent> = Vec::new();
    // Extract usage if present
    let usage = member(Some(json), "usage");
    if usage.is_some() {
        let base_prompt: u64 = match u64_value(member(usage, "prompt_tokens")) {
            Some(n) => n,
            None => state.input_tokens,
        };
        // DeepSeek-style: prompt_cache_hit_tokens is reported separately and
        // prompt_tokens only contains the cache-miss portion.
        // Add it to get the true total prompt size.
        let cache_hit: u64 = match u64_value(member(usage, "prompt_cache_hit_tokens")) {
            Some(n) => n,
            None => 0,
        };
        assert(base_prompt + cache_hit == prompt_tokens(start, at(Some(json@), "usage"@)));
        state.input_tokens = base_prompt + cache_hit;
        if let Some(n) = u64_value(member(usage, "completion_tokens")) {
            state.output_tokens = n;
        }
    }
    assert(state@ == with_usage(start, json@));
    assert(event_views(events@) =~= Seq::empty());
    let choice = choice_of(json);
    if choice.is_none() {
        return events;
    }
    let delta = member(choice, "delta");
    // Reasoning content (OpenAI reasoning models)
    if let Some(reasoning) = text_value(member(delta, "reasoning_content")) {
        if !is_empty(reasoning) {
            events.push(LlmEvent::ThinkingDelta(copy_text(reasoning)));
        }
    }
    // Text content
    if let Some(content) = text_value(member(delta, "content")) {
        if !is_empty(content) {
            events.push(LlmEvent::TextDelta(copy_text(content)));
        }
    }
    assert(event_views(events@) =~= delta_events(ref_view(delta)));
    // Tool calls
    if let Some(v) = member(delta, "tool_calls") {
        if let Some(tcs) = v.as_array() {
            add_fragments(state, tcs);
        }
    }
    events
}

/// End a reply: hand out the calls, with `ids` for those without one and
/// `inputs` their arguments read as JSON, and keep the reason.
pub fn apply_finish(
    reason: &str,
    auto_tool_id: bool,
    ids: &Vec<String>,
    inputs: &Vec<Option<JsonValue>>,
    state: &mut StreamState,
) -> (r: Vec<LlmEvent>)
    requires
        old(state)@.tool_calls.len() <= ids@.len(),
        old(state)@.tool_calls.len() <= inputs@.len(),
    ensures
        final(state)@ == finished(
            old(state)@,
            reason@,
            auto_tool_id,
            views(ids@),
            opt_json_views(inputs@),
        ).state,
        event_views(r@) == finished(
            old(state)@,
            reason@,
            auto_tool_id,
            views(ids@),
            opt_json_views(inputs@),
        ).events,
{
    let ghost start = state@;
    let mut events: Vec<LlmEvent> = Vec::new();
    assert(event_views(events@) =~= Seq::empty());
    if str_eq(reason, "tool_calls") || str_eq(reason, "stop") {
        let n: usize = state.tool_calls.len();
        if n > 0 {
            // Emit accumulated tool calls. Gemini uses "stop" instead of
            // "tool_calls" as finish_reason, so we handle both here.
            for i in 0..n
                invariant
                    n == state.tool_calls@.len(),
                    state@ == start,
                    n <= ids@.len(),
                    n <= inputs@.len(),
                    events@.len() == i,
                    forall|j: int|
                        0 <= j < i ==> (#[trigger] events@[j])@ == call_event(
                            start.tool_calls[j],
                            auto_tool_id,
                            views(ids@)[j],
                            opt_json_views(inputs@)[j],
                        ),
            {
                let tc = &state.tool_calls[i];
                assert(tc@ == start.tool_calls[i as int]);
                let id = if is_empty(tc.id.as_str()) && auto_tool_id {
                    ids[i].clone()
                } else {
                    tc.id.clone()
                };
                let input = match &inputs[i] {
                    Some(v) => v.clone(),
                    None => JsonValue::empty_object(),
                };
                let extra = match &tc.extra {
                    Some(v) => Some(v.clone()),
                    None => None,
                };
                events.push(LlmEvent::ToolUse { id, name: tc.name.clone(), input, extra });
            }
            assert(event_views(events@) =~= call_events(
                start.tool_calls,
                auto_tool_id,
                views(ids@),
                opt_json_views(inputs@),
            ));
            state.tool_calls = Vec::new();
            assert(state@.tool_calls =~= Seq::empty());
            state.pending_done = Some(StopReason::ToolUse);
        } else if str_eq(reason, "stop") {
            state.pending_done = Some(StopReason::EndTurn);
        } else {
            // "tool_calls" with empty accumulator — shouldn't happen,
            // but treat as ToolUse for safety.
            state.pending_done = Some(StopReason::ToolUse);
        }
    } else if str_eq(reason, "length") {
        state.pending_done = Some(StopReason::MaxTokens);
    }
    events
}

fn parse_arguments(calls: &Vec<ToolCallAccumulator>) -> (r: Vec<Option<JsonValue>>)
    ensures
        r@.len() == calls@.len(),
        opt_json_views(r@) == parsed_arguments(accumulator_views(calls@)),
{
    let mut r: Vec<Option<JsonValue>> = Vec::new();
    for i in 0..calls.len()
        invariant
            r@.len() == i,
            forall|j: int| 0 <= j < i ==> opt_json(r@[j]) == json_parse(calls@[j].arguments@),
    {
        r.push(JsonValue::parse(calls[i].arguments.as_str()));
    }
    assert(opt_json_views(r@) =~= parsed_arguments(accumulator_views(calls@)));
    r
}

/// What one payload of the stream does, with some generated ids.
pub open spec fn on_data(
    st: StreamStateView,
    data: Seq<char>,
    auto_tool_id: bool,
    ids: Seq<Seq<char>>,
) -> ChunkStep {
    match json_parse(data) {
        Some(json) => on_chunk(
            st,
            json,
            auto_tool_id,
            ids,
            parsed_arguments(with_delta(st, json).state.tool_calls),
        ),
        None => ChunkStep { state: st, events: Seq::empty() },
    }
}

/// How many ids a payload asks for: one for each call so far.
pub open spec fn ids_for_data(st: StreamStateView, data: Seq<char>) -> nat {
    match json_parse(data) {
        Some(json) => with_delta(st, json).state.tool_calls.len(),
        None => 0,
    }
}

/// A generator made an id for each call, going from one reading to another, and
/// this is what came of the payload.
pub open spec fn data_outcome_from(
    st: StreamStateView,
    data: Seq<char>,
    auto_tool_id: bool,
    before: u128,
    last: u128,
    after: StreamStateView,
    events: Seq<EventView>,
) -> bool {
    exists|ids: Seq<Seq<char>>|
        {
            &&& are_taken(IdStyle::Call, before, ids, ids_for_data(st, data), last)
            &&& after == (#[trigger] on_data(st, data, auto_tool_id, ids)).state
            &&& events == on_data(st, data, auto_tool_id, ids).events
        }
}

/// What came of the payload, with the ids of a new generator.
pub open spec fn data_outcome(
    st: StreamStateView,
    data: Seq<char>,
    auto_tool_id: bool,
    after: StreamStateView,
    events: Seq<EventView>,
) -> bool {
    exists|last: u128| data_outcome_from(st, data, auto_tool_id, 0, last, after, events)
}

/// Fold one chunk, read as JSON, into the state.
fn apply_chunk(
    json: &JsonValue,
    state: &mut StreamState,
    auto_tool_id: bool,
    generator: &mut IdGenerator,
) -> (r: (Vec<LlmEvent>, Ghost<Seq<Seq<char>>>))
    requires
        usage_fits(old(state)@, json@),
    ensures
        ({
            let ids = r.1@;
            let calls = with_delta(old(state)@, json@).state.tool_calls;
            let step = on_chunk(old(state)@, json@, auto_tool_id, ids, parsed_arguments(calls));
            &&& are_taken(
                IdStyle::Call,
                old(generator).last,
                ids,
                calls.len(),
                final(generator).last,
            )
            &&& final(state)@ == step.state
            &&& event_views(r.0@) == step.events
        }),
{
    let mut events = apply_delta(json, state);
    let reason = text_value(member(choice_of(json), "finish_reason"));
    let n: usize = state.tool_calls.len();
    let ids = generator.next_ids(IdStyle::Call, n);
    assert(views(ids@).len() == ids@.len());
    if let Some(reason) = reason {
        let inputs = parse_arguments(&state.tool_calls);
        let mut more = apply_finish(reason, auto_tool_id, &ids, &inputs, state);
        let ghost a = event_views(events@);
        let ghost b = event_views(more@);
        events.append(&mut more);
        assert(event_views(events@) =~= a + b);
    }
    (events, Ghost(views(ids@)))
}

/// Parse one SSE payload into zero or more events, with ids of a generator for the
/// calls that lack one.
pub fn parse_sse_chunk_from(
    data: &str,
    state: &mut StreamState,
    auto_tool_id: bool,
    generator: &mut IdGenerator,
) -> (r: Vec<LlmEvent>)
    requires
        json_parse(data@) matches Some(json) ==> usage_fits(old(state)@, json),
    ensures
        data_outcome_from(
            old(state)@,
            data@,
            auto_tool_id,
            old(generator).last,
            final(generator).last,
            final(state)@,
            event_views(r@),
        ),
{
    let ghost start = state@;
    match JsonValue::parse(data) {
        Some(json) => {
            let (events, Ghost(ids)) = apply_chunk(&json, state, auto_tool_id, generator);
            assert(on_data(start, data@, auto_tool_id, ids).events == event_views(events@));
            events
        },
        None => {
            let events: Vec<LlmEvent> = Vec::new();
            let ids = generator.next_ids(IdStyle::Call, 0);
            assert(event_views(events@) =~= on_data(
                start,
                data@,
                auto_tool_id,
                views(ids@),
            ).events);
            events
        },
    }
}

/// Parse one SSE payload into zero or more events.
pub fn parse_sse_chunk(data: &str, state: &mut StreamState, auto_tool_id: bool) -> (r: Vec<LlmEvent>)
    requires
        json_parse(data@) matches Some(json) ==> usage_fits(old(state)@, json),
    ensures
        data_outcome(old(state)@, data@, auto_tool_id, final(state)@, event_views(r@)),
{
    let mut generator = IdGenerator::new();
    parse_sse_chunk_from(data, state, auto_tool_id, &mut generator)
}

/// Whether the prompt tokens that a chunk reports can be counted.
fn check_usage(json: &JsonValue, state: &StreamState) -> (r: bool)
    ensures
        r == usage_fits(state@, json@),
{
    let usage = member(Some(json), "usage");
    if usage.is_none() {
        return true;
    }
    let base_prompt: u64 = match u64_value(member(usage, "prompt_tokens")) {
        Some(n) => n,
        None => state.input_tokens,
    };
    let cache_hit: u64 = match u64_value(member(usage, "prompt_cache_hit_tokens")) {
        Some(n) => n,
        None => 0,
    };
    assert(base_prompt + cache_hit == prompt_tokens(state@, at(Some(json@), "usage"@)));
    base_prompt <= u64::MAX - cache_hit
}

fn data_fits(data: &str, state: &StreamState) -> (r: bool)
    ensures
        r == (json_parse(data@) matches Some(json) ==> usage_fits(state@, json)),
{
    match JsonValue::parse(data) {
        Some(json) => check_usage(&json, state),
        None => true,
    }
}

/// Parse one SSE payload where its token counts can be added up; `None`, and no
/// change, where they cannot.
pub fn checked_parse_sse_chunk(data: &str, state: &mut StreamState, auto_tool_id: bool) -> (r:
    Option<Vec<LlmEvent>>)
    ensures
        match r {
            Some(events) => {
                &&& json_parse(data@) matches Some(json) ==> usage_fits(old(state)@, json)
                &&& data_outcome(
                    old(state)@,
                    data@,
                    auto_tool_id,
                    final(state)@,
                    event_views(events@),
                )
            },
            None => {
                &&& json_parse(data@) matches Some(json)
                &&& !usage_fits(old(state)@, json)
                &&& *final(state) == *old(state)
            },
        },
{
    if data_fits(data, state) {
        Some(parse_sse_chunk(data, state, auto_tool_id))
    } else {
        None
    }
}

/// Parse one SSE payload with ids of a generator, where its token counts can be
/// added up; `None`, and no change, where they cannot.
pub fn checked_parse_sse_chunk_from(
    data: &str,
    state: &mut StreamState,
    auto_tool_id: bool,
    generator: &mut IdGenerator,
) -> (r: Option<Vec<LlmEvent>>)
    ensures
        match r {
            Some(events) => {
                &&& json_parse(data@) matches Some(json) ==> usage_fits(old(state)@, json)
                &&& data_outcome_from(
                    old(state)@,
                    data@,
                    auto_tool_id,
                    old(generator).last,
                    final(generator).last,
                    final(state)@,
                    event_views(events@),
                )
            },
            None => {
                &&& json_parse(data@) matches Some(json)
                &&& !usage_fits(old(state)@, json)
                &&& *final(state) == *old(state)
                &&& *final(generator) == *old(generator)
            },
        },
{
    if data_fits(data, state) {
        Some(parse_sse_chunk_from(data, state, auto_tool_id, generator))
    } else {
        None
    }
}

// ---------------------------------------------------------------------------
// Laws
// ---------------------------------------------------------------------------

/// It does not matter whether the fragments of tool calls come in one chunk or
/// in two.
pub proof fn fragments_may_come_in_any_number_of_chunks(
    calls: Seq<AccumulatorView>,
    first: Seq<JsonView>,
    second: Seq<JsonView>,
)
    ensures
        with_fragments(calls, first + second) == with_fragments(
            with_fragments(calls, first),
            second,
        ),
    decreases second.len(),
{
    if second.len() == 0 {
        assert(first + second =~= first);
    } else {
        assert((first + second).drop_last() =~= first + second.drop_last());
        fragments_may_come_in_any_number_of_chunks(calls, first, second.drop_last());
    }
}

/// A chunk without choices that reports usage after the reason came changes the
/// counts of the last event and not its reason.
pub proof fn late_usage_is_counted(
    st: StreamStateView,
    json: JsonView,
    auto_tool_id: bool,
    ids: Seq<Seq<char>>,
    inputs: Seq<Option<JsonView>>,
)
    requires
        st.pending_done is Some,
        first_choice(json) is None,
        at(Some(json), "usage"@) is Some,
        usage_fits(st, json),
    ensures
        ({
            let step = on_chunk(st, json, auto_tool_id, ids, inputs);
            &&& step.events == Seq::<EventView>::empty()
            &&& done_event(step.state) matches Some(EventView::Done { stop_reason, usage })
            &&& Some(stop_reason) == st.pending_done
            &&& usage.input_tokens == prompt_tokens(st, at(Some(json), "usage"@))
        }),
{
}

/// Tool calls are handed out only with the reason that ends the reply, each
/// once: afterwards none is left.
pub proof fn finished_calls_are_handed_out_once(
    st: StreamStateView,
    reason: Seq<char>,
    auto_tool_id: bool,
    ids: Seq<Seq<char>>,
    inputs: Seq<Option<JsonView>>,
)
    requires
        reason == "tool_calls"@ || reason == "stop"@,
    ensures
        finished(st, reason, auto_tool_id, ids, inputs).events.len() == st.tool_calls.len(),
        finished(st, reason, auto_tool_id, ids, inputs).state.tool_calls.len() == 0,
        st.tool_calls.len() > 0 ==> finished(
            st,
            reason,
            auto_tool_id,
            ids,
            inputs,
        ).state.pending_done == Some(StopReason::ToolUse),
{
}

} // verus!
