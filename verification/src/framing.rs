//! The lines of a reply in the OpenAI chat streaming format.

use vstd::prelude::*;

use crate::json::json_parse;
use crate::llm::{event_views, EventView, LlmEvent, ProviderError};
use crate::openai_stream::{
    checked_parse_sse_chunk_from, data_outcome_from, done_event, fresh_state, usage_fits,
    StreamState, StreamStateView,
};
use crate::sse::StreamOutcome;
use crate::text::{
    chars_of, decode_lossy, find, find_chars, lemma_find_from, lemma_find_from_skip,
    lemma_find_in_longer, lossy_text, starts_with, str_eq, strip_prefix, text_of, trim, trimmed,
};
use crate::tool_ids::IdGenerator;

verus! {

broadcast use vstd::string::group_string_axioms;

#[derive(Debug, Clone, Copy, PartialEq, Eq, Structural)]
pub enum FrameKind {
    Data,
    /// The marker that ends a stream.
    Done,
}

/// One payload of a stream.
#[derive(Debug)]
pub struct Frame {
    pub kind: FrameKind,
    pub data: String,
}

#[verifier::ext_equal]
pub struct FrameView {
    pub kind: FrameKind,
    pub data: Seq<char>,
}

impl Frame {
    pub open spec fn view(&self) -> FrameView {
        FrameView { kind: self.kind, data: self.data@ }
    }
}

pub open spec fn frame_views(frames: Seq<Frame>) -> Seq<FrameView> {
    Seq::new(frames.len(), |i: int| frames[i]@)
}

/// The payload that a line carries.
pub open spec fn line_frames(line: Seq<char>, done: Seq<char>) -> Seq<FrameView> {
    let content = trim(line);
    if starts_with(content, "data: "@) {
        let data = content.skip("data: "@.len() as int);
        seq![
            FrameView {
                kind: if data == done {
                    FrameKind::Done
                } else {
                    FrameKind::Data
                },
                data,
            },
        ]
    } else {
        Seq::empty()
    }
}

/// The payloads of the complete lines in a text.
pub open spec fn frames_in(text: Seq<char>, done: Seq<char>) -> Seq<FrameView>
    decreases text.len(),
{
    match find(text, seq!['\n']) {
        Some(k) => if k < text.len() {
            line_frames(text.take(k as int), done) + frames_in(text.skip((k + 1) as int), done)
        } else {
            Seq::empty()
        },
        None => Seq::empty(),
    }
}

/// What follows the last complete line of a text.
pub open spec fn last_part(text: Seq<char>) -> Seq<char>
    decreases text.len(),
{
    match find(text, seq!['\n']) {
        Some(k) => if k < text.len() {
            last_part(text.skip((k + 1) as int))
        } else {
            text
        },
        None => text,
    }
}

/// Cuts a stream into the payloads of its lines.
#[derive(Debug)]
pub struct SseLineFramer {
    pub buffer: String,
}

impl Default for SseLineFramer {
    fn default() -> (r: Self)
        ensures
            r.buffer@ == Seq::<char>::empty(),
    {
        SseLineFramer { buffer: String::new() }
    }
}

fn frame_of_line(line: &str, done: &str) -> (r: Option<Frame>)
    ensures
        match r {
            Some(f) => line_frames(line@, done@) == seq![f@],
            None => line_frames(line@, done@) == Seq::<FrameView>::empty(),
        },
{
    let content = trimmed(line);
    match strip_prefix(content.as_str(), "data: ") {
        Some(data) => {
            let kind = if str_eq(data.as_str(), done) {
                FrameKind::Done
            } else {
                FrameKind::Data
            };
            Some(Frame { kind, data })
        },
        None => None,
    }
}

impl SseLineFramer {
    /// Takes in more text and hands out the payloads that it completes; `done` is
    /// the payload that ends the stream.
    pub fn push_text(&mut self, text: &str, done: &str) -> (r: Vec<Frame>)
        ensures
            frame_views(r@) == frames_in(old(self).buffer@ + text@, done@),
            final(self).buffer@ == last_part(old(self).buffer@ + text@),
    {
        self.buffer.append(text);
        let chars = chars_of(self.buffer.as_str());
        let ghost whole = self.buffer@;
        let mut sep: Vec<char> = Vec::new();
        sep.push('\n');
        assert(sep@ =~= seq!['\n']);
        let mut out: Vec<Frame> = Vec::new();
        let mut base: usize = 0;
        assert(whole.skip(0) =~= whole);
        assert(frame_views(out@) + frames_in(whole, done@) =~= frames_in(whole, done@));
        loop
            invariant
                sep@ == seq!['\n'],
                chars@ == whole,
                whole == old(self).buffer@ + text@,
                base <= chars@.len(),
                frame_views(out@) + frames_in(whole.skip(base as int), done@) == frames_in(
                    whole,
                    done@,
                ),
                last_part(whole.skip(base as int)) == last_part(whole),
            decreases chars@.len() - base,
        {
            let ghost rest = whole.skip(base as int);
            let hit = find_chars(&chars, &sep, base);
            proof {
                lemma_find_from_skip(whole, sep@, base as nat, 0);
                lemma_find_from(rest, sep@, 0);
            }
            match hit {
                None => {
                    let tail = text_of(&chars, base, chars.len());
                    assert(tail@ =~= rest);
                    assert(frame_views(out@) + Seq::<FrameView>::empty() =~= frame_views(out@));
                    self.buffer = tail;
                    return out;
                },
                Some(k) => {
                    assert(k + 1 <= chars.len());
                    let line = text_of(&chars, base, k);
                    let ghost before = frame_views(out@);
                    match frame_of_line(line.as_str(), done) {
                        Some(f) => {
                            out.push(f);
                            assert(frame_views(out@) =~= before + seq![f@]);
                        },
                        None => {
                            assert(frame_views(out@) =~= before + Seq::empty());
                        },
                    }
                    proof {
                        assert(line@ =~= rest.take(k - base));
                        assert(rest.skip(k - base + 1) =~= whole.skip(k + 1));
                        let more = frames_in(whole.skip(k + 1), done@);
                        let these = line_frames(line@, done@);
                        assert((before + these) + more =~= before + (these + more));
                    }
                    base = k + 1;
                },
            }
        }
    }
}

impl SseLineFramer {
    /// Takes in the bytes of a chunk.
    pub fn push_bytes(&mut self, chunk: &[u8], done: &str) -> (r: Vec<Frame>)
        ensures
            frame_views(r@) == frames_in(old(self).buffer@ + lossy_text(chunk@), done@),
            final(self).buffer@ == last_part(old(self).buffer@ + lossy_text(chunk@)),
    {
        let text = decode_lossy(chunk);
        self.push_text(text.as_str(), done)
    }
}

// ---------------------------------------------------------------------------
// The reply
// ---------------------------------------------------------------------------

/// An event that shows something of the reply.
pub open spec fn shows_reply(e: EventView) -> bool {
    match e {
        EventView::TextDelta(_) => true,
        EventView::ThinkingDelta(_) => true,
        EventView::ToolUse { .. } => true,
        _ => false,
    }
}

pub open spec fn any_reply(events: Seq<EventView>) -> bool {
    exists|i: int| 0 <= i < events.len() && shows_reply(#[trigger] events[i])
}

/// A reply in the OpenAI chat streaming format, as it arrives.
#[derive(Debug)]
pub struct ChatStream {
    pub state: StreamState,
    pub auto_tool_id: bool,
    pub emitted_content: bool,
    /// Makes the ids of calls that come without one.
    pub generator: IdGenerator,
}

fn contains_reply(events: &Vec<LlmEvent>) -> (r: bool)
    ensures
        r == any_reply(event_views(events@)),
{
    for i in 0..events.len()
        invariant
            forall|j: int| 0 <= j < i ==> !shows_reply(#[trigger] event_views(events@)[j]),
    {
        let shows = match &events[i] {
            LlmEvent::TextDelta(_) => true,
            LlmEvent::ThinkingDelta(_) => true,
            LlmEvent::ToolUse { .. } => true,
            _ => false,
        };
        if shows {
            assert(shows_reply(event_views(events@)[i as int]));
            return true;
        }
    }
    false
}

/// The events of an optional last one.
pub open spec fn last_events(e: Option<EventView>) -> Seq<EventView> {
    match e {
        Some(e) => seq![e],
        None => Seq::empty(),
    }
}

impl ChatStream {
    pub fn new(auto_tool_id: bool) -> (r: Self)
        ensures
            r.state@ == fresh_state(),
            r.auto_tool_id == auto_tool_id,
            !r.emitted_content,
            r.generator.last == 0,
    {
        Self::with_generator(auto_tool_id, IdGenerator::new())
    }

    /// A reply of which nothing has arrived, with a generator that has made the ids
    /// of earlier replies.
    pub fn with_generator(auto_tool_id: bool, generator: IdGenerator) -> (r: Self)
        ensures
            r.state@ == fresh_state(),
            r.auto_tool_id == auto_tool_id,
            !r.emitted_content,
            r.generator == generator,
    {
        ChatStream { state: StreamState::new(), auto_tool_id, emitted_content: false, generator }
    }

    /// Hands out the deferred end of the reply, where there is one.
    pub fn finish(&mut self) -> (r: Vec<LlmEvent>)
        ensures
            event_views(r@) == last_events(done_event(old(self).state@)),
            final(self).state@ == (StreamStateView { pending_done: None, ..old(self).state@ }),
            final(self).auto_tool_id == old(self).auto_tool_id,
            final(self).emitted_content == old(self).emitted_content,
            final(self).generator == old(self).generator,
    {
        let mut r: Vec<LlmEvent> = Vec::new();
        match self.state.flush_done() {
            Some(e) => {
                r.push(e);
                assert(event_views(r@) =~= seq![e@]);
            },
            None => {
                assert(event_views(r@) =~= Seq::empty());
            },
        }
        r
    }

    /// Takes in one payload and hands out its events; `None`, and no change,
    /// where its token counts cannot be added up.
    pub fn push_frame(&mut self, frame: &Frame) -> (r: Option<Vec<LlmEvent>>)
        ensures
            final(self).auto_tool_id == old(self).auto_tool_id,
            frame.kind == FrameKind::Done ==> {
                &&& r matches Some(events)
                &&& event_views(events@) == last_events(done_event(old(self).state@))
                &&& final(self).state@ == (StreamStateView {
                    pending_done: None,
                    ..old(self).state@
                })
                &&& final(self).generator == old(self).generator
            },
            frame.kind == FrameKind::Data ==> match r {
                Some(events) => {
                    &&& json_parse(frame.data@) matches Some(json) ==> usage_fits(
                        old(self).state@,
                        json,
                    )
                    &&& data_outcome_from(
                        old(self).state@,
                        frame.data@,
                        old(self).auto_tool_id,
                        old(self).generator.last,
                        final(self).generator.last,
                        final(self).state@,
                        event_views(events@),
                    )
                },
                None => {
                    &&& json_parse(frame.data@) matches Some(json)
                    &&& !usage_fits(old(self).state@, json)
                    &&& final(self).state == old(self).state
                    &&& final(self).generator == old(self).generator
                },
            },
            match r {
                Some(events) => final(self).emitted_content == (old(self).emitted_content
                    || any_reply(event_views(events@))),
                None => final(self).emitted_content == old(self).emitted_content,
            },
    {
        match frame.kind {
            FrameKind::Done => {
                let events = self.finish();
                assert(!any_reply(event_views(events@)));
                Some(events)
            },
            FrameKind::Data => {
                match checked_parse_sse_chunk_from(
                    frame.data.as_str(),
                    &mut self.state,
                    self.auto_tool_id,
                    &mut self.generator,
                ) {
                    Some(events) => {
                        if contains_reply(&events) {
                            self.emitted_content = true;
                        }
                        Some(events)
                    },
                    None => None,
                }
            },
        }
    }

    /// What a broken connection makes of the reply.
    pub fn failed(&self, error: ProviderError) -> (r: StreamOutcome)
        ensures
            r == (if self.emitted_content {
                StreamOutcome::FailedPartial(error)
            } else {
                StreamOutcome::FailedEmpty(error)
            }),
    {
        if self.emitted_content {
            StreamOutcome::FailedPartial(error)
        } else {
            StreamOutcome::FailedEmpty(error)
        }
    }
}

// ---------------------------------------------------------------------------
// Laws
// ---------------------------------------------------------------------------

/// It does not matter how the text of a stream is cut into pieces: two pieces
/// one after the other give the payloads that both at once do.
pub proof fn pieces_of_a_stream_may_be_cut_anywhere(
    first: Seq<char>,
    second: Seq<char>,
    done: Seq<char>,
)
    ensures
        frames_in(first + second, done) == frames_in(first, done) + frames_in(
            last_part(first) + second,
            done,
        ),
        last_part(first + second) == last_part(last_part(first) + second),
    decreases first.len(),
{
    let sep = seq!['\n'];
    lemma_find_from(first, sep, 0);
    match find(first, sep) {
        None => {
            assert(frames_in(first, done) + frames_in(first + second, done) =~= frames_in(
                first + second,
                done,
            ));
        },
        Some(k) => {
            lemma_find_in_longer(first, second, sep);
            let at = (k + 1) as int;
            let rest = first.skip(at);
            assert((first + second).take(k as int) =~= first.take(k as int));
            assert((first + second).skip(at) =~= rest + second);
            pieces_of_a_stream_may_be_cut_anywhere(rest, second, done);
            let these = line_frames(first.take(k as int), done);
            assert(these + (frames_in(rest, done) + frames_in(last_part(rest) + second, done))
                =~= (these + frames_in(rest, done)) + frames_in(last_part(rest) + second, done));
        },
    }
}

} // verus!
