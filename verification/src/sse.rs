//! Server-sent events: lines, blocks, and the reply they carry.

use vstd::prelude::*;

use crate::anthropic_stream::{
    fresh_state, on_data, parse_sse_data, StreamState, StreamStateView, StreamStep,
};
use crate::llm::{event_views, EventView, LlmEvent, ProviderError};
use crate::text::{
    chars_of, decode_lossy, find, find_chars, lemma_find_from, lemma_find_in_longer, lossy_text, occurs_at,
    starts_with,
    strip_prefix, text_of, views,
};

verus! {

broadcast use vstd::string::group_string_axioms;

// ---------------------------------------------------------------------------
// Lines
// ---------------------------------------------------------------------------

/// A line without the carriage return before its line feed.
pub open spec fn without_cr(line: Seq<char>) -> Seq<char> {
    if line.len() > 0 && line.last() == '\r' {
        line.drop_last()
    } else {
        line
    }
}

/// The lines of a text: each ends in a line feed, or a carriage return and a
/// line feed, which the last may lack.
pub open spec fn lines(s: Seq<char>) -> Seq<Seq<char>>
    decreases s.len(),
{
    if s.len() == 0 {
        Seq::empty()
    } else {
        match find(s, seq!['\n']) {
            Some(k) => if k < s.len() {
                seq![without_cr(s.take(k as int))] + lines(s.skip((k + 1) as int))
            } else {
                seq![s]
            },
            None => seq![s],
        }
    }
}

/// Where the next line feed stands.
proof fn lemma_line_feed(s: Seq<char>, base: int, k: int)
    requires
        0 <= base <= k < s.len(),
        s[k] == '\n',
        forall|j: int| base <= j < k ==> s[j] != '\n',
    ensures
        find(s.skip(base), seq!['\n']) == Some((k - base) as nat),
{
    let t = s.skip(base);
    let nl = seq!['\n'];
    lemma_find_from(t, nl, 0);
    assert(t.subrange(k - base, k - base + 1) =~= nl);
    assert(occurs_at(t, nl, k - base));
    match find(t, nl) {
        Some(f) => {
            assert(t.subrange(f as int, (f + 1) as int)[0] == '\n');
            assert(t[f as int] == s[base + f]);
        },
        None => {},
    }
}

proof fn lemma_no_line_feed(s: Seq<char>, base: int)
    requires
        0 <= base <= s.len(),
        forall|j: int| base <= j < s.len() ==> s[j] != '\n',
    ensures
        find(s.skip(base), seq!['\n']) is None,
{
    let t = s.skip(base);
    let nl = seq!['\n'];
    lemma_find_from(t, nl, 0);
    match find(t, nl) {
        Some(f) => {
            assert(t.subrange(f as int, (f + 1) as int)[0] == '\n');
            assert(t[f as int] == s[base + f]);
        },
        None => {},
    }
}

/// Splits a text into its lines.
pub fn split_lines(s: &str) -> (r: Vec<String>)
    ensures
        views(r@) == lines(s@),
{
    let v = chars_of(s);
    let mut out: Vec<String> = Vec::new();
    let mut base: usize = 0;
    let mut i: usize = 0;
    assert(s@.skip(0) =~= s@);
    assert(views(out@) + lines(s@.skip(0)) =~= lines(s@));
    while i < v.len()
        invariant
            v@ == s@,
            base <= i <= v@.len(),
            forall|j: int| base <= j < i ==> s@[j] != '\n',
            views(out@) + lines(s@.skip(base as int)) == lines(s@),
        decreases v.len() - i,
    {
        if v[i] == '\n' {
            let ghost t = s@.skip(base as int);
            let end: usize = if i > base && v[i - 1] == '\r' {
                i - 1
            } else {
                i
            };
            let line = text_of(&v, base, end);
            let ghost before = views(out@);
            out.push(line);
            proof {
                lemma_line_feed(s@, base as int, i as int);
                assert(t.take(i - base) =~= s@.subrange(base as int, i as int));
                assert(line@ =~= without_cr(t.take(i - base)));
                assert(t.skip(i - base + 1) =~= s@.skip(i + 1));
                assert(views(out@) =~= before.push(line@));
                assert(views(out@) + lines(s@.skip(i + 1)) =~= before + (seq![line@] + lines(
                    s@.skip(i + 1),
                )));
            }
            base = i + 1;
        }
        i += 1;
    }
    if base < v.len() {
        let ghost t = s@.skip(base as int);
        let line = text_of(&v, base, v.len());
        let ghost before = views(out@);
        out.push(line);
        proof {
            lemma_no_line_feed(s@, base as int);
            assert(line@ =~= t);
            assert(views(out@) =~= before + seq![t]);
        }
    } else {
        assert(lines(s@.skip(base as int)) =~= Seq::empty());
        assert(views(out@) + Seq::<Seq<char>>::empty() =~= views(out@));
    }
    out
}

// ---------------------------------------------------------------------------
// Blocks, as Anthropic streams have them
// ---------------------------------------------------------------------------

/// One payload of a stream, under the event type named last before it.
#[derive(Debug)]
pub struct SseMessage {
    pub event_type: String,
    pub data: String,
}

#[verifier::ext_equal]
pub struct SseMessageView {
    pub event_type: Seq<char>,
    pub data: Seq<char>,
}

impl SseMessage {
    pub open spec fn view(&self) -> SseMessageView {
        SseMessageView { event_type: self.event_type@, data: self.data@ }
    }
}

pub open spec fn sse_message_views(messages: Seq<SseMessage>) -> Seq<SseMessageView> {
    Seq::new(messages.len(), |i: int| messages[i]@)
}

/// The start of a block whose end is still to come, and the event type named
/// last.
#[verifier::ext_equal]
pub struct FramerView {
    pub buffer: Seq<char>,
    pub event_type: Seq<char>,
}

/// A framer, and the payloads on the way to it.
#[verifier::ext_equal]
pub struct FramerStep {
    pub framer: FramerView,
    pub messages: Seq<SseMessageView>,
}

/// One line of a block: it names the event type, or carries data.
pub open spec fn on_line(st: FramerView, line: Seq<char>) -> FramerStep {
    if starts_with(line, "event: "@) {
        FramerStep {
            framer: FramerView { event_type: line.skip("event: "@.len() as int), ..st },
            messages: Seq::empty(),
        }
    } else if starts_with(line, "data: "@) {
        FramerStep {
            framer: st,
            messages: seq![
                SseMessageView {
                    event_type: st.event_type,
                    data: line.skip("data: "@.len() as int),
                },
            ],
        }
    } else {
        FramerStep { framer: st, messages: Seq::empty() }
    }
}

pub open spec fn on_lines(st: FramerView, ls: Seq<Seq<char>>) -> FramerStep
    decreases ls.len(),
{
    if ls.len() == 0 {
        FramerStep { framer: st, messages: Seq::empty() }
    } else {
        let before = on_lines(st, ls.drop_last());
        let step = on_line(before.framer, ls.last());
        FramerStep { framer: step.framer, messages: before.messages + step.messages }
    }
}

/// The blocks that are complete in the buffer are taken, in order.
pub open spec fn drained(st: FramerView) -> FramerStep
    decreases st.buffer.len(),
{
    match find(st.buffer, seq!['\n', '\n']) {
        Some(k) => if k + 2 <= st.buffer.len() {
            let rest = FramerView { buffer: st.buffer.skip((k + 2) as int), ..st };
            let first = on_lines(rest, lines(st.buffer.take(k as int)));
            if first.framer.buffer.len() < st.buffer.len() {
                let more = drained(first.framer);
                FramerStep { framer: more.framer, messages: first.messages + more.messages }
            } else {
                first
            }
        } else {
            FramerStep { framer: st, messages: Seq::empty() }
        },
        None => FramerStep { framer: st, messages: Seq::empty() },
    }
}

/// More text has arrived.
pub open spec fn framed(st: FramerView, text: Seq<char>) -> FramerStep {
    drained(FramerView { buffer: st.buffer + text, ..st })
}

/// Cuts a stream into the payloads of its blocks.
#[derive(Debug)]
pub struct SseBlockFramer {
    pub buffer: String,
    pub current_event_type: String,
}

proof fn lemma_lines_keep_buffer(st: FramerView, ls: Seq<Seq<char>>)
    ensures
        on_lines(st, ls).framer.buffer == st.buffer,
    decreases ls.len(),
{
    if ls.len() > 0 {
        lemma_lines_keep_buffer(st, ls.drop_last());
    }
}

proof fn lemma_append_messages(a: Seq<SseMessage>, b: Seq<SseMessage>)
    ensures
        sse_message_views(a + b) == sse_message_views(a) + sse_message_views(b),
{
    assert(sse_message_views(a + b) =~= sse_message_views(a) + sse_message_views(b));
}

impl SseBlockFramer {
    pub open spec fn view(&self) -> FramerView {
        FramerView { buffer: self.buffer@, event_type: self.current_event_type@ }
    }

    pub fn new() -> (r: Self)
        ensures
            r@ == (FramerView { buffer: Seq::empty(), event_type: Seq::empty() }),
    {
        SseBlockFramer { buffer: String::new(), current_event_type: String::new() }
    }

    fn push_line(&mut self, line: &str) -> (r: Vec<SseMessage>)
        ensures
            final(self)@ == on_line(old(self)@, line@).framer,
            sse_message_views(r@) == on_line(old(self)@, line@).messages,
    {
        let mut r: Vec<SseMessage> = Vec::new();
        if let Some(event_type) = strip_prefix(line, "event: ") {
            self.current_event_type = event_type;
        } else if let Some(data) = strip_prefix(line, "data: ") {
            let message = SseMessage { event_type: self.current_event_type.clone(), data };
            r.push(message);
            assert(sse_message_views(r@) =~= seq![message@]);
            return r;
        }
        assert(sse_message_views(r@) =~= Seq::empty());
        r
    }

    fn push_block(&mut self, block: &str) -> (r: Vec<SseMessage>)
        ensures
            final(self)@ == on_lines(old(self)@, lines(block@)).framer,
            sse_message_views(r@) == on_lines(old(self)@, lines(block@)).messages,
    {
        let all = split_lines(block);
        let ghost ls = lines(block@);
        let ghost start = self@;
        let mut r: Vec<SseMessage> = Vec::new();
        assert(sse_message_views(r@) =~= Seq::empty());
        for i in 0..all.len()
            invariant
                ls == views(all@),
                self@ == on_lines(start, ls.take(i as int)).framer,
                sse_message_views(r@) == on_lines(start, ls.take(i as int)).messages,
        {
            assert(ls.take(i + 1).drop_last() =~= ls.take(i as int));
            let mut more = self.push_line(all[i].as_str());
            proof {
                lemma_append_messages(r@, more@);
            }
            r.append(&mut more);
        }
        assert(ls.take(ls.len() as int) =~= ls);
        r
    }

    /// Takes in more text and hands out the payloads of the blocks that it
    /// completes.
    pub fn push_text(&mut self, text: &str) -> (r: Vec<SseMessage>)
        ensures
            final(self)@ == framed(old(self)@, text@).framer,
            sse_message_views(r@) == framed(old(self)@, text@).messages,
    {
        self.buffer.append(text);
        let ghost whole = drained(self@);
        let mut sep: Vec<char> = Vec::new();
        sep.push('\n');
        sep.push('\n');
        assert(sep@ =~= seq!['\n', '\n']);
        let mut r: Vec<SseMessage> = Vec::new();
        assert(sse_message_views(r@) =~= Seq::empty());
        assert(sse_message_views(r@) + drained(self@).messages =~= whole.messages);
        loop
            invariant
                sep@ == seq!['\n', '\n'],
                whole == framed(old(self)@, text@),
                drained(self@).framer == whole.framer,
                sse_message_views(r@) + drained(self@).messages == whole.messages,
            decreases self@.buffer.len(),
        {
            let chars = chars_of(self.buffer.as_str());
            let hit = find_chars(&chars, &sep, 0);
            let ghost now = self@;
            proof {
                lemma_find_from(now.buffer, seq!['\n', '\n'], 0);
            }
            match hit {
                None => {
                    assert(sse_message_views(r@) + Seq::<SseMessageView>::empty()
                        =~= sse_message_views(r@));
                    return r;
                },
                Some(k) => {
                    assert(k + 2 <= chars.len());
                    let block = text_of(&chars, 0, k);
                    let rest = text_of(&chars, k + 2, chars.len());
                    self.buffer = rest;
                    proof {
                        assert(block@ =~= now.buffer.take(k as int));
                        assert(rest@ =~= now.buffer.skip(k + 2));
                        lemma_lines_keep_buffer(self@, lines(block@));
                    }
                    let mut more = self.push_block(block.as_str());
                    let ghost before = sse_message_views(r@);
                    proof {
                        lemma_append_messages(r@, more@);
                        assert((before + sse_message_views(more@)) + drained(self@).messages
                            =~= before + (sse_message_views(more@) + drained(self@).messages));
                    }
                    r.append(&mut more);
                },
            }
        }
    }
}

// ---------------------------------------------------------------------------
// The reply
// ---------------------------------------------------------------------------

/// Outcome of SSE stream processing — distinguishes "failed before any content
/// was emitted" (safe to retry) from "failed after partial content" (not safe).
#[derive(Debug)]
pub enum StreamOutcome {
    Completed,
    FailedEmpty(ProviderError),
    FailedPartial(ProviderError),
}

/// An event that shows something of the reply.
pub open spec fn shows_content(e: EventView) -> bool {
    match e {
        EventView::TextDelta(_) => true,
        EventView::ThinkingDelta(_) => true,
        EventView::ThinkingSignature(_) => true,
        EventView::ToolUse { .. } => true,
        _ => false,
    }
}

/// Some event shows something of the reply.
pub open spec fn any_content(events: Seq<EventView>) -> bool {
    exists|i: int| 0 <= i < events.len() && shows_content(#[trigger] events[i])
}

/// The state and the events after some payloads.
pub open spec fn on_messages(st: StreamStateView, ms: Seq<SseMessageView>) -> StreamStep
    decreases ms.len(),
{
    if ms.len() == 0 {
        StreamStep { state: st, events: Seq::empty() }
    } else {
        let before = on_messages(st, ms.drop_last());
        let step = on_data(before.state, ms.last().event_type, ms.last().data);
        StreamStep { state: step.state, events: before.events + step.events }
    }
}

/// What has been received, as mathematics.
#[verifier::ext_equal]
pub struct BlockStreamView {
    pub framer: FramerView,
    pub state: StreamStateView,
    pub emitted_content: bool,
}

/// What has been received, and the events on the way to it.
#[verifier::ext_equal]
pub struct BlockStep {
    pub stream: BlockStreamView,
    pub events: Seq<EventView>,
}

/// More text has arrived.
pub open spec fn received(st: BlockStreamView, text: Seq<char>) -> BlockStep {
    let frames = framed(st.framer, text);
    let step = on_messages(st.state, frames.messages);
    BlockStep {
        stream: BlockStreamView {
            framer: frames.framer,
            state: step.state,
            emitted_content: st.emitted_content || any_content(step.events),
        },
        events: step.events,
    }
}

/// A reply in the Anthropic streaming format, as it arrives.
#[derive(Debug)]
pub struct BlockStream {
    pub framer: SseBlockFramer,
    pub state: StreamState,
    pub emitted_content: bool,
}

fn contains_content(events: &Vec<LlmEvent>) -> (r: bool)
    ensures
        r == any_content(event_views(events@)),
{
    for i in 0..events.len()
        invariant
            forall|j: int| 0 <= j < i ==> !shows_content(#[trigger] event_views(events@)[j]),
    {
        let shows = match &events[i] {
            LlmEvent::TextDelta(_) => true,
            LlmEvent::ThinkingDelta(_) => true,
            LlmEvent::ThinkingSignature(_) => true,
            LlmEvent::ToolUse { .. } => true,
            _ => false,
        };
        if shows {
            assert(shows_content(event_views(events@)[i as int]));
            return true;
        }
    }
    false
}

fn apply_messages(state: &mut StreamState, messages: &Vec<SseMessage>) -> (r: Vec<LlmEvent>)
    ensures
        final(state)@ == on_messages(old(state)@, sse_message_views(messages@)).state,
        event_views(r@) == on_messages(old(state)@, sse_message_views(messages@)).events,
{
    let ghost start = state@;
    let ghost all = sse_message_views(messages@);
    let mut r: Vec<LlmEvent> = Vec::new();
    assert(event_views(r@) =~= Seq::empty());
    for i in 0..messages.len()
        invariant
            all == sse_message_views(messages@),
            state@ == on_messages(start, all.take(i as int)).state,
            event_views(r@) == on_messages(start, all.take(i as int)).events,
    {
        assert(all.take(i + 1).drop_last() =~= all.take(i as int));
        let m = &messages[i];
        let mut events = parse_sse_data(m.event_type.as_str(), m.data.as_str(), state);
        let ghost a = event_views(r@);
        let ghost b = event_views(events@);
        r.append(&mut events);
        assert(event_views(r@) =~= a + b);
    }
    assert(all.take(all.len() as int) =~= all);
    r
}

impl BlockStream {
    pub open spec fn view(&self) -> BlockStreamView {
        BlockStreamView {
            framer: self.framer@,
            state: self.state@,
            emitted_content: self.emitted_content,
        }
    }

    pub fn new() -> (r: Self)
        ensures
            r@ == (BlockStreamView {
                framer: FramerView { buffer: Seq::empty(), event_type: Seq::empty() },
                state: fresh_state(),
                emitted_content: false,
            }),
    {
        BlockStream {
            framer: SseBlockFramer::new(),
            state: StreamState::new(),
            emitted_content: false,
        }
    }

    /// Takes in more text and hands out the events that it completes.
    pub fn push_text(&mut self, text: &str) -> (r: Vec<LlmEvent>)
        ensures
            final(self)@ == received(old(self)@, text@).stream,
            event_views(r@) == received(old(self)@, text@).events,
    {
        let messages = self.framer.push_text(text);
        let events = apply_messages(&mut self.state, &messages);
        if contains_content(&events) {
            self.emitted_content = true;
        }
        events
    }

    /// Takes in the bytes of a chunk.
    pub fn push_bytes(&mut self, chunk: &[u8]) -> (r: Vec<LlmEvent>)
        ensures
            final(self)@ == received(old(self)@, lossy_text(chunk@)).stream,
            event_views(r@) == received(old(self)@, lossy_text(chunk@)).events,
    {
        let text = decode_lossy(chunk);
        self.push_text(text.as_str())
    }

    /// What a broken connection makes of the reply.
    pub fn failed(&self, error: ProviderError) -> (r: StreamOutcome)
        ensures
            r == (if self@.emitted_content {
                StreamOutcome::FailedPartial(error)
            } else {
                StreamOutcome::FailedEmpty(error)
            }),
    {
        if self.emitted_content {
            StreamOutcome::FailedPartial(error)
        } else {
            StreamOutcome::FailedEmpty(error)
        }
    }
}

// ---------------------------------------------------------------------------
// Laws
// ---------------------------------------------------------------------------

/// The lines of a block do not look at what follows it.
proof fn lemma_lines_ignore_buffer(st: FramerView, buffer: Seq<char>, ls: Seq<Seq<char>>)
    ensures
        ({
            let a = on_lines(st, ls);
            let b = on_lines(FramerView { buffer, ..st }, ls);
            b.messages == a.messages && b.framer == (FramerView { buffer, ..a.framer })
        }),
    decreases ls.len(),
{
    if ls.len() > 0 {
        lemma_lines_ignore_buffer(st, buffer, ls.drop_last());
    }
}

proof fn lemma_drained_in_parts(st: FramerView, tail: Seq<char>)
    ensures
        ({
            let whole = drained(FramerView { buffer: st.buffer + tail, ..st });
            let first = drained(st);
            let second = framed(first.framer, tail);
            whole.framer == second.framer && whole.messages == first.messages + second.messages
        }),
    decreases st.buffer.len(),
{
    let sep = seq!['\n', '\n'];
    let long = FramerView { buffer: st.buffer + tail, ..st };
    lemma_find_from(st.buffer, sep, 0);
    match find(st.buffer, sep) {
        None => {
            assert(drained(st).messages + drained(long).messages =~= drained(long).messages);
        },
        Some(k) => {
            lemma_find_in_longer(st.buffer, tail, sep);
            let at = (k + 2) as int;
            let rest = st.buffer.skip(at);
            let ls = lines(st.buffer.take(k as int));
            assert(long.buffer.take(k as int) =~= st.buffer.take(k as int));
            assert(long.buffer.skip(at) =~= rest + tail);
            let short_rest = FramerView { buffer: rest, ..st };
            let long_rest = FramerView { buffer: rest + tail, ..st };
            lemma_lines_keep_buffer(short_rest, ls);
            lemma_lines_keep_buffer(long_rest, ls);
            lemma_lines_ignore_buffer(short_rest, rest + tail, ls);
            let step = on_lines(short_rest, ls);
            lemma_drained_in_parts(step.framer, tail);
            let first = drained(step.framer);
            let second = framed(first.framer, tail);
            assert(drained(long).messages =~= step.messages + (first.messages + second.messages));
            assert(drained(st).messages + second.messages =~= step.messages + (first.messages
                + second.messages));
        },
    }
}

proof fn lemma_messages_in_parts(
    st: StreamStateView,
    a: Seq<SseMessageView>,
    b: Seq<SseMessageView>,
)
    ensures
        ({
            let whole = on_messages(st, a + b);
            let first = on_messages(st, a);
            let second = on_messages(first.state, b);
            whole.state == second.state && whole.events == first.events + second.events
        }),
    decreases b.len(),
{
    if b.len() == 0 {
        assert(a + b =~= a);
        assert(on_messages(st, a).events + Seq::<EventView>::empty() =~= on_messages(st, a).events);
    } else {
        assert((a + b).drop_last() =~= a + b.drop_last());
        lemma_messages_in_parts(st, a, b.drop_last());
        let first = on_messages(st, a);
        let front = on_messages(first.state, b.drop_last());
        let step = on_data(front.state, b.last().event_type, b.last().data);
        assert((first.events + front.events) + step.events =~= first.events + (front.events
            + step.events));
    }
}

/// It does not matter how a stream is cut into pieces: two pieces one after the
/// other give the payloads that both at once do.
pub proof fn blocks_may_be_cut_anywhere(st: FramerView, first: Seq<char>, second: Seq<char>)
    ensures
        ({
            let whole = framed(st, first + second);
            let a = framed(st, first);
            let b = framed(a.framer, second);
            whole.framer == b.framer && whole.messages == a.messages + b.messages
        }),
{
    let fed = FramerView { buffer: st.buffer + first, ..st };
    lemma_drained_in_parts(fed, second);
    assert(st.buffer + (first + second) =~= fed.buffer + second);
}

proof fn lemma_any_content_concat(a: Seq<EventView>, b: Seq<EventView>)
    ensures
        any_content(a + b) == (any_content(a) || any_content(b)),
{
    let ab = a + b;
    if any_content(a) {
        let i = choose|i: int| 0 <= i < a.len() && shows_content(#[trigger] a[i]);
        assert(shows_content(ab[i]));
    }
    if any_content(b) {
        let i = choose|i: int| 0 <= i < b.len() && shows_content(#[trigger] b[i]);
        assert(shows_content(ab[a.len() + i]));
    }
    if any_content(ab) {
        let i = choose|i: int| 0 <= i < ab.len() && shows_content(#[trigger] ab[i]);
        if i < a.len() {
            assert(shows_content(a[i]));
        } else {
            assert(shows_content(b[i - a.len()]));
        }
    }
}

/// It does not matter how the text of a reply is cut into pieces: two pieces one
/// after the other give the events and leave the state that both at once do.
pub proof fn pieces_of_a_reply_may_be_cut_anywhere(
    st: BlockStreamView,
    first: Seq<char>,
    second: Seq<char>,
)
    ensures
        ({
            let whole = received(st, first + second);
            let a = received(st, first);
            let b = received(a.stream, second);
            whole.stream == b.stream && whole.events == a.events + b.events
        }),
{
    blocks_may_be_cut_anywhere(st.framer, first, second);
    let a = framed(st.framer, first);
    let b = framed(a.framer, second);
    lemma_messages_in_parts(st.state, a.messages, b.messages);
    let x = on_messages(st.state, a.messages);
    let y = on_messages(x.state, b.messages);
    lemma_any_content_concat(x.events, y.events);
}

} // verus!
