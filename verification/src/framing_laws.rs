//! How the text of a stream becomes payloads.

use vstd::prelude::*;

use crate::anthropic_stream::on_data;
use crate::framing::{any_reply, frames_in, last_part, shows_reply, FrameKind, FrameView};
use crate::llm::EventView;
use crate::sse::{
    any_content, drained, framed, lines, on_line, on_lines, on_messages, received, shows_content,
    without_cr, BlockStreamView, FramerStep, FramerView, SseMessageView,
};
use crate::text::{
    find, is_space, lemma_find_from, occurs_at, starts_with, trim, trim_end, trim_start,
};

verus! {

broadcast use vstd::string::group_string_axioms;

/// A text within one line.
pub open spec fn is_one_line(s: Seq<char>) -> bool {
    forall|i: int| 0 <= i < s.len() ==> #[trigger] s[i] != '\n'
}

proof fn lemma_find_line_end(line: Seq<char>, rest: Seq<char>)
    requires
        is_one_line(line),
    ensures
        find(line + "\n"@ + rest, seq!['\n']) == Some(line.len()),
{
    reveal_strlit("\n");
    let s = line + "\n"@ + rest;
    let nl = seq!['\n'];
    lemma_find_from(s, nl, 0);
    let n = line.len() as int;
    assert(s.subrange(n, n + 1) =~= nl);
    assert(occurs_at(s, nl, n));
    match find(s, nl) {
        Some(k) => {
            assert(s.subrange(k as int, (k + 1) as int)[0] == '\n');
            if k < n {
                assert(line[k as int] == '\n');
            }
        },
        None => {},
    }
}

proof fn lemma_no_line_end(s: Seq<char>)
    requires
        is_one_line(s),
    ensures
        find(s, seq!['\n']) is None,
{
    let nl = seq!['\n'];
    lemma_find_from(s, nl, 0);
    match find(s, nl) {
        Some(k) => {
            assert(s.subrange(k as int, (k + 1) as int)[0] == '\n');
            assert(s[k as int] == '\n');
        },
        None => {},
    }
}

// ---------------------------------------------------------------------------
// Lines of a chat stream
// ---------------------------------------------------------------------------

/// A line of data is one payload, the marker the end of the stream, and what follows
/// it is read on its own.
pub proof fn data_lines_are_payloads(data: Seq<char>, rest: Seq<char>, done: Seq<char>)
    requires
        is_one_line(data),
        data.len() > 0,
        !is_space(data.last()),
    ensures
        frames_in("data: "@ + data + "\n"@ + rest, done) == seq![
            FrameView {
                kind: if data == done {
                    FrameKind::Done
                } else {
                    FrameKind::Data
                },
                data,
            },
        ] + frames_in(rest, done),
        last_part("data: "@ + data + "\n"@ + rest) == last_part(rest),
{
    reveal_strlit("data: ");
    reveal_strlit("\n");
    let line = "data: "@ + data;
    let s = line + "\n"@ + rest;
    lemma_find_line_end(line, rest);
    assert(s.take(line.len() as int) =~= line);
    assert(s.skip((line.len() + 1) as int) =~= rest);
    assert(line[0] == 'd');
    assert(!is_space('d'));
    assert(trim_start(line) == line);
    assert(line.last() == data.last());
    assert(trim_end(line) == line);
    assert(trim(line) == line);
    assert(line.subrange(0, 6) =~= "data: "@);
    assert(starts_with(line, "data: "@));
    assert(line.skip(6) =~= data);
}

/// A line of anything else is no payload.
pub proof fn other_lines_are_passed_over(line: Seq<char>, rest: Seq<char>, done: Seq<char>)
    requires
        is_one_line(line),
        !starts_with(trim(line), "data: "@),
    ensures
        frames_in(line + "\n"@ + rest, done) == frames_in(rest, done),
        last_part(line + "\n"@ + rest) == last_part(rest),
{
    reveal_strlit("\n");
    let s = line + "\n"@ + rest;
    lemma_find_line_end(line, rest);
    assert(s.take(line.len() as int) =~= line);
    assert(s.skip((line.len() + 1) as int) =~= rest);
    assert(Seq::<FrameView>::empty() + frames_in(rest, done) =~= frames_in(rest, done));
}

/// A line that has not ended is kept until it does.
pub proof fn unfinished_lines_are_kept(line: Seq<char>, done: Seq<char>)
    requires
        is_one_line(line),
    ensures
        frames_in(line, done) == Seq::<FrameView>::empty(),
        last_part(line) == line,
{
    lemma_no_line_end(line);
}

// ---------------------------------------------------------------------------
// Blocks of an Anthropic stream
// ---------------------------------------------------------------------------

/// The text of a block with an event type and a payload.
pub open spec fn block_text(kind: Seq<char>, data: Seq<char>) -> Seq<char> {
    "event: "@ + kind + "\n"@ + "data: "@ + data + "\n\n"@
}

/// A text within one line that does not end in a carriage return.
pub open spec fn is_plain_line(s: Seq<char>) -> bool {
    is_one_line(s) && (s.len() > 0 ==> s.last() != '\r')
}

proof fn lemma_block_end(kind: Seq<char>, data: Seq<char>)
    requires
        is_plain_line(kind),
        is_plain_line(data),
    ensures
        find(block_text(kind, data), seq!['\n', '\n']) == Some((14 + kind.len() + data.len()) as nat),
        block_text(kind, data).len() == 16 + kind.len() + data.len(),
{
    reveal_strlit("event: ");
    reveal_strlit("data: ");
    reveal_strlit("\n");
    reveal_strlit("\n\n");
    let s = block_text(kind, data);
    let nl = seq!['\n', '\n'];
    let n = (14 + kind.len() + data.len()) as int;
    let a = "event: "@ + kind;
    let b = "data: "@ + data;
    assert(s =~= a + "\n"@ + b + "\n\n"@);
    lemma_find_from(s, nl, 0);
    assert(s.subrange(n, n + 2) =~= nl);
    assert(occurs_at(s, nl, n));
    match find(s, nl) {
        Some(k) => {
            let k = k as int;
            assert(s.subrange(k, k + 2)[0] == '\n');
            assert(s.subrange(k, k + 2)[1] == '\n');
            assert(s[k] == '\n' && s[k + 1] == '\n');
            if k < n {
                if k < a.len() {
                    assert(s[k] == a[k]);
                    if k >= 7 {
                        assert(kind[k - 7] == '\n');
                    }
                } else if k == a.len() {
                    assert(s[k + 1] == b[0]);
                } else {
                    let i = k - a.len() - 1;
                    assert(s[k] == b[i]);
                    if i >= 6 {
                        assert(data[i - 6] == '\n');
                    }
                }
            }
        },
        None => {},
    }
}

proof fn lemma_block_lines(kind: Seq<char>, data: Seq<char>)
    requires
        is_plain_line(kind),
        is_plain_line(data),
    ensures
        lines("event: "@ + kind + "\n"@ + ("data: "@ + data)) == seq![
            "event: "@ + kind,
            "data: "@ + data,
        ],
{
    reveal_strlit("event: ");
    reveal_strlit("data: ");
    reveal_strlit("\n");
    let a = "event: "@ + kind;
    let b = "data: "@ + data;
    let s = a + "\n"@ + b;
    assert(is_one_line(a)) by {
        assert forall|i: int| 0 <= i < a.len() implies #[trigger] a[i] != '\n' by {
            if i >= 7 {
                assert(kind[i - 7] != '\n');
            }
        }
    }
    assert(is_one_line(b)) by {
        assert forall|i: int| 0 <= i < b.len() implies #[trigger] b[i] != '\n' by {
            if i >= 6 {
                assert(data[i - 6] != '\n');
            }
        }
    }
    lemma_find_line_end(a, b);
    assert(s.take(a.len() as int) =~= a);
    assert(s.skip((a.len() + 1) as int) =~= b);
    lemma_no_line_end(b);
    assert(lines(b) == seq![b]);
    assert(a.last() == (if kind.len() > 0 {
        kind.last()
    } else {
        ' '
    }));
    assert(lines(s) =~= seq![a, b]);
}

/// A block of an event type and a payload is that payload under that type, whatever
/// type was named before, and leaves nothing behind.
pub proof fn blocks_are_payloads(before: Seq<char>, kind: Seq<char>, data: Seq<char>)
    requires
        is_plain_line(kind),
        is_plain_line(data),
    ensures
        framed(
            FramerView { buffer: Seq::empty(), event_type: before },
            block_text(kind, data),
        ) == (FramerStep {
            framer: FramerView { buffer: Seq::empty(), event_type: kind },
            messages: seq![SseMessageView { event_type: kind, data }],
        }),
{
    reveal_strlit("event: ");
    reveal_strlit("data: ");
    reveal_strlit("\n");
    reveal_strlit("\n\n");
    let s = block_text(kind, data);
    let st = FramerView { buffer: s, event_type: before };
    assert(Seq::<char>::empty() + s =~= s);
    lemma_block_end(kind, data);
    lemma_block_lines(kind, data);
    let k = (14 + kind.len() + data.len()) as int;
    let a = "event: "@ + kind;
    let b = "data: "@ + data;
    assert(s.take(k) =~= a + "\n"@ + b);
    assert(s.skip(k + 2) =~= Seq::empty());
    let rest = FramerView { buffer: Seq::empty(), event_type: before };
    let ls = seq![a, b];
    assert(ls.drop_last() =~= seq![a]);
    assert(seq![a].drop_last() =~= Seq::empty());
    assert(on_lines(rest, seq![a].drop_last()) == (FramerStep {
        framer: rest,
        messages: Seq::empty(),
    }));
    assert(a.subrange(0, 7) =~= "event: "@);
    assert(starts_with(a, "event: "@));
    assert(a.skip(7) =~= kind);
    let named = FramerView { buffer: Seq::empty(), event_type: kind };
    assert(on_lines(rest, seq![a]) == (FramerStep { framer: named, messages: Seq::empty() }));
    assert(b.subrange(0, 6) =~= "data: "@);
    assert(starts_with(b, "data: "@));
    assert(!starts_with(b, "event: "@)) by {
        if starts_with(b, "event: "@) {
            assert(b.subrange(0, 7)[0] == 'e');
        }
    }
    assert(b.skip(6) =~= data);
    let message = SseMessageView { event_type: kind, data };
    assert(on_line(named, b).messages == seq![message]);
    assert(Seq::<SseMessageView>::empty() + seq![message] =~= seq![message]);
    let first = on_lines(rest, ls);
    assert(first == (FramerStep { framer: named, messages: seq![message] }));
    lemma_empty_buffer(named);
    assert(seq![message] + Seq::<SseMessageView>::empty() =~= seq![message]);
}

proof fn lemma_empty_buffer(st: FramerView)
    requires
        st.buffer.len() == 0,
    ensures
        drained(st) == (FramerStep { framer: st, messages: Seq::empty() }),
{
    lemma_find_from(st.buffer, seq!['\n', '\n'], 0);
}

/// A block of a reply hands out the events of its payload, and is remembered where it
/// shows something.
pub proof fn blocks_hand_out_their_events(st: BlockStreamView, kind: Seq<char>, data: Seq<char>)
    requires
        st.framer.buffer.len() == 0,
        is_plain_line(kind),
        is_plain_line(data),
    ensures
        ({
            let step = received(st, block_text(kind, data));
            &&& step.events == on_data(st.state, kind, data).events
            &&& step.stream.state == on_data(st.state, kind, data).state
            &&& step.stream.framer.buffer.len() == 0
            &&& step.stream.emitted_content <==> st.emitted_content || exists|i: int|
                0 <= i < step.events.len() && ((#[trigger] step.events[i]) is TextDelta
                    || step.events[i] is ThinkingDelta || step.events[i] is ThinkingSignature
                    || step.events[i] is ToolUse)
        }),
{
    assert(st.framer.buffer =~= Seq::empty());
    blocks_are_payloads(st.framer.event_type, kind, data);
    let message = SseMessageView { event_type: kind, data };
    let ms = seq![message];
    assert(ms.drop_last() =~= Seq::empty());
    assert(ms.last() == message);
    assert(on_messages(st.state, ms.drop_last()).state == st.state);
    let direct = on_data(st.state, kind, data).events;
    assert(Seq::<EventView>::empty() + direct =~= direct);
    let step = received(st, block_text(kind, data));
    assert(step.events == direct);
    if any_content(direct) {
        let i = choose|i: int|
            0 <= i < direct.len() && shows_content(#[trigger] direct[i]);
        assert(direct[i] is TextDelta || direct[i] is ThinkingDelta
            || direct[i] is ThinkingSignature || direct[i] is ToolUse);
    }
}

/// A reply has shown something once one of its events was a text, a thought or a call,
/// and in the block format also a signature; ends and errors show nothing.
pub proof fn text_thoughts_and_calls_are_shown(events: Seq<EventView>)
    ensures
        any_reply(events) <==> exists|i: int|
            0 <= i < events.len() && !((#[trigger] events[i]) is Done || events[i] is Error
                || events[i] is ThinkingSignature),
        any_content(events) <==> exists|i: int|
            0 <= i < events.len() && !((#[trigger] events[i]) is Done || events[i] is Error),
{
    if any_reply(events) {
        let i = choose|i: int| 0 <= i < events.len() && shows_reply(#[trigger] events[i]);
        assert(!(events[i] is Done || events[i] is Error || events[i] is ThinkingSignature));
    }
    if exists|i: int|
        0 <= i < events.len() && !((#[trigger] events[i]) is Done || events[i] is Error
            || events[i] is ThinkingSignature) {
        let i = choose|i: int|
            0 <= i < events.len() && !((#[trigger] events[i]) is Done || events[i] is Error
                || events[i] is ThinkingSignature);
        assert(shows_reply(events[i]));
    }
    if any_content(events) {
        let i = choose|i: int| 0 <= i < events.len() && shows_content(#[trigger] events[i]);
        assert(!(events[i] is Done || events[i] is Error));
    }
    if exists|i: int|
        0 <= i < events.len() && !((#[trigger] events[i]) is Done || events[i] is Error) {
        let i = choose|i: int|
            0 <= i < events.len() && !((#[trigger] events[i]) is Done || events[i] is Error);
        assert(shows_content(events[i]));
    }
}

/// A line ends at its line feed; a carriage return in front of that belongs to the end
/// and any other to the line. The last line may lack its end.
pub proof fn lines_end_at_their_line_feed(line: Seq<char>, rest: Seq<char>)
    requires
        forall|i: int| 0 <= i < line.len() ==> #[trigger] line[i] != '\n',
    ensures
        lines(Seq::empty()).len() == 0,
        lines(line + seq!['\r', '\n'] + rest) == seq![line] + lines(rest),
        !(line.len() > 0 && line[line.len() - 1] == '\r') ==> lines(line + seq!['\n'] + rest)
            == seq![line] + lines(rest),
        line.len() > 0 ==> lines(line) == seq![line],
{
    lemma_cut_at(line, rest);
    let with_cr = line.push('\r');
    assert forall|i: int| 0 <= i < with_cr.len() implies #[trigger] with_cr[i] != '\n' by {
        if i < line.len() {
            assert(line[i] != '\n');
        }
    }
    lemma_cut_at(with_cr, rest);
    assert(line + seq!['\r', '\n'] + rest =~= with_cr + seq!['\n'] + rest);
    assert(with_cr.drop_last() =~= line);
    lemma_find_from(line, seq!['\n'], 0);
    if let Some(k) = find(line, seq!['\n']) {
        assert(line.subrange(k as int, (k + 1) as int)[0] == line[k as int]);
    }
}

proof fn lemma_cut_at(line: Seq<char>, rest: Seq<char>)
    requires
        forall|i: int| 0 <= i < line.len() ==> #[trigger] line[i] != '\n',
    ensures
        lines(line + seq!['\n'] + rest) == seq![without_cr(line)] + lines(rest),
{
    let s = line + seq!['\n'] + rest;
    let n = line.len() as int;
    lemma_find_from(s, seq!['\n'], 0);
    assert(s.subrange(n, n + 1) =~= seq!['\n']);
    assert(occurs_at(s, seq!['\n'], n));
    assert forall|i: int| 0 <= i < n implies !occurs_at(s, seq!['\n'], i) by {
        assert(s.subrange(i, i + 1)[0] == line[i]);
    }
    assert(find(s, seq!['\n']) == Some(line.len()));
    assert(s.take(n) =~= line);
    assert(s.skip(n + 1) =~= rest);
}

} // verus!
