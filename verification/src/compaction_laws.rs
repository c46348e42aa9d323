//! Laws of compaction and of the estimates that it goes by: which sizes count, what a
//! step changes, and what is said of it.

use vstd::prelude::*;
use vstd::utf8::encode_utf8;

use crate::compaction::{
    autocompact_plan, autocompact_threshold, compaction_step, emergency_limit, threshold_fits,
    AutocompactOutcome, CompactConfig, CompactState, CompactionEvent, CompactionPhase, NoticeView,
};
use crate::engine::EngineView;
use crate::estimate::{
    base64_payload, block_json_chars, block_text_chars, blocks_json_chars, blocks_text_chars,
    decoded_size, estimated_tokens, image_tokens, is_countable, json_chars, text_chars, unpadded,
};
use crate::json::json_text;
use crate::message::{message_views, BlockView, MessageView};
use crate::sequences::{total, total_by_last};
use crate::text::{decimal, find, lemma_find_from, occurs_at};

verus! {

broadcast use vstd::string::group_string_axioms;

// ---------------------------------------------------------------------------
// Sizes
// ---------------------------------------------------------------------------

/// The threshold is the percentage of the window that is asked for, rounded down, or
/// what the reserve and the buffer leave of the window, which is never less than
/// nothing; the emergency limit is what its own buffer leaves.
pub proof fn thresholds_leave_room(config: CompactConfig)
    ensures
        config.autocompact_threshold_pct matches Some(pct) ==> {
            let part = config.context_window * pct;
            100 * autocompact_threshold(config) <= part < 100 * autocompact_threshold(config) + 100
        },
        config.autocompact_threshold_pct is None ==> {
            let room = config.context_window - config.output_reserve - config.autocompact_buffer;
            autocompact_threshold(config) == if room > 0 {
                room
            } else {
                0
            }
        },
        ({
            let room = config.context_window - config.emergency_buffer;
            emergency_limit(config) == if room > 0 {
                room
            } else {
                0
            }
        }),
{
    if let Some(pct) = config.autocompact_threshold_pct {
        let part = (config.context_window as nat) * (pct as nat);
        assert(100 * (part / 100) <= part < 100 * (part / 100) + 100);
    }
}

// ---------------------------------------------------------------------------
// Steps
// ---------------------------------------------------------------------------

/// A step changes the conversation only to one that compaction hands over in the
/// phase for it, the state only to the one that a summary leaves, and nothing else.
pub proof fn compaction_changes_only_the_conversation(
    e: EngineView,
    phase: CompactionPhase,
    event: CompactionEvent,
)
    ensures
        ({
            let step = compaction_step(e, phase, event);
            &&& step.engine == (EngineView {
                messages: step.engine.messages,
                compact_state: step.engine.compact_state,
                ..e
            })
            &&& step.engine.messages == (match event {
                CompactionEvent::Microcompacted(Some(m)) => if phase
                    == CompactionPhase::Microcompact {
                    message_views(m.messages@)
                } else {
                    e.messages
                },
                CompactionEvent::Summarized {
                    outcome: AutocompactOutcome::Compacted { messages, .. },
                    ..
                } => if phase == CompactionPhase::Summarize {
                    message_views(messages@)
                } else {
                    e.messages
                },
                _ => e.messages,
            })
            &&& step.engine.compact_state == (match event {
                CompactionEvent::Summarized { state, .. } => if phase
                    == CompactionPhase::Summarize {
                    state
                } else {
                    e.compact_state
                },
                _ => e.compact_state,
            })
        }),
{
}

/// A context that is still too long is refused with its size and the limit.
pub proof fn long_contexts_are_refused(e: EngineView, at_limit: bool)
    ensures
        ({
            let step = compaction_step(
                e,
                CompactionPhase::CheckEmergency,
                CompactionEvent::EmergencyChecked { at_limit },
            );
            &&& step.phase == CompactionPhase::Over
            &&& step.notices.len() == 0
            &&& step.engine == e
            &&& step.refused is Some <==> at_limit
            &&& step.refused matches Some((size, limit)) ==> size
                == e.compact_state.last_input_tokens && limit == emergency_limit(e.compact_config)
        }),
{
}

/// Clearing old results is told where any were cleared, with how many and how much
/// that freed; a summary is told with how much it covers, a failure with its cause.
pub proof fn compaction_is_told(e: EngineView, event: CompactionEvent)
    ensures
        event matches CompactionEvent::Microcompacted(Some(m)) ==> compaction_step(
            e,
            CompactionPhase::Microcompact,
            event,
        ).notices == (if m.cleared_count > 0 {
            seq![
                NoticeView::Info(
                    "Microcompact: cleared "@ + decimal(m.cleared_count as nat)
                        + " tool results (~"@ + decimal(m.estimated_tokens_freed as nat)
                        + " tokens freed)"@,
                ),
            ]
        } else {
            Seq::empty()
        }),
        event matches CompactionEvent::Microcompacted(None) ==> compaction_step(
            e,
            CompactionPhase::Microcompact,
            event,
        ).notices.len() == 0,
        event matches CompactionEvent::Summarized { outcome, .. } ==> compaction_step(
            e,
            CompactionPhase::Summarize,
            event,
        ).notices == (match outcome {
            AutocompactOutcome::Compacted { messages_summarized, pre_compact_tokens, .. } => seq![
                NoticeView::Info(
                    "Autocompact: summarized "@ + decimal(messages_summarized as nat)
                        + " messages ("@ + decimal(pre_compact_tokens as nat)
                        + " tokens → compact)"@,
                ),
            ],
            AutocompactOutcome::CircuitBroken => Seq::empty(),
            AutocompactOutcome::Failed(cause) => seq![
                NoticeView::Error("Autocompact failed: "@ + cause@),
            ],
        }),
{
}

/// The size is told where it is due and a percentage is set, the circuit breaker where
/// it forbids what is due, and that compaction is switched off where the size would
/// call for it; otherwise nothing is said.
pub proof fn sizes_are_told(
    config: CompactConfig,
    state: CompactState,
    due: bool,
    broken: bool,
)
    ensures
        ({
            let notices = autocompact_plan(config, state, due, broken).notices;
            let size: Seq<NoticeView> = match config.autocompact_threshold_pct {
                Some(pct) => seq![
                    NoticeView::Info(
                        "Autocompact threshold: "@ + decimal(autocompact_threshold(config))
                            + " tokens ("@ + decimal(pct as nat) + "% of "@ + decimal(
                            config.context_window as nat,
                        ) + ")"@,
                    ),
                ],
                None => Seq::empty(),
            };
            let skipped = NoticeView::Info(
                "Autocompact: skipped (circuit breaker tripped after "@ + decimal(
                    state.consecutive_failures as nat,
                ) + " consecutive failures, last_input_tokens="@ + decimal(
                    state.last_input_tokens as nat,
                ) + ")"@,
            );
            let off = NoticeView::Info(
                "Autocompact: disabled (compact.enabled=false, last_input_tokens="@ + decimal(
                    state.last_input_tokens as nat,
                ) + ", threshold="@ + decimal(autocompact_threshold(config)) + ")"@,
            );
            &&& due && !broken ==> notices == size
            &&& due && broken ==> notices == size + seq![skipped]
            &&& !due && config.enabled ==> notices.len() == 0
            &&& !due && !config.enabled && state.last_input_tokens <= usize::MAX ==> notices == (
            if state.last_input_tokens >= autocompact_threshold(config) {
                seq![off]
            } else {
                Seq::empty()
            })
        }),
{
    let notices = autocompact_plan(config, state, due, broken).notices;
    if due && broken {
        assert(notices =~= notices.drop_last() + seq![notices.last()]);
    }
}

// ---------------------------------------------------------------------------
// Estimates
// ---------------------------------------------------------------------------

/// The bytes of plain text of a block without an image.
pub open spec fn text_size(b: BlockView) -> nat {
    if b is Text {
        encode_utf8(b->Text_text).len()
    } else if b is Thinking {
        encode_utf8(b->Thinking_thinking).len()
    } else if b is ToolResult {
        encode_utf8(b->ToolResult_content).len()
    } else {
        0
    }
}

/// A block counts with the bytes that it says: text, thoughts and results as plain
/// text, calls as JSON with their name and their input.
pub proof fn blocks_count_with_what_they_say(b: BlockView)
    ensures
        !(b is Image) ==> block_text_chars(b) == text_size(b),
        block_json_chars(b) == (if b is ToolUse {
            encode_utf8(b->ToolUse_name).len() + encode_utf8(json_text(b->ToolUse_input)).len()
        } else {
            0
        }),
        b is Image ==> block_text_chars(b) == (match base64_payload(b->Image_url) {
            Some(payload) => 4 * image_tokens(decoded_size(payload)),
            None => encode_utf8(b->Image_url).len(),
        }),
{
}

proof fn lemma_blocks_total(blocks: Seq<BlockView>)
    ensures
        blocks_text_chars(blocks) == total(blocks, |b: BlockView| block_text_chars(b)),
        blocks_json_chars(blocks) == total(blocks, |b: BlockView| block_json_chars(b)),
    decreases blocks.len(),
{
    if blocks.len() > 0 {
        lemma_blocks_total(blocks.drop_last());
        total_by_last(blocks, |b: BlockView| block_text_chars(b));
        total_by_last(blocks, |b: BlockView| block_json_chars(b));
    }
}

/// What the blocks of a message weigh.
pub open spec fn message_text(m: MessageView) -> nat {
    total(m.content, |b: BlockView| block_text_chars(b))
}

pub open spec fn message_json(m: MessageView) -> nat {
    total(m.content, |b: BlockView| block_json_chars(b))
}

/// An estimate counts every block of every message, four bytes of text and three of
/// JSON to a token, each kind rounded down once.
pub proof fn estimates_count_every_block(messages: Seq<MessageView>)
    ensures
        text_chars(messages) == total(messages, |m: MessageView| message_text(m)),
        json_chars(messages) == total(messages, |m: MessageView| message_json(m)),
        estimated_tokens(messages) == total(messages, |m: MessageView| message_text(m)) / 4 + total(
            messages,
            |m: MessageView| message_json(m),
        ) / 3,
    decreases messages.len(),
{
    if messages.len() > 0 {
        estimates_count_every_block(messages.drop_last());
        lemma_blocks_total(messages.last().content);
        total_by_last(messages, |m: MessageView| message_text(m));
        total_by_last(messages, |m: MessageView| message_json(m));
    }
}

/// An image counts for a token to every 750 bytes, but for no fewer than 85 and no
/// more than 2048.
pub proof fn images_count_by_their_size(bytes: nat)
    ensures
        image_tokens(bytes) == (if bytes < 85 * 750 {
            85
        } else if bytes >= 2048 * 750 {
            2048
        } else {
            bytes / 750
        }),
{
}

proof fn lemma_unpadded(s: Seq<char>, n: nat)
    requires
        s.len() > 0 ==> s.last() != '=',
    ensures
        unpadded(s + Seq::new(n, |i: int| '=')) == s,
    decreases n,
{
    let pad = Seq::new(n, |i: int| '=');
    if n == 0 {
        assert(s + pad =~= s);
    } else {
        let fewer = Seq::new((n - 1) as nat, |i: int| '=');
        assert((s + pad).drop_last() =~= s + fewer);
        lemma_unpadded(s, (n - 1) as nat);
    }
}

/// Four characters of base64 stand for three bytes, and the padding for none.
pub proof fn padding_stands_for_nothing(s: Seq<char>, n: nat)
    requires
        s.len() > 0 ==> s.last() != '=',
    ensures
        decoded_size(s + Seq::new(n, |i: int| '=')) == 3 * s.len() / 4,
{
    lemma_unpadded(s, n);
}

/// The payload of a data address is what stands behind its first base64 mark; an
/// address that is none, or that has no such mark, has no payload.
pub proof fn payloads_stand_behind_their_mark(head: Seq<char>, payload: Seq<char>, url: Seq<char>)
    ensures
        occurs_at(head, "data:"@, 0) && (forall|i: int|
            i < head.len() ==> !(#[trigger] occurs_at(
                head + ";base64,"@ + payload,
                ";base64,"@,
                i,
            ))) ==> base64_payload(head + ";base64,"@ + payload) == Some(payload),
        !occurs_at(url, "data:"@, 0) ==> base64_payload(url) is None,
        (forall|i: int| !(#[trigger] occurs_at(url, ";base64,"@, i))) ==> base64_payload(url) is None,
{
    let mark = ";base64,"@;
    let all = head + mark + payload;
    lemma_find_from(all, mark, 0);
    lemma_find_from(url, mark, 0);
    if occurs_at(head, "data:"@, 0) && (forall|i: int|
        i < head.len() ==> !(#[trigger] occurs_at(all, mark, i))) {
        assert(all.subrange(head.len() as int, (head.len() + mark.len()) as int) =~= mark);
        assert(occurs_at(all, mark, head.len() as int));
        assert(find(all, mark) == Some(head.len()));
        assert(all.skip((head.len() + mark.len()) as int) =~= payload);
        assert(all.subrange(0, "data:"@.len() as int) =~= head.subrange(0, "data:"@.len() as int));
        assert(occurs_at(all, "data:"@, 0));
    }
}

/// Lengths can be counted exactly where neither sum is too large, and a percentage of
/// the window can be computed where the product is not.
pub proof fn lengths_are_counted_where_they_fit(messages: Seq<MessageView>, config: CompactConfig)
    ensures
        is_countable(messages) <==> total(messages, |m: MessageView| message_text(m)) <= usize::MAX
            && total(messages, |m: MessageView| message_json(m)) <= usize::MAX,
        threshold_fits(config) <==> (config.autocompact_threshold_pct is None
            || config.context_window * config.autocompact_threshold_pct->0 <= usize::MAX),
{
    estimates_count_every_block(messages);
}

} // verus!
