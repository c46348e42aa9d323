//! How a run goes on after each reply and each tool round.

use vstd::prelude::*;

use crate::engine::{EngineView, ResultView};
use crate::error::AgentError;
use crate::json::json_text;
use crate::message::{BlockView, Role, StopReason, TokenUsage};
use crate::rounds::{
    block_reason, block_reasons, called_name, closing_outputs, closing_results, executable_calls,
    pending_blocks, round_failure, shown_results, ResultOutputView,
};
use crate::run::{
    final_content, next_step, step_after_final, step_after_tools, step_after_turn, ActionView,
    FinalizationView, StepView,
};
use crate::sequences::{gathered, gathered_by_last, gathered_of_both, gathered_of_one, only_if};
use crate::stream::{assistant_content, OutcomeView, StreamOutcome};
use crate::text::{blank_texts_trim_to_nothing, decimal, is_blank, is_space, trim};
use crate::tool_call::{
    executable_count, failure_fingerprint, limit_exceeded, malformed_fingerprint, malformed_parts,
    malformed_reason, merged_modifiers, merged_results, observed, synthetic_result,
    FailurePartView, MalformedPartView, ToolCallMalformedReason, TrackerView,
};
use crate::turn::{
    action_matches, guards_after, reached, FinalizationReason, GuardsView, TurnGuardAction,
    TurnKind,
};

verus! {

broadcast use vstd::string::group_string_axioms;

/// The text shows something: it is not white space throughout.
pub open spec fn is_visible(s: Seq<char>) -> bool {
    exists|i: int| 0 <= i < s.len() && !is_space(#[trigger] s[i])
}

/// A reply with calls is recorded and followed by the execution of exactly its calls,
/// whatever text, thought or stop reason came with it.
pub proof fn calls_are_always_executed(outcome: StreamOutcome, turns: usize, usage: TokenUsage)
    requires
        outcome@.tool_calls.len() > 0,
    ensures
        step_after_turn(outcome, turns, usage) == (
            StepView {
                save: false,
                error: None,
                action: ActionView::ExecuteTools {
                    tool_calls: outcome@.tool_calls,
                    assistant_text: outcome@.assistant_text,
                },
            },
            true,
        ),
{
}

/// A reply without calls is followed by no execution. A visible text at the end of a
/// turn is the result of the run; a reply that was cut off is recorded and finished in
/// one more turn; one that says nothing is asked for once more and not recorded.
pub proof fn replies_without_calls_end_the_run(
    outcome: StreamOutcome,
    turns: usize,
    usage: TokenUsage,
)
    requires
        outcome@.tool_calls.len() == 0,
    ensures
        ({
            let (step, recorded) = step_after_turn(outcome, turns, usage);
            let text = outcome@.assistant_text;
            &&& !(step.action is ExecuteTools) && !(step.action is NormalTurn)
            &&& step.error is None
            &&& outcome@.stop_reason == StopReason::EndTurn && is_visible(text) ==> {
                &&& recorded && step.save
                &&& step.action == ActionView::Return(
                    ResultView { text, stop_reason: StopReason::EndTurn, usage, turns },
                )
            }
            &&& outcome@.stop_reason == StopReason::MaxTokens ==> {
                &&& recorded && !step.save
                &&& step.action == ActionView::FinalTurn(
                    FinalizationView {
                        reason: FinalizationReason::MaxTokens,
                        prefix_text: text,
                        fallback_stop_reason: StopReason::MaxTokens,
                    },
                )
            }
            &&& (outcome@.stop_reason == StopReason::EndTurn && !is_visible(text))
                || outcome@.stop_reason == StopReason::ToolUse || outcome@.stop_reason
                == StopReason::MaxTurns ==> {
                &&& !recorded && !step.save
                &&& step.action == ActionView::FinalTurn(
                    FinalizationView {
                        reason: FinalizationReason::EmptyFinal,
                        prefix_text: text,
                        fallback_stop_reason: StopReason::EndTurn,
                    },
                )
            }
        }),
{
    let text = outcome@.assistant_text;
    if is_visible(text) {
        let i = choose|i: int| 0 <= i < text.len() && !is_space(#[trigger] text[i]);
        assert(!is_blank(text));
    } else {
        assert(is_blank(text));
    }
}

/// A finalization that is answered in visible text and without calls ends the turn
/// with what was there before and the answer; any other keeps what text there is,
/// falls back on a text of its own where there is none, and says why.
pub proof fn finalizations_end_as_they_are_answered(
    f: FinalizationView,
    o: OutcomeView,
    turns: usize,
    usage: TokenUsage,
)
    ensures
        ({
            let step = step_after_final(f, o, turns, usage);
            let answered = o.tool_calls.len() == 0 && o.stop_reason == StopReason::EndTurn
                && is_visible(o.assistant_text);
            let told = f.prefix_text + o.assistant_text;
            let fallback = if f.reason == FinalizationReason::MaxTokens {
                "The response was cut off by the token limit and could not be completed automatically."@
            } else if f.reason == FinalizationReason::EmptyFinal {
                "The model finished without visible answer text after one retry."@
            } else {
                "Stopped after reaching the turn budget before the model produced a final answer."@
            };
            &&& step.save
            &&& answered ==> {
                &&& step.error is None
                &&& step.action == ActionView::Return(
                    ResultView { text: told, stop_reason: StopReason::EndTurn, usage, turns },
                )
                &&& final_content(f, o) == assistant_content(o)
            }
            &&& !answered ==> {
                let text = if is_visible(told) {
                    told
                } else {
                    fallback
                };
                &&& step.error == Some(fallback)
                &&& step.action == ActionView::Return(
                    ResultView { text, stop_reason: f.fallback_stop_reason, usage, turns },
                )
                &&& final_content(f, o) == seq![BlockView::Text { text }]
            }
        }),
{
    let told = f.prefix_text + o.assistant_text;
    lemma_visible(o.assistant_text);
    lemma_visible(told);
}

proof fn lemma_visible(s: Seq<char>)
    ensures
        is_visible(s) <==> !is_blank(s),
{
    if is_visible(s) {
        let i = choose|i: int| 0 <= i < s.len() && !is_space(#[trigger] s[i]);
        assert(!is_blank(s));
    } else {
        assert(is_blank(s));
    }
}

/// A tool round is always recorded. It fails the run exactly where a breaker trips,
/// the malformed one first, and names how often and how often it may.
pub proof fn breakers_fail_the_run(g: GuardsView, action: TurnGuardAction, usage: TokenUsage)
    requires
        action_matches(g, action),
    ensures
        ({
            let step = step_after_tools(g, action, usage);
            let malformed = g.malformed.limit > 0 && g.malformed.count >= g.malformed.limit;
            let failed = g.failures.limit > 0 && g.failures.count >= g.failures.limit;
            &&& step.save
            &&& malformed ==> (step.action matches ActionView::Fail(
                AgentError::ToolCallMalformed { count, limit },
            ) && count == g.malformed.count && limit == g.malformed.limit)
            &&& !malformed && failed ==> (step.action matches ActionView::Fail(
                AgentError::ToolCallFailures { count, limit },
            ) && count == g.failures.count && limit == g.failures.limit)
            &&& !malformed && !failed ==> !(step.action is Fail)
            &&& !malformed && !failed ==> step.action == next_step(g, usage).action && step.error
                == next_step(g, usage).error
        }),
{
}

/// What is recorded of a reply: its thought, if there is one or a signature for it,
/// then its text, if there is any, then its calls.
pub proof fn replies_are_recorded_whole(o: OutcomeView)
    requires
        forall|i: int| 0 <= i < o.tool_calls.len() ==> (#[trigger] o.tool_calls[i]) is ToolUse,
    ensures
        gathered(assistant_content(o), |b: BlockView| only_if(b is Text, b->Text_text)) == only_if(
            o.assistant_text.len() > 0,
            o.assistant_text,
        ),
        gathered(
            assistant_content(o),
            |b: BlockView| only_if(b is Thinking, (b->thinking, b->signature)),
        ) == only_if(
            o.thinking_text.len() > 0 || o.thinking_signature is Some,
            (o.thinking_text, o.thinking_signature),
        ),
        gathered(assistant_content(o), |b: BlockView| only_if(b is ToolUse, b)) == o.tool_calls,
        assistant_content(o).len() <= o.tool_calls.len() + 2,
        assistant_content(o).len() > o.tool_calls.len() + 1 ==> assistant_content(
            o,
        )[0] is Thinking,
{
    let text = |b: BlockView| only_if(b is Text, b->Text_text);
    let thought = |b: BlockView| only_if(b is Thinking, (b->thinking, b->signature));
    let call = |b: BlockView| only_if(b is ToolUse, b);
    let x = if o.thinking_text.len() > 0 || o.thinking_signature is Some {
        seq![BlockView::Thinking { thinking: o.thinking_text, signature: o.thinking_signature }]
    } else {
        Seq::empty()
    };
    let y = if o.assistant_text.len() > 0 {
        seq![BlockView::Text { text: o.assistant_text }]
    } else {
        Seq::empty()
    };
    let z = o.tool_calls;
    assert(assistant_content(o) == x + y + z);
    lemma_calls_only(z);
    gathered_of_both(x + y, z, text);
    gathered_of_both(x + y, z, thought);
    gathered_of_both(x + y, z, call);
    gathered_of_both(x, y, text);
    gathered_of_both(x, y, thought);
    gathered_of_both(x, y, call);
    if x.len() > 0 {
        gathered_of_one(x[0], text);
        gathered_of_one(x[0], thought);
        gathered_of_one(x[0], call);
    }
    if y.len() > 0 {
        gathered_of_one(y[0], text);
        gathered_of_one(y[0], thought);
        gathered_of_one(y[0], call);
    }
    assert(gathered(assistant_content(o), text) =~= only_if(
        o.assistant_text.len() > 0,
        o.assistant_text,
    ));
    assert(gathered(assistant_content(o), thought) =~= only_if(
        o.thinking_text.len() > 0 || o.thinking_signature is Some,
        (o.thinking_text, o.thinking_signature),
    ));
    assert(gathered(assistant_content(o), call) =~= z);
}

proof fn lemma_calls_only(z: Seq<BlockView>)
    requires
        forall|i: int| 0 <= i < z.len() ==> (#[trigger] z[i]) is ToolUse,
    ensures
        gathered(z, |b: BlockView| only_if(b is Text, b->Text_text)) == Seq::<Seq<char>>::empty(),
        gathered(z, |b: BlockView| only_if(b is Thinking, (b->thinking, b->signature))) == Seq::<
            (Seq<char>, Option<Seq<char>>),
        >::empty(),
        gathered(z, |b: BlockView| only_if(b is ToolUse, b)) == z,
    decreases z.len(),
{
    let text = |b: BlockView| only_if(b is Text, b->Text_text);
    let thought = |b: BlockView| only_if(b is Thinking, (b->thinking, b->signature));
    let call = |b: BlockView| only_if(b is ToolUse, b);
    if z.len() > 0 {
        let t = z.skip(1);
        assert forall|i: int| 0 <= i < t.len() implies (#[trigger] t[i]) is ToolUse by {
            assert(t[i] == z[i + 1]);
        }
        lemma_calls_only(t);
        assert(z[0] is ToolUse);
        assert(gathered(z, text) =~= Seq::empty());
        assert(gathered(z, thought) =~= Seq::empty());
        assert(gathered(z, call) =~= z);
    } else {
        assert(gathered(z, text) =~= Seq::empty());
        assert(gathered(z, thought) =~= Seq::empty());
        assert(gathered(z, call) =~= z);
    }
}

// ---------------------------------------------------------------------------
// Tool rounds
// ---------------------------------------------------------------------------

/// Exactly the calls with a visible name and a visible id are executed, in order.
pub proof fn complete_calls_are_executed(calls: Seq<BlockView>)
    requires
        forall|i: int| 0 <= i < calls.len() ==> (#[trigger] calls[i]) is ToolUse,
    ensures
        executable_calls(calls) == gathered(
            calls,
            |b: BlockView|
                only_if(is_visible(b->ToolUse_id) && is_visible(b->ToolUse_name), b),
        ),
    decreases calls.len(),
{
    let pick = |b: BlockView|
        only_if(is_visible(b->ToolUse_id) && is_visible(b->ToolUse_name), b);
    if calls.len() > 0 {
        let front = calls.drop_last();
        let b = calls[calls.len() - 1];
        assert forall|i: int| 0 <= i < front.len() implies (#[trigger] front[i]) is ToolUse by {
            assert(front[i] == calls[i]);
        }
        complete_calls_are_executed(front);
        gathered_by_last(calls, pick);
        lemma_visible(b->ToolUse_id);
        lemma_visible(b->ToolUse_name);
        assert(executable_calls(calls) =~= executable_calls(front) + pick(b));
    } else {
        assert(executable_calls(calls) =~= gathered(calls, pick));
    }
}

/// The answer to a call that cannot be executed: an error under its own id that says
/// what is missing.
pub proof fn malformed_calls_are_answered_with_errors(id: Seq<char>, name: Seq<char>)
    requires
        !is_visible(id) || !is_visible(name),
    ensures
        malformed_reason(id, name) == Some(
            if !is_visible(name) {
                ToolCallMalformedReason::EmptyFunctionName
            } else {
                ToolCallMalformedReason::EmptyToolCallId
            },
        ),
        synthetic_result(id, malformed_reason(id, name).unwrap()) == (BlockView::ToolResult {
            tool_use_id: id,
            content: if !is_visible(name) {
                "Malformed tool call: "@ + "empty function name"@
                    + ". Re-issue the tool call with a non-empty "@ + "function name"@
                    + " if still needed, or answer in text."@
            } else {
                "Malformed tool call: "@ + "empty tool call id"@
                    + ". Re-issue the tool call with a non-empty "@ + "tool call id"@
                    + " if still needed, or answer in text."@
            },
            is_error: true,
        }),
{
    lemma_visible(id);
    lemma_visible(name);
}

/// The results of a round, less those of calls that cannot be executed, are the
/// executed results in order.
pub proof fn executed_results_come_back_in_order(
    calls: Seq<BlockView>,
    reasons: Seq<Option<ToolCallMalformedReason>>,
    executed: Seq<BlockView>,
    n: nat,
)
    requires
        n <= calls.len(),
        n <= reasons.len(),
        forall|i: int| 0 <= i < calls.len() ==> (#[trigger] calls[i]) is ToolUse,
        executable_count(reasons, n) <= executed.len(),
    ensures
        merged_results(calls, reasons, executed, n).len() == n,
        executed_among(merged_results(calls, reasons, executed, n), reasons, n) == executed.take(
            executable_count(reasons, n) as int,
        ),
    decreases n,
{
    if n > 0 {
        executed_results_come_back_in_order(calls, reasons, executed, (n - 1) as nat);
        let before = merged_results(calls, reasons, executed, (n - 1) as nat);
        let after = merged_results(calls, reasons, executed, n);
        assert(calls[n - 1] is ToolUse);
        assert(after.drop_last() =~= before);
        lemma_executed_among_prefix(after, before, reasons, (n - 1) as nat);
        let k = executable_count(reasons, (n - 1) as nat);
        if reasons[n - 1] is None {
            assert(executed.take((k + 1) as int) =~= executed.take(k as int).push(executed[k as int]));
        }
    } else {
        assert(executed.take(0) =~= Seq::empty());
    }
}

/// The results among the first `n` that belong to calls that could be executed.
pub open spec fn executed_among(
    results: Seq<BlockView>,
    reasons: Seq<Option<ToolCallMalformedReason>>,
    n: nat,
) -> Seq<BlockView>
    decreases n,
{
    if n == 0 {
        Seq::empty()
    } else {
        executed_among(results, reasons, (n - 1) as nat) + only_if(
            reasons[n - 1] is None,
            results[n - 1],
        )
    }
}

proof fn lemma_executed_among_prefix(
    a: Seq<BlockView>,
    b: Seq<BlockView>,
    reasons: Seq<Option<ToolCallMalformedReason>>,
    n: nat,
)
    requires
        n <= a.len(),
        n <= b.len(),
        forall|i: int| 0 <= i < n ==> a[i] == b[i],
    ensures
        executed_among(a, reasons, n) == executed_among(b, reasons, n),
    decreases n,
{
    if n > 0 {
        lemma_executed_among_prefix(a, b, reasons, (n - 1) as nat);
    }
}

/// The name of the call that a result answers: of the first with its id.
pub open spec fn is_name_of(calls: Seq<BlockView>, id: Seq<char>, name: Seq<char>) -> bool {
    if exists|k: int| 0 <= k < calls.len() && (#[trigger] calls[k]) is ToolUse && calls[k]->ToolUse_id
        == id {
        exists|k: int|
            0 <= k < calls.len() && (#[trigger] calls[k]) is ToolUse && calls[k]->ToolUse_id == id
                && calls[k]->ToolUse_name == name && forall|j: int|
                0 <= j < k ==> !((#[trigger] calls[j]) is ToolUse && calls[j]->ToolUse_id == id)
    } else {
        name == "unknown"@
    }
}

proof fn lemma_called_name(calls: Seq<BlockView>, id: Seq<char>, i: nat)
    requires
        forall|j: int|
            0 <= j < i && j < calls.len() ==> !((#[trigger] calls[j]) is ToolUse
                && calls[j]->ToolUse_id == id),
    ensures
        is_name_of(calls, id, called_name(calls, id, i)),
    decreases calls.len() - i,
{
    if i < calls.len() {
        let c = calls[i as int];
        if !(c is ToolUse && c->ToolUse_id == id) {
            lemma_called_name(calls, id, i + 1);
        }
    }
}

/// Every result is shown, in order, with its own content, as an error where it is one,
/// and under the name of the call that it answers.
pub proof fn results_are_shown_as_they_are(calls: Seq<BlockView>, results: Seq<BlockView>)
    requires
        forall|i: int| 0 <= i < results.len() ==> (#[trigger] results[i]) is ToolResult,
    ensures
        shown_results(calls, results).len() == results.len(),
        forall|i: int|
            0 <= i < results.len() ==> {
                let shown = #[trigger] shown_results(calls, results)[i];
                &&& shown.tool_use_id == results[i]->ToolResult_tool_use_id
                &&& shown.content == results[i]->ToolResult_content
                &&& shown.is_error == results[i]->ToolResult_is_error
                &&& is_name_of(calls, shown.tool_use_id, shown.tool_name)
            },
    decreases results.len(),
{
    if results.len() > 0 {
        let front = results.drop_last();
        assert forall|i: int| 0 <= i < front.len() implies (#[trigger] front[i]) is ToolResult by {
            assert(front[i] == results[i]);
        }
        results_are_shown_as_they_are(calls, front);
        let r = results[results.len() - 1];
        assert(r is ToolResult);
        lemma_called_name(calls, r->ToolResult_tool_use_id, 0);
        assert forall|i: int| 0 <= i < results.len() implies {
            let shown = #[trigger] shown_results(calls, results)[i];
            &&& shown.tool_use_id == results[i]->ToolResult_tool_use_id
            &&& shown.content == results[i]->ToolResult_content
            &&& shown.is_error == results[i]->ToolResult_is_error
            &&& is_name_of(calls, shown.tool_use_id, shown.tool_name)
        } by {
            if i < front.len() {
                assert(shown_results(calls, results)[i] == shown_results(calls, front)[i]);
            }
        }
    }
}

/// Giving up a round answers each of its calls with the reason as an error, and shows
/// that under the name of the call.
pub proof fn given_up_calls_are_answered_with_the_reason(blocks: Seq<BlockView>, reason: Seq<char>)
    ensures
        closing_results(blocks, reason) == gathered(
            blocks,
            |b: BlockView|
                only_if(
                    b is ToolUse,
                    BlockView::ToolResult {
                        tool_use_id: b->ToolUse_id,
                        content: reason,
                        is_error: true,
                    },
                ),
        ),
        closing_outputs(blocks, reason) == gathered(
            blocks,
            |b: BlockView|
                only_if(
                    b is ToolUse,
                    ResultOutputView {
                        tool_use_id: b->ToolUse_id,
                        tool_name: b->ToolUse_name,
                        is_error: true,
                        content: reason,
                    },
                ),
        ),
    decreases blocks.len(),
{
    let answer = |b: BlockView|
        only_if(
            b is ToolUse,
            BlockView::ToolResult { tool_use_id: b->ToolUse_id, content: reason, is_error: true },
        );
    let show = |b: BlockView|
        only_if(
            b is ToolUse,
            ResultOutputView {
                tool_use_id: b->ToolUse_id,
                tool_name: b->ToolUse_name,
                is_error: true,
                content: reason,
            },
        );
    if blocks.len() > 0 {
        let front = blocks.drop_last();
        given_up_calls_are_answered_with_the_reason(front, reason);
        gathered_by_last(blocks, answer);
        gathered_by_last(blocks, show);
        assert(closing_results(blocks, reason) =~= gathered(blocks, answer));
        assert(closing_outputs(blocks, reason) =~= gathered(blocks, show));
    } else {
        assert(closing_results(blocks, reason) =~= gathered(blocks, answer));
        assert(closing_outputs(blocks, reason) =~= gathered(blocks, show));
    }
}

proof fn lemma_malformed_parts(calls: Seq<BlockView>, n: nat)
    requires
        n <= calls.len(),
        forall|i: int| 0 <= i < n ==> (#[trigger] calls[i]) is ToolUse,
        forall|i: int| 0 <= i < n ==> block_reasons(calls)[i] is Some,
    ensures
        malformed_parts(calls, block_reasons(calls), n).len() == n,
        forall|i: int|
            0 <= i < n ==> {
                let part = #[trigger] malformed_parts(calls, block_reasons(calls), n)[i];
                &&& Some(part.reason) == malformed_reason(
                    calls[i]->ToolUse_id,
                    calls[i]->ToolUse_name,
                )
                &&& part.id == trim(calls[i]->ToolUse_id)
                &&& part.name == trim(calls[i]->ToolUse_name)
                &&& part.input == json_text(calls[i]->ToolUse_input)
            },
    decreases n,
{
    if n > 0 {
        lemma_malformed_parts(calls, (n - 1) as nat);
        assert(calls[n - 1] is ToolUse);
        assert(block_reasons(calls)[n - 1] is Some);
    }
}

/// A round counts as malformed exactly where it has calls and none can be executed,
/// and two such rounds count as the same exactly where their calls have the same
/// ids, names and inputs, white space at the ends aside.
pub proof fn malformed_rounds_are_told_apart(a: Seq<BlockView>, b: Seq<BlockView>)
    requires
        forall|i: int| 0 <= i < a.len() ==> (#[trigger] a[i]) is ToolUse,
        forall|i: int| 0 <= i < b.len() ==> (#[trigger] b[i]) is ToolUse,
    ensures
        malformed_fingerprint(a, block_reasons(a)) is Some <==> a.len() > 0 && executable_calls(
            a,
        ).len() == 0,
        malformed_fingerprint(a, block_reasons(a)) is Some && malformed_fingerprint(
            b,
            block_reasons(b),
        ) is Some ==> (malformed_fingerprint(a, block_reasons(a)) == malformed_fingerprint(
            b,
            block_reasons(b),
        ) <==> a.len() == b.len() && forall|i: int|
            0 <= i < a.len() ==> {
                &&& trim((#[trigger] a[i])->ToolUse_id) == trim(b[i]->ToolUse_id)
                &&& trim(a[i]->ToolUse_name) == trim(b[i]->ToolUse_name)
                &&& json_text(a[i]->ToolUse_input) == json_text(b[i]->ToolUse_input)
            }),
{
    lemma_none_executable(a, a.len());
    let ra = block_reasons(a);
    let rb = block_reasons(b);
    assert(a.take(a.len() as int) =~= a);
    if a.len() > 0 && executable_calls(a).len() == 0 {
        assert forall|i: int| 0 <= i < ra.len() implies (#[trigger] ra[i]) is Some by {}
    }
    let fa = malformed_fingerprint(a, ra);
    let fb = malformed_fingerprint(b, rb);
    if fa is Some && fb is Some {
        assert forall|i: int| 0 <= i < a.len() implies ra[i] is Some by {
            assert(ra[i] is Some);
        }
        assert forall|i: int| 0 <= i < b.len() implies rb[i] is Some by {
            assert(rb[i] is Some);
        }
        lemma_malformed_parts(a, a.len());
        lemma_malformed_parts(b, b.len());
        let x = fa.unwrap();
        let y = fb.unwrap();
        if fa == fb {
            assert forall|i: int| 0 <= i < a.len() implies {
                &&& trim((#[trigger] a[i])->ToolUse_id) == trim(b[i]->ToolUse_id)
                &&& trim(a[i]->ToolUse_name) == trim(b[i]->ToolUse_name)
                &&& json_text(a[i]->ToolUse_input) == json_text(b[i]->ToolUse_input)
            } by {
                assert(x[i] == y[i]);
            }
        }
        if a.len() == b.len() && forall|i: int|
            0 <= i < a.len() ==> {
                &&& trim((#[trigger] a[i])->ToolUse_id) == trim(b[i]->ToolUse_id)
                &&& trim(a[i]->ToolUse_name) == trim(b[i]->ToolUse_name)
                &&& json_text(a[i]->ToolUse_input) == json_text(b[i]->ToolUse_input)
            } {
            assert forall|i: int| 0 <= i < x.len() implies x[i] == y[i] by {
                assert(trim(a[i]->ToolUse_id) == trim(b[i]->ToolUse_id));
                blank_texts_trim_to_nothing(a[i]->ToolUse_id);
                blank_texts_trim_to_nothing(b[i]->ToolUse_id);
                blank_texts_trim_to_nothing(a[i]->ToolUse_name);
                blank_texts_trim_to_nothing(b[i]->ToolUse_name);
            }
            assert(x =~= y);
        }
    }
}

proof fn lemma_none_executable(calls: Seq<BlockView>, n: nat)
    requires
        n <= calls.len(),
    ensures
        executable_calls(calls.take(n as int)).len() == 0 <==> forall|i: int|
            0 <= i < n ==> (#[trigger] block_reasons(calls)[i]) is Some,
    decreases n,
{
    if n > 0 {
        lemma_none_executable(calls, (n - 1) as nat);
        let prefix = calls.take(n as int);
        assert(prefix.drop_last() =~= calls.take(n - 1));
        assert(prefix.last() == calls[n - 1]);
        assert(block_reasons(calls)[n - 1] == block_reason(calls[n - 1]));
    } else {
        assert(calls.take(0) =~= Seq::empty());
    }
}

proof fn lemma_failure_parts(calls: Seq<BlockView>)
    requires
        failure_fingerprint(calls) is Some,
        forall|i: int| 0 <= i < calls.len() ==> (#[trigger] calls[i]) is ToolUse,
    ensures
        failure_fingerprint(calls)->0.len() == calls.len(),
        forall|i: int|
            0 <= i < calls.len() ==> {
                let part = #[trigger] failure_fingerprint(calls)->0[i];
                &&& part.name == trim(calls[i]->ToolUse_name)
                &&& part.input == json_text(calls[i]->ToolUse_input)
            },
{
    assert forall|i: int| 0 <= i < calls.len() implies {
        let part = #[trigger] failure_fingerprint(calls)->0[i];
        &&& part.name == trim(calls[i]->ToolUse_name)
        &&& part.input == json_text(calls[i]->ToolUse_input)
    } by {
        assert(calls[i] is ToolUse);
    }
}

/// A round counts as failed exactly where some call could be executed, nothing
/// visible was said, and all that came back were errors; and two such rounds count as
/// the same exactly where their calls have the same names and inputs, white space at
/// the ends of names aside.
pub proof fn failed_rounds_are_told_apart(
    a: Seq<BlockView>,
    b: Seq<BlockView>,
    text: Seq<char>,
    results: Seq<BlockView>,
)
    requires
        forall|i: int| 0 <= i < a.len() ==> (#[trigger] a[i]) is ToolUse,
        forall|i: int| 0 <= i < b.len() ==> (#[trigger] b[i]) is ToolUse,
    ensures
        round_failure(a, text, results) is Some <==> {
            &&& executable_calls(a).len() > 0
            &&& !is_visible(text)
            &&& results.len() > 0
            &&& forall|i: int|
                0 <= i < results.len() ==> (#[trigger] results[i]) is ToolResult
                    && results[i]->ToolResult_is_error
        },
        round_failure(a, text, results) is Some && round_failure(b, text, results) is Some ==> (
        round_failure(a, text, results) == round_failure(b, text, results) <==> a.len() == b.len()
            && forall|i: int|
            0 <= i < a.len() ==> {
                &&& trim((#[trigger] a[i])->ToolUse_name) == trim(b[i]->ToolUse_name)
                &&& json_text(a[i]->ToolUse_input) == json_text(b[i]->ToolUse_input)
            }),
{
    malformed_rounds_are_told_apart(a, b);
    lemma_visible(text);
    if a.len() == 0 {
        assert(executable_calls(a).len() == 0);
    }
    let fa = round_failure(a, text, results);
    let fb = round_failure(b, text, results);
    if fa is Some && fb is Some {
        let x = fa.unwrap();
        let y = fb.unwrap();
        lemma_failure_parts(a);
        lemma_failure_parts(b);
        if fa == fb {
            assert forall|i: int| 0 <= i < a.len() implies {
                &&& trim((#[trigger] a[i])->ToolUse_name) == trim(b[i]->ToolUse_name)
                &&& json_text(a[i]->ToolUse_input) == json_text(b[i]->ToolUse_input)
            } by {
                assert(x[i] == y[i]);
            }
        }
        if a.len() == b.len() && forall|i: int|
            0 <= i < a.len() ==> {
                &&& trim((#[trigger] a[i])->ToolUse_name) == trim(b[i]->ToolUse_name)
                &&& json_text(a[i]->ToolUse_input) == json_text(b[i]->ToolUse_input)
            } {
            assert forall|i: int| 0 <= i < x.len() implies x[i] == y[i] by {
                assert(trim(a[i]->ToolUse_name) == trim(b[i]->ToolUse_name));
            }
            assert(x =~= y);
        }
    }
}

/// Modifiers come back beside the results that they belong to: those of executed calls
/// in order, and none for the calls that could not be executed.
pub proof fn modifiers_stand_beside_their_results<M>(
    calls: Seq<BlockView>,
    reasons: Seq<Option<ToolCallMalformedReason>>,
    executed: Seq<Option<M>>,
    n: nat,
    i: int,
)
    requires
        n <= calls.len(),
        n <= reasons.len(),
        forall|k: int| 0 <= k < calls.len() ==> (#[trigger] calls[k]) is ToolUse,
        0 <= i < n,
    ensures
        merged_modifiers(calls, reasons, executed, n).len() == n,
        merged_modifiers(calls, reasons, executed, n)[i] == (if reasons[i] is Some {
            None
        } else {
            executed[executable_count(reasons, i as nat) as int]
        }),
    decreases n,
{
    assert(calls[n - 1] is ToolUse);
    if i < n - 1 {
        modifiers_stand_beside_their_results(calls, reasons, executed, (n - 1) as nat, i);
    } else if n > 1 {
        modifiers_stand_beside_their_results(calls, reasons, executed, (n - 1) as nat, 0);
    } else {
        assert(merged_modifiers(calls, reasons, executed, 0).len() == 0);
    }
}

/// Only the calls of an assistant message that stands last are given up.
pub proof fn only_the_last_reply_is_given_up(e: EngineView)
    ensures
        e.messages.len() == 0 ==> pending_blocks(e).len() == 0,
        e.messages.len() > 0 && e.messages[e.messages.len() - 1].role != Role::Assistant
            ==> pending_blocks(e).len() == 0,
        e.messages.len() > 0 && e.messages[e.messages.len() - 1].role == Role::Assistant
            ==> pending_blocks(e) == e.messages[e.messages.len() - 1].content,
{
}

// ---------------------------------------------------------------------------
// When to stop
// ---------------------------------------------------------------------------

/// A breaker counts the rounds in a row that look the same: one that looks like none
/// sets it back, one that looks like another starts it anew, and it trips once the
/// count has come to a limit above zero.
pub proof fn breakers_count_rounds_in_a_row<F>(t: TrackerView<F>, seen: Option<F>)
    ensures
        observed(t, seen).limit == t.limit,
        observed(t, seen).last == seen,
        seen is None ==> observed(t, seen).count == 0,
        seen is Some && seen != t.last ==> observed(t, seen).count == 1,
        seen is Some && seen == t.last ==> observed(t, seen).count == t.count + 1,
        limit_exceeded(t) <==> t.limit != 0 && t.count >= t.limit,
{
}

/// A round is shown to the breaker for malformed calls, and where that does not trip
/// to the breaker for failures; the turns stay counted.
pub proof fn each_breaker_sees_its_rounds(
    g: GuardsView,
    malformed: Option<Seq<MalformedPartView>>,
    failure: Option<Seq<FailurePartView>>,
)
    ensures
        ({
            let after = guards_after(g, malformed, failure);
            let trips = observed(g.malformed, malformed).limit != 0 && observed(
                g.malformed,
                malformed,
            ).count >= observed(g.malformed, malformed).limit;
            &&& after.turns == g.turns
            &&& after.max_turns == g.max_turns
            &&& after.malformed == observed(g.malformed, malformed)
            &&& after.failures == (if trips {
                g.failures
            } else {
                observed(g.failures, failure)
            })
        }),
{
}

/// The turn budget is spent once as many turns were counted as it allows.
pub proof fn budgets_are_spent_turn_by_turn(g: GuardsView, usage: TokenUsage)
    ensures
        reached(g.turns, None) is None,
        forall|limit: usize| #[trigger]
            reached(g.turns, Some(limit)) == (if g.turns < limit {
                None
            } else {
                Some(limit)
            }),
        g.max_turns matches Some(limit) ==> (g.turns >= limit ==> next_step(g, usage) == (StepView {
            save: true,
            error: Some(
                "Stopped after reaching the turn budget (max_turns="@ + decimal(limit as nat)
                    + "); the task did not converge. Try adjusting the request or retrying."@,
            ),
            action: ActionView::Return(
                ResultView {
                    text: Seq::empty(),
                    stop_reason: StopReason::MaxTurns,
                    usage,
                    turns: g.turns,
                },
            ),
        })),
        (g.max_turns matches Some(limit) ==> g.turns < limit) ==> next_step(g, usage) == (StepView {
            save: false,
            error: None,
            action: ActionView::NormalTurn,
        }),
{
}

/// Each way to finish asks for it in its own words and has its own words to fall back
/// on.
pub proof fn finishing_has_its_own_words()
    ensures
        TurnKind::Normal.control_text() is None,
        TurnKind::Finalization(FinalizationReason::TurnBudget).control_text() == Some(
            "Do not call any more tools. Use the tool results already provided and give the final answer now."@,
        ),
        TurnKind::Finalization(FinalizationReason::MaxTokens).control_text() == Some(
            "The previous response was cut off by the token limit. Finish the answer now. Do not call any tools."@,
        ),
        TurnKind::Finalization(FinalizationReason::EmptyFinal).control_text() == Some(
            "The previous assistant response finished without visible answer text. Provide a concise visible answer now. Do not send reasoning only. Do not call any tools."@,
        ),
        FinalizationReason::TurnBudget.fallback_text()
            == "Stopped after reaching the turn budget before the model produced a final answer."@,
        FinalizationReason::MaxTokens.fallback_text()
            == "The response was cut off by the token limit and could not be completed automatically."@,
        FinalizationReason::EmptyFinal.fallback_text()
            == "The model finished without visible answer text after one retry."@,
{
}

} // verus!
