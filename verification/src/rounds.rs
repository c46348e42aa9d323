//! Rounds of tool calls: what to execute, what came of it, and how it is told.

use vstd::prelude::*;

use crate::engine::{appended, AgentEngine, EngineView};
use crate::message::{block_views, BlockView, ContentBlock, Role};
use crate::text::{blank, copy_text, is_blank, str_eq};
use crate::tool_call::{
    executable_count, failure_fingerprint, failure_view, malformed_fingerprint, malformed_reason,
    malformed_view, merge_tool_results, merged_modifiers, merged_results, results_align_with_calls,
    synthetic_result, tool_call_failure_fingerprint, tool_call_malformed_fingerprint,
    tool_call_malformed_reason, ContextModifier, FailurePartView, ToolCallFailureFingerprint,
    ToolCallMalformedFingerprint, ToolCallMalformedReason,
};

verus! {

broadcast use vstd::string::group_string_axioms;

// ---------------------------------------------------------------------------
// Model
// ---------------------------------------------------------------------------

/// Why a block of a reply cannot be executed, if it cannot.
pub open spec fn block_reason(b: BlockView) -> Option<ToolCallMalformedReason> {
    match b {
        BlockView::ToolUse { id, name, .. } => malformed_reason(id, name),
        _ => None,
    }
}

pub open spec fn block_reasons(calls: Seq<BlockView>) -> Seq<Option<ToolCallMalformedReason>> {
    Seq::new(calls.len(), |i: int| block_reason(calls[i]))
}

/// The calls that can be executed, in order.
pub open spec fn executable_calls(calls: Seq<BlockView>) -> Seq<BlockView>
    decreases calls.len(),
{
    if calls.len() == 0 {
        Seq::empty()
    } else {
        let rest = executable_calls(calls.drop_last());
        if block_reason(calls.last()) is None {
            rest.push(calls.last())
        } else {
            rest
        }
    }
}

/// Every result is an error.
pub open spec fn all_errors(results: Seq<BlockView>) -> bool {
    forall|i: int|
        0 <= i < results.len() ==> ((#[trigger] results[i]) matches BlockView::ToolResult {
            is_error,
            ..
        } && is_error)
}

/// The pattern of a round that failed silently: not all calls were malformed,
/// nothing was said, and all that came back were errors.
pub open spec fn round_failure(
    calls: Seq<BlockView>,
    assistant_text: Seq<char>,
    results: Seq<BlockView>,
) -> Option<Seq<FailurePartView>> {
    if malformed_fingerprint(calls, block_reasons(calls)) is None && is_blank(assistant_text)
        && results.len() > 0 && all_errors(results) {
        failure_fingerprint(calls)
    } else {
        None
    }
}

/// A round needs one executed result for each executable call.
pub proof fn executable_calls_are_counted(calls: Seq<BlockView>)
    ensures
        executable_calls(calls).len() == executable_count(block_reasons(calls), calls.len()),
    decreases calls.len(),
{
    if calls.len() > 0 {
        let front = calls.drop_last();
        executable_calls_are_counted(front);
        lemma_count_prefix(block_reasons(front), block_reasons(calls), front.len());
    }
}

proof fn lemma_count_prefix(
    a: Seq<Option<ToolCallMalformedReason>>,
    b: Seq<Option<ToolCallMalformedReason>>,
    n: nat,
)
    requires
        n <= a.len(),
        n <= b.len(),
        forall|i: int| 0 <= i < n ==> a[i] == b[i],
    ensures
        executable_count(a, n) == executable_count(b, n),
    decreases n,
{
    if n > 0 {
        lemma_count_prefix(a, b, (n - 1) as nat);
    }
}

// ---------------------------------------------------------------------------
// Executable
// ---------------------------------------------------------------------------

/// What to execute in a round.
#[derive(Debug)]
pub struct ToolRoundPlan {
    pub tool_call_malformed_reasons: Vec<Option<ToolCallMalformedReason>>,
    pub tool_call_malformed_fingerprint: Option<ToolCallMalformedFingerprint>,
    pub executable_tool_calls: Vec<ContentBlock>,
}

/// Result of running one model turn's tool calls: the per-call results and
/// skill modifiers (aligned 1:1 with the originating `tool_calls`), plus the
/// loop-guard signals derived from this round.
#[derive(Debug)]
pub struct ToolRoundOutput {
    pub tool_results: Vec<ContentBlock>,
    pub tool_modifiers: Vec<Option<ContextModifier>>,
    /// `Some` only when every tool call in the round was malformed; feeds the
    /// tool-call-malformed breaker.
    pub tool_call_malformed_fingerprint: Option<ToolCallMalformedFingerprint>,
    /// `Some` when this round produced executable (non-malformed) tool calls
    /// with the same name+input pattern, all errored, and the model emitted no
    /// visible text; feeds the consecutive-tool-call-failure breaker.
    pub tool_call_failure_fingerprint: Option<ToolCallFailureFingerprint>,
}

/// Classify one model turn's tool calls: malformed calls get synthetic error
/// results, the rest are to be executed.
pub fn plan_tool_round(tool_calls: &Vec<ContentBlock>) -> (r: ToolRoundPlan)
    ensures
        r.tool_call_malformed_reasons@ == block_reasons(block_views(tool_calls@)),
        malformed_view(r.tool_call_malformed_fingerprint) == malformed_fingerprint(
            block_views(tool_calls@),
            block_reasons(block_views(tool_calls@)),
        ),
        block_views(r.executable_tool_calls@) == executable_calls(block_views(tool_calls@)),
{
    let ghost all = block_views(tool_calls@);
    let mut reasons: Vec<Option<ToolCallMalformedReason>> = Vec::new();
    let mut executable: Vec<ContentBlock> = Vec::new();
    assert(block_views(executable@) =~= executable_calls(all.take(0)));
    for i in 0..tool_calls.len()
        invariant
            all == block_views(tool_calls@),
            reasons@.len() == i,
            forall|j: int| 0 <= j < i ==> reasons@[j] == block_reason(all[j]),
            block_views(executable@) == executable_calls(all.take(i as int)),
    {
        assert(all.take(i + 1).drop_last() =~= all.take(i as int));
        assert(all.take(i + 1).last() == tool_calls@[i as int]@);
        let reason = match &tool_calls[i] {
            ContentBlock::ToolUse { id, name, .. } => tool_call_malformed_reason(
                id.as_str(),
                name.as_str(),
            ),
            _ => None,
        };
        if reason.is_none() {
            let ghost before = block_views(executable@);
            let call = tool_calls[i].clone();
            executable.push(call);
            assert(block_views(executable@) =~= before.push(call@));
        }
        reasons.push(reason);
    }
    assert(all.take(all.len() as int) =~= all);
    assert(reasons@ =~= block_reasons(all));
    let tool_call_malformed_fingerprint = tool_call_malformed_fingerprint(
        tool_calls.as_slice(),
        reasons.as_slice(),
    );
    ToolRoundPlan {
        tool_call_malformed_reasons: reasons,
        tool_call_malformed_fingerprint,
        executable_tool_calls: executable,
    }
}

fn only_errors(results: &Vec<ContentBlock>) -> (r: bool)
    ensures
        r == all_errors(block_views(results@)),
{
    let ghost all = block_views(results@);
    for i in 0..results.len()
        invariant
            all == block_views(results@),
            forall|j: int|
                0 <= j < i ==> ((#[trigger] all[j]) matches BlockView::ToolResult {
                    is_error,
                    ..
                } && is_error),
    {
        let failed = match &results[i] {
            ContentBlock::ToolResult { is_error, .. } => *is_error,
            _ => false,
        };
        if !failed {
            assert(!(all[i as int] matches BlockView::ToolResult { is_error, .. } && is_error));
            return false;
        }
    }
    true
}

/// Put the results of a round in the order of its calls, and see what they mean
/// for the breakers. `assistant_text` is the visible text from the same turn.
pub fn finish_tool_round(
    tool_calls: &Vec<ContentBlock>,
    assistant_text: &str,
    plan: ToolRoundPlan,
    executable_results: Vec<ContentBlock>,
    executable_modifiers: Vec<Option<ContextModifier>>,
) -> (r: ToolRoundOutput)
    requires
        plan.tool_call_malformed_reasons@ == block_reasons(block_views(tool_calls@)),
        malformed_view(plan.tool_call_malformed_fingerprint) == malformed_fingerprint(
            block_views(tool_calls@),
            block_reasons(block_views(tool_calls@)),
        ),
        executable_calls(block_views(tool_calls@)).len() <= executable_results@.len(),
        executable_calls(block_views(tool_calls@)).len() <= executable_modifiers@.len(),
    ensures
        ({
            let calls = block_views(tool_calls@);
            let reasons = block_reasons(calls);
            &&& block_views(r.tool_results@) == merged_results(
                calls,
                reasons,
                block_views(executable_results@),
                calls.len(),
            )
            &&& r.tool_modifiers@ == merged_modifiers(
                calls,
                reasons,
                executable_modifiers@,
                calls.len(),
            )
            &&& malformed_view(r.tool_call_malformed_fingerprint) == malformed_fingerprint(
                calls,
                reasons,
            )
            &&& failure_view(r.tool_call_failure_fingerprint) == round_failure(
                calls,
                assistant_text@,
                block_views(r.tool_results@),
            )
        }),
{
    proof {
        executable_calls_are_counted(block_views(tool_calls@));
    }
    let (tool_results, tool_modifiers) = merge_tool_results(
        tool_calls.as_slice(),
        plan.tool_call_malformed_reasons.as_slice(),
        executable_results,
        executable_modifiers,
    );
    let failed = plan.tool_call_malformed_fingerprint.is_none() && blank(assistant_text)
        && tool_results.len() > 0 && only_errors(&tool_results);
    let tool_call_failure_fingerprint = if failed {
        tool_call_failure_fingerprint(tool_calls.as_slice())
    } else {
        None
    };
    ToolRoundOutput {
        tool_results,
        tool_modifiers,
        tool_call_malformed_fingerprint: plan.tool_call_malformed_fingerprint,
        tool_call_failure_fingerprint,
    }
}

// ---------------------------------------------------------------------------
// Telling the results
// ---------------------------------------------------------------------------

/// A tool result to show.
#[derive(Debug)]
pub struct ToolResultOutput {
    pub tool_use_id: String,
    pub tool_name: String,
    pub is_error: bool,
    pub content: String,
}

#[verifier::ext_equal]
pub struct ResultOutputView {
    pub tool_use_id: Seq<char>,
    pub tool_name: Seq<char>,
    pub is_error: bool,
    pub content: Seq<char>,
}

impl ToolResultOutput {
    pub open spec fn view(&self) -> ResultOutputView {
        ResultOutputView {
            tool_use_id: self.tool_use_id@,
            tool_name: self.tool_name@,
            is_error: self.is_error,
            content: self.content@,
        }
    }
}

pub open spec fn result_output_views(outputs: Seq<ToolResultOutput>) -> Seq<ResultOutputView> {
    Seq::new(outputs.len(), |i: int| outputs[i]@)
}

/// The name of the first call at or after `i` under an id, `unknown` where there
/// is none.
pub open spec fn called_name(calls: Seq<BlockView>, id: Seq<char>, i: nat) -> Seq<char>
    decreases calls.len() - i,
{
    if i >= calls.len() {
        "unknown"@
    } else {
        match calls[i as int] {
            BlockView::ToolUse { id: called, name, .. } => if called == id {
                name
            } else {
                called_name(calls, id, i + 1)
            },
            _ => called_name(calls, id, i + 1),
        }
    }
}

/// What is shown of some results.
pub open spec fn shown_results(calls: Seq<BlockView>, results: Seq<BlockView>) -> Seq<
    ResultOutputView,
>
    decreases results.len(),
{
    if results.len() == 0 {
        Seq::empty()
    } else {
        let rest = shown_results(calls, results.drop_last());
        match results.last() {
            BlockView::ToolResult { tool_use_id, content, is_error } => rest.push(
                ResultOutputView {
                    tool_use_id,
                    tool_name: called_name(calls, tool_use_id, 0),
                    is_error,
                    content,
                },
            ),
            _ => rest,
        }
    }
}

fn find_called_name(calls: &Vec<ContentBlock>, id: &str) -> (r: String)
    ensures
        r@ == called_name(block_views(calls@), id@, 0),
{
    let ghost all = block_views(calls@);
    for i in 0..calls.len()
        invariant
            all == block_views(calls@),
            called_name(all, id@, 0) == called_name(all, id@, i as nat),
    {
        if let ContentBlock::ToolUse { id: called, name, .. } = &calls[i] {
            if str_eq(called.as_str(), id) {
                return name.clone();
            }
        }
    }
    copy_text("unknown")
}

/// What to show of the results of a round, resolving the tool name from the
/// originating `tool_calls`.
pub fn emit_tool_results(tool_calls: &Vec<ContentBlock>, tool_results: &Vec<ContentBlock>) -> (r: Vec<
    ToolResultOutput,
>)
    ensures
        result_output_views(r@) == shown_results(
            block_views(tool_calls@),
            block_views(tool_results@),
        ),
{
    let ghost calls = block_views(tool_calls@);
    let ghost all = block_views(tool_results@);
    let mut r: Vec<ToolResultOutput> = Vec::new();
    assert(result_output_views(r@) =~= Seq::empty());
    for i in 0..tool_results.len()
        invariant
            calls == block_views(tool_calls@),
            all == block_views(tool_results@),
            result_output_views(r@) == shown_results(calls, all.take(i as int)),
    {
        assert(all.take(i + 1).drop_last() =~= all.take(i as int));
        if let ContentBlock::ToolResult { tool_use_id, content, is_error } = &tool_results[i] {
            let ghost before = result_output_views(r@);
            let output = ToolResultOutput {
                tool_use_id: tool_use_id.clone(),
                tool_name: find_called_name(tool_calls, tool_use_id.as_str()),
                is_error: *is_error,
                content: content.clone(),
            };
            r.push(output);
            assert(result_output_views(r@) =~= before.push(output@));
        }
    }
    assert(all.take(all.len() as int) =~= all);
    r
}

// ---------------------------------------------------------------------------
// Aborting a round
// ---------------------------------------------------------------------------

/// The calls among some blocks, each answered with an error.
pub open spec fn closing_results(blocks: Seq<BlockView>, reason: Seq<char>) -> Seq<BlockView>
    decreases blocks.len(),
{
    if blocks.len() == 0 {
        Seq::empty()
    } else {
        let rest = closing_results(blocks.drop_last(), reason);
        match blocks.last() {
            BlockView::ToolUse { id, .. } => rest.push(
                BlockView::ToolResult { tool_use_id: id, content: reason, is_error: true },
            ),
            _ => rest,
        }
    }
}

/// What is shown of the calls that are given up.
pub open spec fn closing_outputs(blocks: Seq<BlockView>, reason: Seq<char>) -> Seq<ResultOutputView>
    decreases blocks.len(),
{
    if blocks.len() == 0 {
        Seq::empty()
    } else {
        let rest = closing_outputs(blocks.drop_last(), reason);
        match blocks.last() {
            BlockView::ToolUse { id, name, .. } => rest.push(
                ResultOutputView {
                    tool_use_id: id,
                    tool_name: name,
                    is_error: true,
                    content: reason,
                },
            ),
            _ => rest,
        }
    }
}

/// The blocks of the last message, where it is the assistant's.
pub open spec fn pending_blocks(e: EngineView) -> Seq<BlockView> {
    if e.messages.len() > 0 && e.messages.last().role == Role::Assistant {
        e.messages.last().content
    } else {
        Seq::empty()
    }
}

fn close_calls(blocks: &Vec<ContentBlock>, reason: &str) -> (r: (
    Vec<ContentBlock>,
    Vec<ToolResultOutput>,
))
    ensures
        block_views(r.0@) == closing_results(block_views(blocks@), reason@),
        result_output_views(r.1@) == closing_outputs(block_views(blocks@), reason@),
{
    let ghost all = block_views(blocks@);
    let mut results: Vec<ContentBlock> = Vec::new();
    let mut outputs: Vec<ToolResultOutput> = Vec::new();
    assert(block_views(results@) =~= Seq::empty());
    assert(result_output_views(outputs@) =~= Seq::empty());
    for i in 0..blocks.len()
        invariant
            all == block_views(blocks@),
            block_views(results@) == closing_results(all.take(i as int), reason@),
            result_output_views(outputs@) == closing_outputs(all.take(i as int), reason@),
    {
        assert(all.take(i + 1).drop_last() =~= all.take(i as int));
        if let ContentBlock::ToolUse { id, name, .. } = &blocks[i] {
            let ghost before = block_views(results@);
            let ghost shown = result_output_views(outputs@);
            let output = ToolResultOutput {
                tool_use_id: id.clone(),
                tool_name: name.clone(),
                is_error: true,
                content: copy_text(reason),
            };
            let result = ContentBlock::ToolResult {
                tool_use_id: id.clone(),
                content: copy_text(reason),
                is_error: true,
            };
            results.push(result);
            outputs.push(output);
            assert(block_views(results@) =~= before.push(result@));
            assert(result_output_views(outputs@) =~= shown.push(output@));
        }
    }
    assert(all.take(all.len() as int) =~= all);
    (results, outputs)
}

impl AgentEngine {
    /// Close a partially recorded turn after the host cancels execution.
    ///
    /// Providers in the Anthropic family require every assistant `tool_use` to
    /// be followed immediately by user `tool_result` blocks. If the host drops
    /// a run while tools are executing, the assistant `tool_use` message may
    /// already be in memory without its matching results. Add synthetic error
    /// results so the next request can safely reuse this history.
    ///
    /// Returns what to show; the conversation changed, and is to be recorded,
    /// exactly where that is not empty.
    pub fn abort_current_turn(&mut self, reason: &str) -> (r: Vec<ToolResultOutput>)
        ensures
            result_output_views(r@) == closing_outputs(pending_blocks(old(self)@), reason@),
            final(self)@ == (EngineView { messages: final(self)@.messages, ..old(self)@ }),
            ({
                let results = closing_results(pending_blocks(old(self)@), reason@);
                if results.len() > 0 {
                    appended(old(self)@.messages, final(self)@.messages, Role::User, results)
                } else {
                    final(self)@.messages == old(self)@.messages
                }
            }),
    {
        let n: usize = self.messages.len();
        if n == 0 || self.messages[n - 1].role != Role::Assistant {
            let r: Vec<ToolResultOutput> = Vec::new();
            assert(n > 0 ==> self@.messages.last() == self.messages@[n - 1]@);
            assert(result_output_views(r@) =~= Seq::empty());
            return r;
        }
        assert(self@.messages.last() == self.messages@[n - 1]@);
        let (results, outputs) = close_calls(&self.messages[n - 1].content, reason);
        assert(block_views(results@).len() == results@.len());
        if results.len() > 0 {
            self.push_now(Role::User, results);
        }
        outputs
    }
}

// ---------------------------------------------------------------------------
// Laws
// ---------------------------------------------------------------------------

/// The ids of the calls among some blocks, in order.
pub open spec fn call_ids(blocks: Seq<BlockView>) -> Seq<Seq<char>>
    decreases blocks.len(),
{
    if blocks.len() == 0 {
        Seq::empty()
    } else {
        let rest = call_ids(blocks.drop_last());
        match blocks.last() {
            BlockView::ToolUse { id, .. } => rest.push(id),
            _ => rest,
        }
    }
}

/// The ids that some results answer, in order.
pub open spec fn result_ids(blocks: Seq<BlockView>) -> Seq<Seq<char>>
    decreases blocks.len(),
{
    if blocks.len() == 0 {
        Seq::empty()
    } else {
        let rest = result_ids(blocks.drop_last());
        match blocks.last() {
            BlockView::ToolResult { tool_use_id, .. } => rest.push(tool_use_id),
            _ => rest,
        }
    }
}

/// An aborted turn answers every pending call, in order, and nothing else.
pub proof fn aborting_answers_every_pending_call(blocks: Seq<BlockView>, reason: Seq<char>)
    ensures
        result_ids(closing_results(blocks, reason)) == call_ids(blocks),
        closing_results(blocks, reason).len() == call_ids(blocks).len(),
        all_errors(closing_results(blocks, reason)),
    decreases blocks.len(),
{
    if blocks.len() > 0 {
        aborting_answers_every_pending_call(blocks.drop_last(), reason);
        let rest = closing_results(blocks.drop_last(), reason);
        let all = closing_results(blocks, reason);
        if let BlockView::ToolUse { id, .. } = blocks.last() {
            assert(all.drop_last() =~= rest);
            assert forall|i: int| 0 <= i < all.len() implies ((
            #[trigger] all[i]) matches BlockView::ToolResult { is_error, .. } && is_error) by {
                if i < rest.len() {
                    assert(all[i] == rest[i]);
                }
            }
        }
    }
}

/// The result answers the call.
pub open spec fn answers(result: BlockView, call: BlockView) -> bool {
    result matches BlockView::ToolResult { tool_use_id, .. } && tool_use_id == call->ToolUse_id
}

proof fn lemma_executable_at(calls: Seq<BlockView>, i: int)
    requires
        0 <= i < calls.len(),
        block_reason(calls[i]) is None,
    ensures
        executable_count(block_reasons(calls), i as nat) < executable_calls(calls).len(),
        executable_calls(calls)[executable_count(block_reasons(calls), i as nat) as int]
            == calls[i],
    decreases calls.len(),
{
    let front = calls.drop_last();
    executable_calls_are_counted(front);
    lemma_count_prefix(block_reasons(front), block_reasons(calls), i as nat);
    if i < front.len() {
        lemma_executable_at(front, i);
    }
}

/// Where every executed call was answered under its own id, a finished round
/// answers every call of the turn, malformed ones too, each at its own place.
pub proof fn rounds_answer_every_call(calls: Seq<BlockView>, executed: Seq<BlockView>)
    requires
        forall|i: int| 0 <= i < calls.len() ==> (#[trigger] calls[i]) is ToolUse,
        executed.len() == executable_calls(calls).len(),
        forall|k: int|
            0 <= k < executed.len() ==> answers(
                #[trigger] executed[k],
                executable_calls(calls)[k],
            ),
    ensures
        ({
            let results = merged_results(calls, block_reasons(calls), executed, calls.len());
            &&& results.len() == calls.len()
            &&& forall|i: int|
                0 <= i < calls.len() ==> answers(#[trigger] results[i], calls[i])
        }),
{
    let reasons = block_reasons(calls);
    let modifiers: Seq<Option<int>> = Seq::empty();
    results_align_with_calls(calls, reasons, executed, modifiers);
    let results = merged_results(calls, reasons, executed, calls.len());
    assert forall|i: int| 0 <= i < calls.len() implies answers(#[trigger] results[i], calls[i]) by {
        match reasons[i] {
            Some(reason) => {
                assert(results[i] == synthetic_result(calls[i]->ToolUse_id, reason));
            },
            None => {
                lemma_executable_at(calls, i);
                let k = executable_count(reasons, i as nat) as int;
                assert(answers(executed[k], executable_calls(calls)[k]));
            },
        }
    }
}

} // verus!
