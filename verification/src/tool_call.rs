//! The tool calls of one model turn: malformed ones, repeated ones, and their
//! results.

use vstd::prelude::*;

use crate::json::json_text;
use crate::message::{block_views, BlockView, ContentBlock};
use crate::text::{blank, concat3, copy_text, is_blank, str_eq, trim, trimmed};

verus! {

broadcast use vstd::string::group_string_axioms;

pub const DEFAULT_MAX_TOOL_CALL_MALFORMED: usize = 3;

pub const DEFAULT_MAX_TOOL_CALL_FAILURE: usize = 3;

// ---------------------------------------------------------------------------
// Malformed calls
// ---------------------------------------------------------------------------

#[derive(Debug, Clone, Copy, PartialEq, Eq, Structural)]
pub enum ToolCallMalformedReason {
    EmptyFunctionName,
    EmptyToolCallId,
}

impl ToolCallMalformedReason {
    pub open spec fn description_text(self) -> Seq<char> {
        match self {
            ToolCallMalformedReason::EmptyFunctionName => "empty function name"@,
            ToolCallMalformedReason::EmptyToolCallId => "empty tool call id"@,
        }
    }

    pub open spec fn reissue_field_text(self) -> Seq<char> {
        match self {
            ToolCallMalformedReason::EmptyFunctionName => "function name"@,
            ToolCallMalformedReason::EmptyToolCallId => "tool call id"@,
        }
    }

    pub fn description(self) -> (r: &'static str)
        ensures
            r@ == self.description_text(),
    {
        match self {
            Self::EmptyFunctionName => "empty function name",
            Self::EmptyToolCallId => "empty tool call id",
        }
    }

    pub fn reissue_field(self) -> (r: &'static str)
        ensures
            r@ == self.reissue_field_text(),
    {
        match self {
            Self::EmptyFunctionName => "function name",
            Self::EmptyToolCallId => "tool call id",
        }
    }

    pub fn log_reason(self) -> (r: &'static str)
        ensures
            r@ == (match self {
                ToolCallMalformedReason::EmptyFunctionName => "empty_function_name"@,
                ToolCallMalformedReason::EmptyToolCallId => "empty_tool_call_id"@,
            }),
    {
        match self {
            Self::EmptyFunctionName => "empty_function_name",
            Self::EmptyToolCallId => "empty_tool_call_id",
        }
    }
}

/// Why a call is malformed, if it is. A blank name counts before a blank id.
pub open spec fn malformed_reason(id: Seq<char>, name: Seq<char>) -> Option<
    ToolCallMalformedReason,
> {
    if is_blank(name) {
        Some(ToolCallMalformedReason::EmptyFunctionName)
    } else if is_blank(id) {
        Some(ToolCallMalformedReason::EmptyToolCallId)
    } else {
        None
    }
}

pub fn tool_call_malformed_reason(id: &str, name: &str) -> (r: Option<ToolCallMalformedReason>)
    ensures
        r == malformed_reason(id@, name@),
{
    if blank(name) {
        Some(ToolCallMalformedReason::EmptyFunctionName)
    } else if blank(id) {
        Some(ToolCallMalformedReason::EmptyToolCallId)
    } else {
        None
    }
}

// ---------------------------------------------------------------------------
// Fingerprints
// ---------------------------------------------------------------------------

#[derive(Debug, Clone)]
pub struct ToolCallMalformedFingerprintPart {
    pub reason: ToolCallMalformedReason,
    pub id: String,
    pub name: String,
    pub input: String,
}

/// What the malformed calls of a round looked like.
#[derive(Debug, Clone)]
pub struct ToolCallMalformedFingerprint {
    pub calls: Vec<ToolCallMalformedFingerprintPart>,
}

#[derive(Debug, Clone)]
pub struct ToolCallFailureFingerprintPart {
    pub name: String,
    pub input: String,
}

/// What the failed calls of a round looked like.
#[derive(Debug, Clone)]
pub struct ToolCallFailureFingerprint {
    pub calls: Vec<ToolCallFailureFingerprintPart>,
}

#[verifier::ext_equal]
pub struct MalformedPartView {
    pub reason: ToolCallMalformedReason,
    pub id: Seq<char>,
    pub name: Seq<char>,
    pub input: Seq<char>,
}

#[verifier::ext_equal]
pub struct FailurePartView {
    pub name: Seq<char>,
    pub input: Seq<char>,
}

impl ToolCallMalformedFingerprintPart {
    pub open spec fn view(&self) -> MalformedPartView {
        MalformedPartView {
            reason: self.reason,
            id: self.id@,
            name: self.name@,
            input: self.input@,
        }
    }
}

impl ToolCallFailureFingerprintPart {
    pub open spec fn view(&self) -> FailurePartView {
        FailurePartView { name: self.name@, input: self.input@ }
    }
}

impl ToolCallMalformedFingerprint {
    pub open spec fn view(&self) -> Seq<MalformedPartView> {
        Seq::new(self.calls@.len(), |i: int| self.calls@[i]@)
    }

    /// Whether two rounds looked the same.
    pub fn same(&self, other: &Self) -> (r: bool)
        ensures
            r == (self@ == other@),
    {
        if self.calls.len() != other.calls.len() {
            assert(self@.len() != other@.len());
            return false;
        }
        for i in 0..self.calls.len()
            invariant
                self.calls@.len() == other.calls@.len(),
                forall|j: int| 0 <= j < i ==> self@[j] == other@[j],
        {
            let a = &self.calls[i];
            let b = &other.calls[i];
            if !(a.reason == b.reason && str_eq(a.id.as_str(), b.id.as_str()) && str_eq(
                a.name.as_str(),
                b.name.as_str(),
            ) && str_eq(a.input.as_str(), b.input.as_str())) {
                assert(self@[i as int] != other@[i as int]);
                return false;
            }
        }
        assert(self@ =~= other@);
        true
    }
}

impl ToolCallFailureFingerprint {
    pub open spec fn view(&self) -> Seq<FailurePartView> {
        Seq::new(self.calls@.len(), |i: int| self.calls@[i]@)
    }

    /// Whether two rounds looked the same.
    pub fn same(&self, other: &Self) -> (r: bool)
        ensures
            r == (self@ == other@),
    {
        if self.calls.len() != other.calls.len() {
            assert(self@.len() != other@.len());
            return false;
        }
        for i in 0..self.calls.len()
            invariant
                self.calls@.len() == other.calls@.len(),
                forall|j: int| 0 <= j < i ==> self@[j] == other@[j],
        {
            let a = &self.calls[i];
            let b = &other.calls[i];
            if !(str_eq(a.name.as_str(), b.name.as_str()) && str_eq(
                a.input.as_str(),
                b.input.as_str(),
            )) {
                assert(self@[i as int] != other@[i as int]);
                return false;
            }
        }
        assert(self@ =~= other@);
        true
    }
}

pub open spec fn malformed_view(f: Option<ToolCallMalformedFingerprint>) -> Option<
    Seq<MalformedPartView>,
> {
    match f {
        Some(f) => Some(f@),
        None => None,
    }
}

pub open spec fn failure_view(f: Option<ToolCallFailureFingerprint>) -> Option<
    Seq<FailurePartView>,
> {
    match f {
        Some(f) => Some(f@),
        None => None,
    }
}

/// The number of calls for which a reason was noted, or not.
pub open spec fn pairs(calls: Seq<BlockView>, reasons: Seq<Option<ToolCallMalformedReason>>) -> nat {
    if calls.len() <= reasons.len() {
        calls.len()
    } else {
        reasons.len()
    }
}

/// The parts for the first `n` calls that are tool calls with a reason.
pub open spec fn malformed_parts(
    calls: Seq<BlockView>,
    reasons: Seq<Option<ToolCallMalformedReason>>,
    n: nat,
) -> Seq<MalformedPartView>
    decreases n,
{
    if n == 0 {
        Seq::empty()
    } else {
        let rest = malformed_parts(calls, reasons, (n - 1) as nat);
        match (calls[n - 1], reasons[n - 1]) {
            (BlockView::ToolUse { id, name, input, .. }, Some(reason)) => rest.push(
                MalformedPartView {
                    reason,
                    id: trim(id),
                    name: trim(name),
                    input: json_text(input),
                },
            ),
            _ => rest,
        }
    }
}

/// A fingerprint exists when there are calls and every one is malformed.
pub open spec fn malformed_fingerprint(
    calls: Seq<BlockView>,
    reasons: Seq<Option<ToolCallMalformedReason>>,
) -> Option<Seq<MalformedPartView>> {
    if calls.len() == 0 || exists|i: int| 0 <= i < reasons.len() && (#[trigger] reasons[i]) is None {
        None
    } else {
        Some(malformed_parts(calls, reasons, pairs(calls, reasons)))
    }
}

pub fn tool_call_malformed_fingerprint(
    tool_calls: &[ContentBlock],
    tool_call_malformed_reasons: &[Option<ToolCallMalformedReason>],
) -> (r: Option<ToolCallMalformedFingerprint>)
    ensures
        malformed_view(r) == malformed_fingerprint(
            block_views(tool_calls@),
            tool_call_malformed_reasons@,
        ),
{
    let ghost all = block_views(tool_calls@);
    let reasons = tool_call_malformed_reasons;
    if tool_calls.len() == 0 {
        return None;
    }
    for i in 0..reasons.len()
        invariant
            reasons == tool_call_malformed_reasons,
            forall|j: int| 0 <= j < i ==> !((#[trigger] reasons@[j]) is None),
    {
        if reasons[i].is_none() {
            assert(reasons@[i as int] is None);
            return None;
        }
    }
    let n: usize = if tool_calls.len() <= reasons.len() {
        tool_calls.len()
    } else {
        reasons.len()
    };
    let mut calls: Vec<ToolCallMalformedFingerprintPart> = Vec::new();
    for i in 0..n
        invariant
            n <= tool_calls@.len(),
            n <= reasons@.len(),
            all == block_views(tool_calls@),
            Seq::new(calls@.len(), |j: int| calls@[j]@) == malformed_parts(all, reasons@, i as nat),
    {
        if let ContentBlock::ToolUse { id, name, input, .. } = &tool_calls[i] {
            if let Some(reason) = reasons[i] {
                let part = ToolCallMalformedFingerprintPart {
                    reason,
                    id: trimmed(id.as_str()),
                    name: trimmed(name.as_str()),
                    input: input.to_text(),
                };
                let ghost before = Seq::new(calls@.len(), |j: int| calls@[j]@);
                calls.push(part);
                assert(Seq::new(calls@.len(), |j: int| calls@[j]@) =~= before.push(part@));
            }
        }
    }
    Some(ToolCallMalformedFingerprint { calls })
}

/// The part for one call.
pub open spec fn failure_part(call: BlockView) -> FailurePartView {
    FailurePartView { name: trim(call->ToolUse_name), input: json_text(call->ToolUse_input) }
}

/// A fingerprint exists when there are blocks and every one is a tool call.
pub open spec fn failure_fingerprint(calls: Seq<BlockView>) -> Option<Seq<FailurePartView>> {
    if calls.len() == 0 || exists|i: int|
        0 <= i < calls.len() && !((#[trigger] calls[i]) is ToolUse) {
        None
    } else {
        Some(Seq::new(calls.len(), |i: int| failure_part(calls[i])))
    }
}

pub fn tool_call_failure_fingerprint(tool_calls: &[ContentBlock]) -> (r: Option<
    ToolCallFailureFingerprint,
>)
    ensures
        failure_view(r) == failure_fingerprint(block_views(tool_calls@)),
{
    let ghost all = block_views(tool_calls@);
    if tool_calls.len() == 0 {
        return None;
    }
    let mut calls: Vec<ToolCallFailureFingerprintPart> = Vec::new();
    for i in 0..tool_calls.len()
        invariant
            all == block_views(tool_calls@),
            calls@.len() == i,
            forall|j: int| 0 <= j < i ==> (#[trigger] all[j]) is ToolUse,
            forall|j: int| 0 <= j < i ==> (#[trigger] calls@[j])@ == failure_part(all[j]),
    {
        match &tool_calls[i] {
            ContentBlock::ToolUse { name, input, .. } => {
                calls.push(
                    ToolCallFailureFingerprintPart {
                        name: trimmed(name.as_str()),
                        input: input.to_text(),
                    },
                );
                assert(all[i as int] is ToolUse);
            },
            _ => {
                assert(!(all[i as int] is ToolUse));
                return None;
            },
        }
    }
    let r = ToolCallFailureFingerprint { calls };
    assert(r@ =~= Seq::new(all.len(), |i: int| failure_part(all[i])));
    Some(r)
}

// ---------------------------------------------------------------------------
// Trackers
// ---------------------------------------------------------------------------

/// How often in a row something was seen, and how often is too often.
#[verifier::ext_equal]
pub struct TrackerView<F> {
    pub last: Option<F>,
    pub count: nat,
    pub limit: nat,
}

/// Nothing seen resets the count, the same raises it, something else starts it.
pub open spec fn observed<F>(t: TrackerView<F>, current: Option<F>) -> TrackerView<F> {
    match current {
        None => TrackerView { last: None, count: 0, limit: t.limit },
        Some(_) => if t.last == current {
            TrackerView { count: t.count + 1, ..t }
        } else {
            TrackerView { last: current, count: 1, limit: t.limit }
        },
    }
}

/// A limit of zero is none.
pub open spec fn limit_exceeded<F>(t: TrackerView<F>) -> bool {
    t.limit > 0 && t.count >= t.limit
}

#[derive(Debug)]
pub struct ToolCallMalformedTracker {
    pub last: Option<ToolCallMalformedFingerprint>,
    pub count: usize,
    pub limit: usize,
}

impl ToolCallMalformedTracker {
    pub open spec fn view(&self) -> TrackerView<Seq<MalformedPartView>> {
        TrackerView {
            last: malformed_view(self.last),
            count: self.count as nat,
            limit: self.limit as nat,
        }
    }

    pub fn new(limit: usize) -> (r: Self)
        ensures
            r@.last is None,
            r@.count == 0,
            r@.limit == limit,
    {
        Self { last: None, count: 0, limit }
    }

    pub fn limit(&self) -> (r: usize)
        ensures
            r == self@.limit,
    {
        self.limit
    }

    pub fn is_limit_exceeded(&self) -> (r: bool)
        ensures
            r == limit_exceeded(self@),
    {
        self.limit > 0 && self.count >= self.limit
    }

    pub fn observe(&mut self, current: Option<ToolCallMalformedFingerprint>) -> (r: usize)
        requires
            old(self).count < usize::MAX,
        ensures
            final(self)@ == observed(old(self)@, malformed_view(current)),
            r == final(self)@.count,
    {
        match current {
            None => {
                self.last = None;
                self.count = 0;
                return 0;
            },
            Some(current) => {
                let same = match &self.last {
                    Some(last) => last.same(&current),
                    None => false,
                };
                if same {
                    self.count = self.count + 1;
                } else {
                    self.last = Some(current);
                    self.count = 1;
                }
            },
        }
        self.count
    }
}

#[derive(Debug)]
pub struct ToolCallFailureTracker {
    pub last: Option<ToolCallFailureFingerprint>,
    pub count: usize,
    pub limit: usize,
}

impl ToolCallFailureTracker {
    pub open spec fn view(&self) -> TrackerView<Seq<FailurePartView>> {
        TrackerView {
            last: failure_view(self.last),
            count: self.count as nat,
            limit: self.limit as nat,
        }
    }

    pub fn new(limit: usize) -> (r: Self)
        ensures
            r@.last is None,
            r@.count == 0,
            r@.limit == limit,
    {
        Self { last: None, count: 0, limit }
    }

    pub fn limit(&self) -> (r: usize)
        ensures
            r == self@.limit,
    {
        self.limit
    }

    pub fn is_limit_exceeded(&self) -> (r: bool)
        ensures
            r == limit_exceeded(self@),
    {
        self.limit > 0 && self.count >= self.limit
    }

    pub fn observe(&mut self, current: Option<ToolCallFailureFingerprint>) -> (r: usize)
        requires
            old(self).count < usize::MAX,
        ensures
            final(self)@ == observed(old(self)@, failure_view(current)),
            r == final(self)@.count,
    {
        match current {
            None => {
                self.last = None;
                self.count = 0;
                return 0;
            },
            Some(current) => {
                let same = match &self.last {
                    Some(last) => last.same(&current),
                    None => false,
                };
                if same {
                    self.count = self.count + 1;
                } else {
                    self.last = Some(current);
                    self.count = 1;
                }
            },
        }
        self.count
    }

    pub fn count(&self) -> (r: usize)
        ensures
            r == self@.count,
    {
        self.count
    }
}

/// The tracker after some observations.
pub open spec fn observed_all<F>(t: TrackerView<F>, seen: Seq<Option<F>>) -> TrackerView<F>
    decreases seen.len(),
{
    if seen.len() == 0 {
        t
    } else {
        observed(observed_all(t, seen.drop_last()), seen.last())
    }
}

/// The count is the length of the run of equal observations at the end: the last
/// `count` observations are the same, and the one before them is another.
pub proof fn trackers_count_the_last_run<F>(limit: nat, seen: Seq<Option<F>>)
    ensures
        ({
            let t = observed_all(TrackerView { last: None, count: 0, limit }, seen);
            &&& t.limit == limit
            &&& t.count <= seen.len()
            &&& t.count > 0 ==> t.last is Some
            &&& t.count == 0 ==> t.last is None
            &&& forall|i: int| seen.len() - t.count <= i < seen.len() ==> #[trigger] seen[i] == t.last
            &&& t.count < seen.len() ==> t.count == 0 || seen[seen.len() - t.count - 1] != t.last
            &&& t.count == 0 && seen.len() > 0 ==> seen.last() is None
        }),
    decreases seen.len(),
{
    let start = TrackerView { last: None, count: 0, limit };
    if seen.len() > 0 {
        let front = seen.drop_last();
        trackers_count_the_last_run(limit, front);
        let before = observed_all(start, front);
        let t = observed_all(start, seen);
        assert forall|i: int| seen.len() - t.count <= i < seen.len() implies #[trigger] seen[i]
            == t.last by {
            if i < front.len() {
                assert(front[i] == seen[i]);
            }
        }
        if t.count < seen.len() && t.count > 1 {
            assert(front[front.len() - before.count - 1] == seen[seen.len() - t.count - 1]);
        }
        if t.count == 1 && seen.len() > 1 {
            if before.count == 0 {
                assert(front.last() is None);
            } else {
                assert(front[front.len() - 1] == before.last);
            }
        }
    }
}

// ---------------------------------------------------------------------------
// Results
// ---------------------------------------------------------------------------

#[derive(Debug, Clone, Copy, PartialEq, Eq, Structural)]
pub enum PlanModeTransition {
    Enter,
    Exit,
}

/// What a tool execution changes for the turns after it.
#[derive(Debug)]
pub struct ContextModifier {
    pub model: Option<String>,
    /// The name of a reasoning effort.
    pub effort: Option<String>,
    pub allowed_tools: Vec<String>,
    pub plan_mode_transition: Option<PlanModeTransition>,
}

/// The result of a malformed call.
pub open spec fn synthetic_result(id: Seq<char>, reason: ToolCallMalformedReason) -> BlockView {
    BlockView::ToolResult {
        tool_use_id: id,
        content: "Malformed tool call: "@ + reason.description_text()
            + ". Re-issue the tool call with a non-empty "@ + reason.reissue_field_text()
            + " if still needed, or answer in text."@,
        is_error: true,
    }
}

/// The calls to execute among the first `n`.
pub open spec fn executable_count(reasons: Seq<Option<ToolCallMalformedReason>>, n: nat) -> nat
    decreases n,
{
    if n == 0 {
        0
    } else {
        executable_count(reasons, (n - 1) as nat) + (if reasons[n - 1] is None {
            1nat
        } else {
            0nat
        })
    }
}

/// The results for the first `n` calls: synthetic ones for malformed calls, and
/// the executed ones in order for the others.
pub open spec fn merged_results(
    calls: Seq<BlockView>,
    reasons: Seq<Option<ToolCallMalformedReason>>,
    executed: Seq<BlockView>,
    n: nat,
) -> Seq<BlockView>
    decreases n,
{
    if n == 0 {
        Seq::empty()
    } else {
        let rest = merged_results(calls, reasons, executed, (n - 1) as nat);
        match reasons[n - 1] {
            Some(reason) => match calls[n - 1] {
                BlockView::ToolUse { id, .. } => rest.push(synthetic_result(id, reason)),
                _ => rest,
            },
            None => rest.push(executed[executable_count(reasons, (n - 1) as nat) as int]),
        }
    }
}

/// The modifiers that go with `merged_results`.
pub open spec fn merged_modifiers<M>(
    calls: Seq<BlockView>,
    reasons: Seq<Option<ToolCallMalformedReason>>,
    executed: Seq<Option<M>>,
    n: nat,
) -> Seq<Option<M>>
    decreases n,
{
    if n == 0 {
        Seq::empty()
    } else {
        let rest = merged_modifiers(calls, reasons, executed, (n - 1) as nat);
        match reasons[n - 1] {
            Some(_) => if calls[n - 1] is ToolUse {
                rest.push(None)
            } else {
                rest
            },
            None => rest.push(executed[executable_count(reasons, (n - 1) as nat) as int]),
        }
    }
}

proof fn lemma_executable_count(reasons: Seq<Option<ToolCallMalformedReason>>, m: nat, n: nat)
    requires
        m <= n,
    ensures
        executable_count(reasons, m) <= executable_count(reasons, n),
    decreases n,
{
    if m < n {
        lemma_executable_count(reasons, m, (n - 1) as nat);
    }
}

fn synthesize_result(id: &str, reason: ToolCallMalformedReason) -> (r: ContentBlock)
    ensures
        r@ == synthetic_result(id@, reason),
{
    let mut content = concat3(
        "Malformed tool call: ",
        reason.description(),
        ". Re-issue the tool call with a non-empty ",
    );
    content.append(reason.reissue_field());
    content.append(" if still needed, or answer in text.");
    ContentBlock::ToolResult { tool_use_id: copy_text(id), content, is_error: true }
}

/// Interleave synthetic malformed-call results with executed-tool results back
/// into the original `tool_calls` order.
///
/// `tool_call_malformed_reasons[i]` is `Some` when call `i` was malformed (and gets a
/// synthetic error result), otherwise the next executed result/modifier is taken.
pub fn merge_tool_results(
    tool_calls: &[ContentBlock],
    tool_call_malformed_reasons: &[Option<ToolCallMalformedReason>],
    executable_results: Vec<ContentBlock>,
    executable_modifiers: Vec<Option<ContextModifier>>,
) -> (r: (Vec<ContentBlock>, Vec<Option<ContextModifier>>))
    requires
        executable_count(
            tool_call_malformed_reasons@,
            pairs(block_views(tool_calls@), tool_call_malformed_reasons@),
        ) <= executable_results@.len(),
        executable_count(
            tool_call_malformed_reasons@,
            pairs(block_views(tool_calls@), tool_call_malformed_reasons@),
        ) <= executable_modifiers@.len(),
    ensures
        ({
            let n = pairs(block_views(tool_calls@), tool_call_malformed_reasons@);
            &&& block_views(r.0@) == merged_results(
                block_views(tool_calls@),
                tool_call_malformed_reasons@,
                block_views(executable_results@),
                n,
            )
            &&& r.1@ == merged_modifiers(
                block_views(tool_calls@),
                tool_call_malformed_reasons@,
                executable_modifiers@,
                n,
            )
        }),
{
    let reasons = tool_call_malformed_reasons;
    let ghost all = block_views(tool_calls@);
    let ghost total = pairs(all, reasons@);
    let ghost executed = block_views(executable_results@);
    let ghost given = executable_modifiers@;
    let n: usize = if tool_calls.len() <= reasons.len() {
        tool_calls.len()
    } else {
        reasons.len()
    };
    let mut results = executable_results;
    let mut modifiers = executable_modifiers;
    let mut tool_results: Vec<ContentBlock> = Vec::new();
    let mut tool_modifiers: Vec<Option<ContextModifier>> = Vec::new();
    assert(executed.skip(0) =~= executed);
    assert(given.skip(0) =~= given);
    assert(block_views(tool_results@) =~= Seq::empty());
    for i in 0..n
        invariant
            n == total,
            n <= tool_calls@.len(),
            n <= reasons@.len(),
            all == block_views(tool_calls@),
            executable_count(reasons@, n as nat) <= executed.len(),
            executable_count(reasons@, n as nat) <= given.len(),
            executable_count(reasons@, i as nat) <= executable_count(reasons@, n as nat),
            block_views(results@) == executed.skip(executable_count(reasons@, i as nat) as int),
            modifiers@ == given.skip(executable_count(reasons@, i as nat) as int),
            block_views(tool_results@) == merged_results(all, reasons@, executed, i as nat),
            tool_modifiers@ == merged_modifiers(all, reasons@, given, i as nat),
    {
        let ghost used = executable_count(reasons@, i as nat) as int;
        let ghost before = block_views(tool_results@);
        proof {
            lemma_executable_count(reasons@, (i + 1) as nat, n as nat);
        }
        match reasons[i] {
            Some(reason) => {
                if let ContentBlock::ToolUse { id, .. } = &tool_calls[i] {
                    let result = synthesize_result(id.as_str(), reason);
                    tool_results.push(result);
                    assert(block_views(tool_results@) =~= before.push(result@));
                    tool_modifiers.push(None);
                }
            },
            None => {
                assert(block_views(results@).len() == results@.len());
                let ghost left = results@;
                let result = results.remove(0);
                let modifier = modifiers.remove(0);
                proof {
                    assert(block_views(left)[0] == result@);
                    assert(result@ == executed[used]);
                    assert(modifier == given[used]);
                    assert forall|j: int| 0 <= j < results@.len() implies block_views(results@)[j]
                        == executed.skip(used + 1)[j] by {
                        assert(block_views(left)[j + 1] == executed.skip(used)[j + 1]);
                    }
                    assert(block_views(results@) =~= executed.skip(used + 1));
                    assert(modifiers@ =~= given.skip(used + 1));
                }
                tool_results.push(result);
                assert(block_views(tool_results@) =~= before.push(result@));
                tool_modifiers.push(modifier);
            },
        }
    }
    (tool_results, tool_modifiers)
}

/// Where a result for call `i` stands when every call before it has one.
proof fn lemma_merged_aligned(
    calls: Seq<BlockView>,
    reasons: Seq<Option<ToolCallMalformedReason>>,
    executed: Seq<BlockView>,
    n: nat,
)
    requires
        n <= calls.len(),
        n <= reasons.len(),
        forall|i: int| 0 <= i < calls.len() ==> (#[trigger] calls[i]) is ToolUse,
    ensures
        merged_results(calls, reasons, executed, n).len() == n,
        forall|i: int|
            0 <= i < n ==> #[trigger] merged_results(calls, reasons, executed, n)[i] == (
            match reasons[i] {
                Some(reason) => synthetic_result(calls[i]->ToolUse_id, reason),
                None => executed[executable_count(reasons, i as nat) as int],
            }),
    decreases n,
{
    if n > 0 {
        lemma_merged_aligned(calls, reasons, executed, (n - 1) as nat);
        assert(calls[n - 1] is ToolUse);
    }
}

proof fn lemma_modifiers_aligned<M>(
    calls: Seq<BlockView>,
    reasons: Seq<Option<ToolCallMalformedReason>>,
    executed: Seq<Option<M>>,
    n: nat,
)
    requires
        n <= calls.len(),
        n <= reasons.len(),
        forall|i: int| 0 <= i < calls.len() ==> (#[trigger] calls[i]) is ToolUse,
    ensures
        merged_modifiers(calls, reasons, executed, n).len() == n,
        forall|i: int|
            0 <= i < n ==> #[trigger] merged_modifiers(calls, reasons, executed, n)[i] == (
            match reasons[i] {
                Some(_) => None,
                None => executed[executable_count(reasons, i as nat) as int],
            }),
    decreases n,
{
    if n > 0 {
        lemma_modifiers_aligned(calls, reasons, executed, (n - 1) as nat);
        assert(calls[n - 1] is ToolUse);
    }
}

/// The results and the modifiers stand in the order of the calls, one for each:
/// a synthetic error under the id of a malformed call, and for the others what
/// was executed, in order.
pub proof fn results_align_with_calls<M>(
    calls: Seq<BlockView>,
    reasons: Seq<Option<ToolCallMalformedReason>>,
    executed: Seq<BlockView>,
    modifiers: Seq<Option<M>>,
)
    requires
        calls.len() == reasons.len(),
        forall|i: int| 0 <= i < calls.len() ==> (#[trigger] calls[i]) is ToolUse,
    ensures
        merged_results(calls, reasons, executed, calls.len()).len() == calls.len(),
        merged_modifiers(calls, reasons, modifiers, calls.len()).len() == calls.len(),
        forall|i: int|
            0 <= i < calls.len() ==> #[trigger] merged_results(
                calls,
                reasons,
                executed,
                calls.len(),
            )[i] == (match reasons[i] {
                Some(reason) => synthetic_result(calls[i]->ToolUse_id, reason),
                None => executed[executable_count(reasons, i as nat) as int],
            }),
        forall|i: int|
            0 <= i < calls.len() ==> #[trigger] merged_modifiers(
                calls,
                reasons,
                modifiers,
                calls.len(),
            )[i] == (match reasons[i] {
                Some(_) => None,
                None => modifiers[executable_count(reasons, i as nat) as int],
            }),
{
    lemma_merged_aligned(calls, reasons, executed, calls.len());
    lemma_modifiers_aligned(calls, reasons, modifiers, calls.len());
}

/// Something seen the same way again and again.
pub open spec fn repeated<F>(f: F, n: nat) -> Seq<Option<F>> {
    Seq::new(n, |i: int| Some(f))
}

/// The same round again and again trips a breaker exactly when it came as often
/// as the limit says, and a limit of zero never trips.
pub proof fn repeated_rounds_trip_at_the_limit<F>(f: F, limit: nat, n: nat)
    ensures
        ({
            let t = observed_all(TrackerView { last: None, count: 0, limit }, repeated(f, n));
            t.count == n && (limit_exceeded(t) <==> 0 < limit <= n)
        }),
{
    lemma_repeated(f, limit, n);
}

proof fn lemma_repeated<F>(f: F, limit: nat, n: nat)
    ensures
        ({
            let t = observed_all(TrackerView { last: None, count: 0, limit }, repeated(f, n));
            t.count == n && t.limit == limit && (n > 0 ==> t.last == Some(f))
        }),
    decreases n,
{
    if n > 0 {
        lemma_repeated(f, limit, (n - 1) as nat);
        assert(repeated(f, n).drop_last() =~= repeated(f, (n - 1) as nat));
    }
}

} // verus!
