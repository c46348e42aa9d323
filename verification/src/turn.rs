//! Turns of a run: what came of one, and when to stop.

use vstd::prelude::*;

use crate::error::AgentError;
use crate::message::StopReason;
use crate::stream::StreamOutcome;
use crate::text::{blank, is_blank};
use crate::tool_call::{
    failure_view, limit_exceeded, malformed_view, observed, FailurePartView, MalformedPartView,
    ToolCallFailureFingerprint, ToolCallFailureTracker, ToolCallMalformedFingerprint,
    ToolCallMalformedTracker, TrackerView,
};

verus! {

// ---------------------------------------------------------------------------
// What came of a turn
// ---------------------------------------------------------------------------

#[derive(Debug)]
pub enum TurnOutcome {
    ToolRound(StreamOutcome),
    Final(StreamOutcome),
    Truncated(StreamOutcome),
    EmptyFinal(StreamOutcome),
}

/// What a reply means for the run.
pub open spec fn classified(outcome: StreamOutcome) -> TurnOutcome {
    if outcome@.tool_calls.len() > 0 {
        TurnOutcome::ToolRound(outcome)
    } else if outcome.stop_reason == StopReason::EndTurn && !is_blank(outcome@.assistant_text) {
        TurnOutcome::Final(outcome)
    } else if outcome.stop_reason == StopReason::MaxTokens {
        TurnOutcome::Truncated(outcome)
    } else {
        TurnOutcome::EmptyFinal(outcome)
    }
}

impl TurnOutcome {
    pub fn from_stream(outcome: StreamOutcome) -> (r: Self)
        ensures
            r == classified(outcome),
    {
        if outcome.tool_calls.len() > 0 {
            return Self::ToolRound(outcome);
        }
        match outcome.stop_reason {
            StopReason::EndTurn => if !blank(outcome.assistant_text.as_str()) {
                Self::Final(outcome)
            } else {
                Self::EmptyFinal(outcome)
            },
            StopReason::MaxTokens => Self::Truncated(outcome),
            _ => Self::EmptyFinal(outcome),
        }
    }
}

#[derive(Debug, Clone, Copy, PartialEq, Eq, Structural)]
pub enum FinalizationReason {
    TurnBudget,
    MaxTokens,
    EmptyFinal,
}

impl FinalizationReason {
    pub open spec fn fallback_text(self) -> Seq<char> {
        match self {
            FinalizationReason::TurnBudget =>
                "Stopped after reaching the turn budget before the model produced a final answer."@,
            FinalizationReason::MaxTokens =>
                "The response was cut off by the token limit and could not be completed automatically."@,
            FinalizationReason::EmptyFinal =>
                "The model finished without visible answer text after one retry."@,
        }
    }

    pub fn fallback_prompt(self) -> (r: &'static str)
        ensures
            r@ == self.fallback_text(),
    {
        match self {
            FinalizationReason::TurnBudget => {
                "Stopped after reaching the turn budget before the model produced a final answer."
            },
            FinalizationReason::MaxTokens => {
                "The response was cut off by the token limit and could not be completed automatically."
            },
            FinalizationReason::EmptyFinal => {
                "The model finished without visible answer text after one retry."
            },
        }
    }
}

#[derive(Debug, Clone, Copy, PartialEq, Eq, Structural)]
pub enum TurnKind {
    Normal,
    Finalization(FinalizationReason),
}

impl TurnKind {
    pub open spec fn control_text(self) -> Option<Seq<char>> {
        match self {
            TurnKind::Normal => None,
            TurnKind::Finalization(FinalizationReason::TurnBudget) => Some(
                "Do not call any more tools. Use the tool results already provided and give the final answer now."@,
            ),
            TurnKind::Finalization(FinalizationReason::MaxTokens) => Some(
                "The previous response was cut off by the token limit. Finish the answer now. Do not call any tools."@,
            ),
            TurnKind::Finalization(FinalizationReason::EmptyFinal) => Some(
                "The previous assistant response finished without visible answer text. Provide a concise visible answer now. Do not send reasoning only. Do not call any tools."@,
            ),
        }
    }

    pub fn disable_tools(self) -> (r: bool)
        ensures
            r == (self is Finalization),
    {
        match self {
            TurnKind::Normal => false,
            TurnKind::Finalization(_) => true,
        }
    }

    pub fn control_prompt(self) -> (r: Option<&'static str>)
        ensures
            match r {
                Some(s) => self.control_text() == Some(s@),
                None => self.control_text() is None,
            },
    {
        match self {
            TurnKind::Normal => None,
            TurnKind::Finalization(FinalizationReason::TurnBudget) => Some(
                "Do not call any more tools. Use the tool results already provided and give the final answer now.",
            ),
            TurnKind::Finalization(FinalizationReason::MaxTokens) => Some(
                "The previous response was cut off by the token limit. Finish the answer now. Do not call any tools.",
            ),
            TurnKind::Finalization(FinalizationReason::EmptyFinal) => Some(
                "The previous assistant response finished without visible answer text. Provide a concise visible answer now. Do not send reasoning only. Do not call any tools.",
            ),
        }
    }
}

// ---------------------------------------------------------------------------
// When to stop
// ---------------------------------------------------------------------------

#[derive(Debug)]
pub struct TurnTracker {
    pub count: usize,
    pub limit: Option<usize>,
}

/// The limit, once as many turns were counted.
pub open spec fn reached(count: usize, limit: Option<usize>) -> Option<usize> {
    match limit {
        Some(limit) => if count >= limit {
            Some(limit)
        } else {
            None
        },
        None => None,
    }
}

impl TurnTracker {
    pub fn new(limit: Option<usize>) -> (r: Self)
        ensures
            r.count == 0,
            r.limit == limit,
    {
        Self { count: 0, limit }
    }

    pub fn count(&self) -> (r: usize)
        ensures
            r == self.count,
    {
        self.count
    }

    pub fn observe(&mut self) -> (r: usize)
        requires
            old(self).count < usize::MAX,
        ensures
            r == old(self).count + 1,
            final(self).count == r,
            final(self).limit == old(self).limit,
    {
        self.count = self.count + 1;
        self.count
    }

    pub fn limit_reached(&self) -> (r: Option<usize>)
        ensures
            r == reached(self.count, self.limit),
    {
        match self.limit {
            Some(limit) => if self.count >= limit {
                Some(limit)
            } else {
                None
            },
            None => None,
        }
    }
}

/// Per-`run` loop-termination bookkeeping: the turn counter plus the
/// tool-call-malformed and tool-call-failure breakers. Keeps the counters and
/// their thresholds out of the loop body so the main loop has a single stop
/// decision: [`TurnGuards::after_tool_round`].
#[derive(Debug)]
pub struct TurnGuards {
    /// Number of counted normal model turns so far.
    pub turns: TurnTracker,
    pub tool_call_malformed: ToolCallMalformedTracker,
    pub tool_call_failures: ToolCallFailureTracker,
}

#[derive(Debug)]
pub enum TurnGuardAction {
    Continue,
    Finalize,
    Stop(AgentError),
}

#[verifier::ext_equal]
pub struct GuardsView {
    pub turns: usize,
    pub max_turns: Option<usize>,
    pub malformed: TrackerView<Seq<MalformedPartView>>,
    pub failures: TrackerView<Seq<FailurePartView>>,
}

/// The guards after a tool round. A round that trips the first breaker is not
/// shown to the second.
pub open spec fn guards_after(
    g: GuardsView,
    malformed: Option<Seq<MalformedPartView>>,
    failure: Option<Seq<FailurePartView>>,
) -> GuardsView {
    let m = observed(g.malformed, malformed);
    if limit_exceeded(m) {
        GuardsView { malformed: m, ..g }
    } else {
        GuardsView { malformed: m, failures: observed(g.failures, failure), ..g }
    }
}

/// What the guards say after a tool round, given themselves after it.
pub open spec fn action_matches(g: GuardsView, action: TurnGuardAction) -> bool {
    if limit_exceeded(g.malformed) {
        action matches TurnGuardAction::Stop(AgentError::ToolCallMalformed { count, limit })
            && count == g.malformed.count && limit == g.malformed.limit
    } else if limit_exceeded(g.failures) {
        action matches TurnGuardAction::Stop(AgentError::ToolCallFailures { count, limit })
            && count == g.failures.count && limit == g.failures.limit
    } else if reached(g.turns, g.max_turns) is Some {
        action is Finalize
    } else {
        action is Continue
    }
}

impl TurnGuards {
    pub open spec fn view(&self) -> GuardsView {
        GuardsView {
            turns: self.turns.count,
            max_turns: self.turns.limit,
            malformed: self.tool_call_malformed@,
            failures: self.tool_call_failures@,
        }
    }

    pub fn new(
        max_turns_per_run: Option<usize>,
        max_tool_call_malformed_turns: usize,
        max_tool_call_failure_turns: usize,
    ) -> (r: Self)
        ensures
            r@.turns == 0,
            r@.max_turns == max_turns_per_run,
            r@.malformed.count == 0,
            r@.malformed.last is None,
            r@.malformed.limit == max_tool_call_malformed_turns,
            r@.failures.count == 0,
            r@.failures.last is None,
            r@.failures.limit == max_tool_call_failure_turns,
    {
        Self {
            turns: TurnTracker::new(max_turns_per_run),
            tool_call_malformed: ToolCallMalformedTracker::new(max_tool_call_malformed_turns),
            tool_call_failures: ToolCallFailureTracker::new(max_tool_call_failure_turns),
        }
    }

    pub fn counted_turns(&self) -> (r: usize)
        ensures
            r == self@.turns,
    {
        self.turns.count()
    }

    /// Returns the configured limit when the turn budget is exhausted, else `None`.
    pub fn turn_budget_reached(&self) -> (r: Option<usize>)
        ensures
            r == reached(self@.turns, self@.max_turns),
    {
        self.turns.limit_reached()
    }

    pub fn record_counted_turn(&mut self)
        requires
            old(self)@.turns < usize::MAX,
        ensures
            final(self)@ == (GuardsView { turns: (old(self)@.turns + 1) as usize, ..old(self)@ }),
    {
        self.turns.observe();
    }

    /// Fold one tool round into the breakers and return the loop action. Must
    /// be called once per tool round, after the results are recorded.
    pub fn after_tool_round(
        &mut self,
        tool_call_malformed_fingerprint: Option<ToolCallMalformedFingerprint>,
        tool_call_failure_fingerprint: Option<ToolCallFailureFingerprint>,
    ) -> (r: TurnGuardAction)
        requires
            old(self)@.malformed.count < usize::MAX,
            old(self)@.failures.count < usize::MAX,
        ensures
            final(self)@ == guards_after(
                old(self)@,
                malformed_view(tool_call_malformed_fingerprint),
                failure_view(tool_call_failure_fingerprint),
            ),
            action_matches(final(self)@, r),
    {
        let malformed_count: usize = self.tool_call_malformed.observe(
            tool_call_malformed_fingerprint,
        );
        if self.tool_call_malformed.is_limit_exceeded() {
            return TurnGuardAction::Stop(
                AgentError::ToolCallMalformed {
                    count: malformed_count,
                    limit: self.tool_call_malformed.limit(),
                },
            );
        }
        let tool_call_failure_count: usize = self.tool_call_failures.observe(
            tool_call_failure_fingerprint,
        );
        if self.tool_call_failures.is_limit_exceeded() {
            return TurnGuardAction::Stop(
                AgentError::ToolCallFailures {
                    count: tool_call_failure_count,
                    limit: self.tool_call_failures.limit(),
                },
            );
        }
        if self.turn_budget_reached().is_some() {
            TurnGuardAction::Finalize
        } else {
            TurnGuardAction::Continue
        }
    }

    pub fn tool_call_failure_count(&self) -> (r: usize)
        ensures
            r == self@.failures.count,
    {
        self.tool_call_failures.count()
    }
}

/// A breaker with a limit of zero never trips.
pub proof fn limits_of_zero_never_trip<F>(t: TrackerView<F>, current: Option<F>)
    requires
        t.limit == 0,
    ensures
        !limit_exceeded(observed(t, current)),
{
}

} // verus!
