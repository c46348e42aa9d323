//! The course of a run: what happened, and what to do next.

use vstd::prelude::*;

use crate::engine::{appended, AgentEngine, AgentResult, EngineView, ResultView};
use crate::error::AgentError;
use crate::message::{block_views, BlockView, ContentBlock, Role, StopReason, TokenUsage};
use crate::stream::{assistant_content, build_assistant_content, OutcomeView, StreamOutcome};
use crate::text::{blank, concat2, concat3, copy_text, decimal, format_usize, is_blank, opt_view};
use crate::tool_call::{
    failure_view, malformed_view, ToolCallFailureFingerprint, ToolCallMalformedFingerprint,
};
use crate::turn::{
    action_matches, classified, guards_after, reached, FinalizationReason, GuardsView,
    TurnGuardAction, TurnGuards, TurnOutcome,
};

verus! {

broadcast use vstd::string::group_string_axioms;

/// One last turn without tools, and what to fall back on.
#[derive(Debug)]
pub struct Finalization {
    pub reason: FinalizationReason,
    pub prefix_text: String,
    pub fallback_stop_reason: StopReason,
}

/// What to do next.
#[derive(Debug)]
pub enum RunAction {
    NormalTurn,
    FinalTurn(Finalization),
    ExecuteTools { tool_calls: Vec<ContentBlock>, assistant_text: String },
    Return(AgentResult),
    Fail(AgentError),
}

/// What to do next, whether to record the conversation before, and an error to
/// show.
#[derive(Debug)]
pub struct RunStep {
    pub save: bool,
    pub error: Option<String>,
    pub action: RunAction,
}

#[verifier::ext_equal]
pub struct FinalizationView {
    pub reason: FinalizationReason,
    pub prefix_text: Seq<char>,
    pub fallback_stop_reason: StopReason,
}

#[verifier::ext_equal]
pub enum ActionView {
    NormalTurn,
    FinalTurn(FinalizationView),
    ExecuteTools { tool_calls: Seq<BlockView>, assistant_text: Seq<char> },
    Return(ResultView),
    Fail(AgentError),
}

#[verifier::ext_equal]
pub struct StepView {
    pub save: bool,
    pub error: Option<Seq<char>>,
    pub action: ActionView,
}

impl Finalization {
    pub open spec fn view(&self) -> FinalizationView {
        FinalizationView {
            reason: self.reason,
            prefix_text: self.prefix_text@,
            fallback_stop_reason: self.fallback_stop_reason,
        }
    }
}

impl RunAction {
    pub open spec fn view(&self) -> ActionView {
        match self {
            RunAction::NormalTurn => ActionView::NormalTurn,
            RunAction::FinalTurn(f) => ActionView::FinalTurn(f@),
            RunAction::ExecuteTools { tool_calls, assistant_text } => ActionView::ExecuteTools {
                tool_calls: block_views(tool_calls@),
                assistant_text: assistant_text@,
            },
            RunAction::Return(r) => ActionView::Return(r@),
            RunAction::Fail(e) => ActionView::Fail(*e),
        }
    }
}

impl RunStep {
    pub open spec fn view(&self) -> StepView {
        StepView { save: self.save, error: opt_view(self.error), action: self.action@ }
    }
}

// ---------------------------------------------------------------------------
// Model
// ---------------------------------------------------------------------------

pub open spec fn budget_text(limit: usize) -> Seq<char> {
    "Stopped after reaching the turn budget (max_turns="@ + decimal(limit as nat)
        + "); the task did not converge. Try adjusting the request or retrying."@
}

/// Another turn, or the end where the turn budget is spent.
pub open spec fn next_step(g: GuardsView, usage: TokenUsage) -> StepView {
    match reached(g.turns, g.max_turns) {
        Some(limit) => StepView {
            save: true,
            error: Some(budget_text(limit)),
            action: ActionView::Return(
                ResultView {
                    text: Seq::empty(),
                    stop_reason: StopReason::MaxTurns,
                    usage,
                    turns: g.turns,
                },
            ),
        },
        None => StepView { save: false, error: None, action: ActionView::NormalTurn },
    }
}

/// What follows from a reply, and whether it goes into the conversation.
pub open spec fn step_after_turn(outcome: StreamOutcome, turns: usize, usage: TokenUsage) -> (
    StepView,
    bool,
) {
    match classified(outcome) {
        TurnOutcome::ToolRound(o) => (
            StepView {
                save: false,
                error: None,
                action: ActionView::ExecuteTools {
                    tool_calls: o@.tool_calls,
                    assistant_text: o@.assistant_text,
                },
            },
            true,
        ),
        TurnOutcome::Final(o) => (
            StepView {
                save: true,
                error: None,
                action: ActionView::Return(
                    ResultView {
                        text: o@.assistant_text,
                        stop_reason: o.stop_reason,
                        usage,
                        turns,
                    },
                ),
            },
            true,
        ),
        TurnOutcome::Truncated(o) => (
            StepView {
                save: false,
                error: None,
                action: ActionView::FinalTurn(
                    FinalizationView {
                        reason: FinalizationReason::MaxTokens,
                        prefix_text: o@.assistant_text,
                        fallback_stop_reason: StopReason::MaxTokens,
                    },
                ),
            },
            true,
        ),
        TurnOutcome::EmptyFinal(o) => (
            StepView {
                save: false,
                error: None,
                action: ActionView::FinalTurn(
                    FinalizationView {
                        reason: FinalizationReason::EmptyFinal,
                        prefix_text: o@.assistant_text,
                        fallback_stop_reason: StopReason::EndTurn,
                    },
                ),
            },
            false,
        ),
    }
}

/// A final reply counts when it is visible text, ended by the model, without
/// calls.
pub open spec fn is_answer(o: OutcomeView) -> bool {
    o.tool_calls.len() == 0 && o.stop_reason == StopReason::EndTurn && !is_blank(o.assistant_text)
}

/// The text of a run that ended with a finalization.
pub open spec fn final_text(f: FinalizationView, o: OutcomeView) -> Seq<char> {
    let combined = f.prefix_text + o.assistant_text;
    if !is_answer(o) && is_blank(combined) {
        f.reason.fallback_text()
    } else {
        combined
    }
}

/// The end of a run after its finalization.
pub open spec fn step_after_final(
    f: FinalizationView,
    o: OutcomeView,
    turns: usize,
    usage: TokenUsage,
) -> StepView {
    StepView {
        save: true,
        error: if is_answer(o) {
            None
        } else {
            Some(f.reason.fallback_text())
        },
        action: ActionView::Return(
            ResultView {
                text: final_text(f, o),
                stop_reason: if is_answer(o) {
                    StopReason::EndTurn
                } else {
                    f.fallback_stop_reason
                },
                usage,
                turns,
            },
        ),
    }
}

/// What the finalization leaves in the conversation.
pub open spec fn final_content(f: FinalizationView, o: OutcomeView) -> Seq<BlockView> {
    if is_answer(o) {
        assistant_content(o)
    } else {
        seq![BlockView::Text { text: final_text(f, o) }]
    }
}

/// What follows from a tool round, given the guards after it and what they say.
/// With the turn budget spent the run is over; the model is not asked again.
pub open spec fn step_after_tools(g: GuardsView, action: TurnGuardAction, usage: TokenUsage) -> StepView {
    match action {
        TurnGuardAction::Continue => StepView { save: true, ..next_step(g, usage) },
        TurnGuardAction::Finalize => StepView { save: true, ..next_step(g, usage) },
        TurnGuardAction::Stop(e) => StepView {
            save: true,
            error: None,
            action: ActionView::Fail(e),
        },
    }
}

// ---------------------------------------------------------------------------
// Executable
// ---------------------------------------------------------------------------

impl AgentEngine {
    /// Takes in the user's input.
    pub fn begin_run(&mut self, user_input: &str, msg_id: &str) -> (r: TurnGuards)
        ensures
            final(self)@ == (EngineView {
                messages: final(self)@.messages,
                msg_id: msg_id@,
                ..old(self)@
            }),
            appended(
                old(self)@.messages,
                final(self)@.messages,
                Role::User,
                seq![BlockView::Text { text: user_input@ }],
            ),
            r@.turns == 0,
            r@.max_turns == old(self)@.max_turns_per_run,
            r@.malformed.count == 0,
            r@.malformed.last is None,
            r@.malformed.limit == old(self)@.max_tool_call_malformed_turns,
            r@.failures.count == 0,
            r@.failures.last is None,
            r@.failures.limit == old(self)@.max_tool_call_failure_turns,
    {
        self.msg_id = copy_text(msg_id);
        self.push_text(Role::User, user_input);
        TurnGuards::new(
            self.max_turns_per_run,
            self.max_tool_call_malformed_turns,
            self.max_tool_call_failure_turns,
        )
    }

    /// Another turn, or the end where the turn budget is spent.
    pub fn next_turn(&self, guards: &TurnGuards) -> (r: RunStep)
        ensures
            r@ == next_step(guards@, self@.total_usage),
    {
        match guards.turn_budget_reached() {
            Some(limit) => {
                let text = String::new();
                assert(text@ =~= Seq::empty());
                RunStep {
                    save: true,
                    error: Some(
                        concat3(
                            "Stopped after reaching the turn budget (max_turns=",
                            format_usize(limit).as_str(),
                            "); the task did not converge. Try adjusting the request or retrying.",
                        ),
                    ),
                    action: RunAction::Return(
                        AgentResult {
                            text,
                            stop_reason: StopReason::MaxTurns,
                            usage: self.total_usage,
                            turns: guards.counted_turns(),
                        },
                    ),
                }
            },
            None => RunStep { save: false, error: None, action: RunAction::NormalTurn },
        }
    }

    /// Takes in the reply of a normal turn.
    pub fn after_turn(&mut self, guards: &mut TurnGuards, outcome: StreamOutcome) -> (r: RunStep)
        requires
            old(guards)@.turns < usize::MAX,
        ensures
            final(guards)@ == (GuardsView {
                turns: (old(guards)@.turns + 1) as usize,
                ..old(guards)@
            }),
            ({
                let (step, recorded) = step_after_turn(
                    outcome,
                    final(guards)@.turns,
                    old(self)@.total_usage,
                );
                &&& r@ == step
                &&& final(self)@ == (EngineView { messages: final(self)@.messages, ..old(self)@ })
                &&& recorded ==> appended(
                    old(self)@.messages,
                    final(self)@.messages,
                    Role::Assistant,
                    assistant_content(outcome@),
                )
                &&& !recorded ==> final(self)@.messages == old(self)@.messages
            }),
    {
        guards.record_counted_turn();
        match TurnOutcome::from_stream(outcome) {
            TurnOutcome::ToolRound(outcome) => {
                let content = build_assistant_content(&outcome);
                self.push_now(Role::Assistant, content);
                RunStep {
                    save: false,
                    error: None,
                    action: RunAction::ExecuteTools {
                        tool_calls: outcome.tool_calls,
                        assistant_text: outcome.assistant_text,
                    },
                }
            },
            TurnOutcome::Final(outcome) => {
                let content = build_assistant_content(&outcome);
                self.push_now(Role::Assistant, content);
                RunStep {
                    save: true,
                    error: None,
                    action: RunAction::Return(
                        AgentResult {
                            text: outcome.assistant_text,
                            stop_reason: outcome.stop_reason,
                            usage: self.total_usage,
                            turns: guards.counted_turns(),
                        },
                    ),
                }
            },
            TurnOutcome::Truncated(outcome) => {
                let content = build_assistant_content(&outcome);
                self.push_now(Role::Assistant, content);
                RunStep {
                    save: false,
                    error: None,
                    action: RunAction::FinalTurn(
                        Finalization {
                            reason: FinalizationReason::MaxTokens,
                            prefix_text: outcome.assistant_text,
                            fallback_stop_reason: StopReason::MaxTokens,
                        },
                    ),
                }
            },
            TurnOutcome::EmptyFinal(outcome) => RunStep {
                save: false,
                error: None,
                action: RunAction::FinalTurn(
                    Finalization {
                        reason: FinalizationReason::EmptyFinal,
                        prefix_text: outcome.assistant_text,
                        fallback_stop_reason: StopReason::EndTurn,
                    },
                ),
            },
        }
    }

    /// Takes in the reply of a finalization.
    pub fn finalize_once(
        &mut self,
        finalization: Finalization,
        counted_turns: usize,
        outcome: StreamOutcome,
    ) -> (r: RunStep)
        ensures
            r@ == step_after_final(
                finalization@,
                outcome@,
                counted_turns,
                old(self)@.total_usage,
            ),
            final(self)@ == (EngineView { messages: final(self)@.messages, ..old(self)@ }),
            appended(
                old(self)@.messages,
                final(self)@.messages,
                Role::Assistant,
                final_content(finalization@, outcome@),
            ),
    {
        let combined = concat2(
            finalization.prefix_text.as_str(),
            outcome.assistant_text.as_str(),
        );
        let is_success = outcome.tool_calls.len() == 0 && outcome.stop_reason == StopReason::EndTurn
            && !blank(outcome.assistant_text.as_str());
        if is_success {
            let content = build_assistant_content(&outcome);
            self.push_now(Role::Assistant, content);
            return RunStep {
                save: true,
                error: None,
                action: RunAction::Return(
                    AgentResult {
                        text: combined,
                        stop_reason: StopReason::EndTurn,
                        usage: self.total_usage,
                        turns: counted_turns,
                    },
                ),
            };
        }
        let fallback = finalization.reason.fallback_prompt();
        let fallback_text = if blank(combined.as_str()) {
            copy_text(fallback)
        } else {
            combined
        };
        self.push_text(Role::Assistant, fallback_text.as_str());
        RunStep {
            save: true,
            error: Some(copy_text(fallback)),
            action: RunAction::Return(
                AgentResult {
                    text: fallback_text,
                    stop_reason: finalization.fallback_stop_reason,
                    usage: self.total_usage,
                    turns: counted_turns,
                },
            ),
        }
    }

    /// Takes in the results of a tool round.
    pub fn after_tools(
        &mut self,
        guards: &mut TurnGuards,
        tool_results: Vec<ContentBlock>,
        tool_call_malformed_fingerprint: Option<ToolCallMalformedFingerprint>,
        tool_call_failure_fingerprint: Option<ToolCallFailureFingerprint>,
    ) -> (r: RunStep)
        requires
            old(guards)@.malformed.count < usize::MAX,
            old(guards)@.failures.count < usize::MAX,
        ensures
            final(guards)@ == guards_after(
                old(guards)@,
                malformed_view(tool_call_malformed_fingerprint),
                failure_view(tool_call_failure_fingerprint),
            ),
            exists|action: TurnGuardAction|
                action_matches(final(guards)@, action) && r@ == #[trigger] step_after_tools(
                    final(guards)@,
                    action,
                    old(self)@.total_usage,
                ),
            final(self)@ == (EngineView { messages: final(self)@.messages, ..old(self)@ }),
            appended(
                old(self)@.messages,
                final(self)@.messages,
                Role::User,
                block_views(tool_results@),
            ),
    {
        self.push_now(Role::User, tool_results);
        let action = guards.after_tool_round(
            tool_call_malformed_fingerprint,
            tool_call_failure_fingerprint,
        );
        let ghost said = action;
        let step = match action {
            TurnGuardAction::Continue => {
                let next = self.next_turn(guards);
                RunStep { save: true, error: next.error, action: next.action }
            },
            TurnGuardAction::Finalize => {
                let next = self.next_turn(guards);
                RunStep { save: true, error: next.error, action: next.action }
            },
            TurnGuardAction::Stop(e) => RunStep {
                save: true,
                error: None,
                action: RunAction::Fail(e),
            },
        };
        assert(step@ == step_after_tools(guards@, said, self@.total_usage));
        step
    }
}

// ---------------------------------------------------------------------------
// Laws
// ---------------------------------------------------------------------------

/// With the turn budget spent, the model is asked nothing more: neither before a
/// turn nor after a tool round does a turn of any kind follow. A tool round then
/// ends the run with `MaxTurns`, no text and the turns that were counted, unless
/// a breaker stops it.
pub proof fn the_turn_budget_is_kept(g: GuardsView, action: TurnGuardAction, usage: TokenUsage)
    requires
        action_matches(g, action),
        g.max_turns matches Some(limit) && g.turns >= limit,
    ensures
        next_step(g, usage).action is Return,
        step_after_tools(g, action, usage).action is Return || step_after_tools(
            g,
            action,
            usage,
        ).action is Fail,
        step_after_tools(g, action, usage).save,
        step_after_tools(g, action, usage).action is Fail <==> action is Stop,
        step_after_tools(g, action, usage).action matches ActionView::Return(r) ==> r
            == (ResultView {
            text: Seq::empty(),
            stop_reason: StopReason::MaxTurns,
            usage,
            turns: g.turns,
        }),
{
}

/// While the turn budget lasts, a tool round that trips no breaker is followed by
/// another turn.
pub proof fn unspent_budgets_go_on(g: GuardsView, action: TurnGuardAction, usage: TokenUsage)
    requires
        action_matches(g, action),
        g.max_turns matches Some(limit) ==> g.turns < limit,
        !(action is Stop),
    ensures
        next_step(g, usage).action is NormalTurn,
        step_after_tools(g, action, usage).action is NormalTurn,
{
}

/// A finalization ends the run with a result, whatever the reply was, and the
/// conversation is recorded.
pub proof fn finalization_ends_the_run(
    f: FinalizationView,
    o: OutcomeView,
    turns: usize,
    usage: TokenUsage,
)
    ensures
        step_after_final(f, o, turns, usage).action is Return,
        step_after_final(f, o, turns, usage).save,
{
}

/// What a run returns is never blank after a finalization.
pub proof fn finalized_runs_say_something(
    f: FinalizationView,
    o: OutcomeView,
    turns: usize,
    usage: TokenUsage,
)
    ensures
        step_after_final(f, o, turns, usage).action matches ActionView::Return(r) && !is_blank(
            r.text,
        ),
{
    let combined = f.prefix_text + o.assistant_text;
    if is_answer(o) {
        let i = choose|i: int|
            0 <= i < o.assistant_text.len() && !crate::text::is_space(
                #[trigger] o.assistant_text[i],
            );
        assert(combined[f.prefix_text.len() + i] == o.assistant_text[i]);
    } else {
        reveal_strlit(
            "Stopped after reaching the turn budget before the model produced a final answer.",
        );
        reveal_strlit(
            "The response was cut off by the token limit and could not be completed automatically.",
        );
        reveal_strlit("The model finished without visible answer text after one retry.");
        assert(!crate::text::is_space(f.reason.fallback_text()[0]));
    }
}

} // verus!
