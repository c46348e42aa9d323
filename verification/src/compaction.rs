//! When the conversation is compacted, and what is said about it.

use vstd::prelude::*;

use crate::engine::{AgentEngine, EngineView};
use crate::error::AgentError;
use crate::message::{message_views, Message};
use crate::text::{concat2, concat3, decimal, format_u64, format_usize};

verus! {

broadcast use vstd::string::group_string_axioms;

/// Compaction thresholds, flags, and sizing configuration.
#[derive(Debug, Clone, Copy, PartialEq, Eq, Structural)]
pub struct CompactConfig {
    pub enabled: bool,
    pub context_window: usize,
    pub output_reserve: usize,
    pub autocompact_buffer: usize,
    pub emergency_buffer: usize,
    /// Percentage of the context window at which to compact.
    pub autocompact_threshold_pct: Option<u8>,
    pub cache_diagnostics: bool,
}

/// Compaction watermark and circuit-breaker state.
#[derive(Debug, Clone, Copy, PartialEq, Eq, Structural)]
pub struct CompactState {
    pub last_input_tokens: u64,
    pub consecutive_failures: u64,
}

impl CompactState {
    pub fn new() -> (r: Self)
        ensures
            r.last_input_tokens == 0,
            r.consecutive_failures == 0,
    {
        CompactState { last_input_tokens: 0, consecutive_failures: 0 }
    }
}

/// Something to tell the user.
#[derive(Debug)]
pub enum Notice {
    Info(String),
    Error(String),
}

#[verifier::ext_equal]
pub enum NoticeView {
    Info(Seq<char>),
    Error(Seq<char>),
}

impl Notice {
    pub open spec fn view(&self) -> NoticeView {
        match self {
            Notice::Info(s) => NoticeView::Info(s@),
            Notice::Error(s) => NoticeView::Error(s@),
        }
    }
}

pub open spec fn notice_views(notices: Seq<Notice>) -> Seq<NoticeView> {
    Seq::new(notices.len(), |i: int| notices[i]@)
}

// ---------------------------------------------------------------------------
// Model
// ---------------------------------------------------------------------------

/// What is left of a size, none where too much is taken.
pub open spec fn less(size: nat, taken: nat) -> nat {
    if taken <= size {
        (size - taken) as nat
    } else {
        0
    }
}

/// The number of tokens from which the conversation is compacted.
pub open spec fn autocompact_threshold(config: CompactConfig) -> nat {
    match config.autocompact_threshold_pct {
        Some(pct) => (config.context_window as nat) * (pct as nat) / 100,
        None => less(
            less(config.context_window as nat, config.output_reserve as nat),
            config.autocompact_buffer as nat,
        ),
    }
}

/// The percentage of the context window can be computed.
pub open spec fn threshold_fits(config: CompactConfig) -> bool {
    config.autocompact_threshold_pct matches Some(pct) ==> (config.context_window as nat) * (
    pct as nat) <= usize::MAX
}

/// What to do about the size of the conversation.
#[verifier::ext_equal]
pub struct AutocompactPlanView {
    pub notices: Seq<NoticeView>,
    pub run: bool,
}

pub open spec fn threshold_notice(config: CompactConfig, pct: u8) -> NoticeView {
    NoticeView::Info(
        "Autocompact threshold: "@ + decimal(autocompact_threshold(config)) + " tokens ("@ + decimal(
            pct as nat,
        ) + "% of "@ + decimal(config.context_window as nat) + ")"@,
    )
}

pub open spec fn skipped_notice(state: CompactState) -> NoticeView {
    NoticeView::Info(
        "Autocompact: skipped (circuit breaker tripped after "@ + decimal(
            state.consecutive_failures as nat,
        ) + " consecutive failures, last_input_tokens="@ + decimal(state.last_input_tokens as nat)
            + ")"@,
    )
}

pub open spec fn disabled_notice(config: CompactConfig, state: CompactState) -> NoticeView {
    NoticeView::Info(
        "Autocompact: disabled (compact.enabled=false, last_input_tokens="@ + decimal(
            state.last_input_tokens as nat,
        ) + ", threshold="@ + decimal(autocompact_threshold(config)) + ")"@,
    )
}

/// Whether to compact, given whether it is due and whether the circuit breaker
/// forbids it, and what to say.
pub open spec fn autocompact_plan(
    config: CompactConfig,
    state: CompactState,
    due: bool,
    circuit_broken: bool,
) -> AutocompactPlanView {
    if due {
        let head = match config.autocompact_threshold_pct {
            Some(pct) => seq![threshold_notice(config, pct)],
            None => Seq::empty(),
        };
        if circuit_broken {
            AutocompactPlanView { notices: head.push(skipped_notice(state)), run: false }
        } else {
            AutocompactPlanView { notices: head, run: true }
        }
    } else if !config.enabled && state.last_input_tokens as usize >= autocompact_threshold(config) {
        AutocompactPlanView { notices: seq![disabled_notice(config, state)], run: false }
    } else {
        AutocompactPlanView { notices: Seq::empty(), run: false }
    }
}

pub open spec fn microcompact_text(cleared: nat, freed: nat) -> Seq<char> {
    "Microcompact: cleared "@ + decimal(cleared) + " tool results (~"@ + decimal(freed)
        + " tokens freed)"@
}

pub open spec fn compacted_text(summarized: nat, tokens: nat) -> Seq<char> {
    "Autocompact: summarized "@ + decimal(summarized) + " messages ("@ + decimal(tokens)
        + " tokens → compact)"@
}

/// What a context too long is refused with.
pub open spec fn emergency_limit(config: CompactConfig) -> nat {
    less(config.context_window as nat, config.emergency_buffer as nat)
}

// ---------------------------------------------------------------------------
// Executable
// ---------------------------------------------------------------------------

#[derive(Debug)]
pub struct AutocompactPlan {
    pub notices: Vec<Notice>,
    pub run: bool,
}

impl AutocompactPlan {
    pub open spec fn view(&self) -> AutocompactPlanView {
        AutocompactPlanView { notices: notice_views(self.notices@), run: self.run }
    }
}

/// The number of tokens from which the conversation is compacted.
pub fn compute_autocompact_threshold(config: &CompactConfig) -> (r: usize)
    requires
        threshold_fits(*config),
    ensures
        r == autocompact_threshold(*config),
{
    match config.autocompact_threshold_pct {
        Some(pct) => {
            let window: usize = config.context_window;
            window * (pct as usize) / 100
        },
        None => config.context_window.saturating_sub(config.output_reserve).saturating_sub(
            config.autocompact_buffer,
        ),
    }
}

fn describe_threshold(config: &CompactConfig, pct: u8) -> (r: Notice)
    requires
        threshold_fits(*config),
    ensures
        r@ == threshold_notice(*config, pct),
{
    let threshold: usize = compute_autocompact_threshold(config);
    let mut s = concat3(
        "Autocompact threshold: ",
        format_usize(threshold).as_str(),
        " tokens (",
    );
    s.append(format_u64(pct as u64).as_str());
    s.append("% of ");
    s.append(format_usize(config.context_window).as_str());
    s.append(")");
    Notice::Info(s)
}

fn describe_skipped(state: &CompactState) -> (r: Notice)
    ensures
        r@ == skipped_notice(*state),
{
    let mut s = concat3(
        "Autocompact: skipped (circuit breaker tripped after ",
        format_u64(state.consecutive_failures).as_str(),
        " consecutive failures, last_input_tokens=",
    );
    s.append(format_u64(state.last_input_tokens).as_str());
    s.append(")");
    Notice::Info(s)
}

fn describe_disabled(config: &CompactConfig, state: &CompactState) -> (r: Notice)
    requires
        threshold_fits(*config),
    ensures
        r@ == disabled_notice(*config, *state),
{
    let mut s = concat3(
        "Autocompact: disabled (compact.enabled=false, last_input_tokens=",
        format_u64(state.last_input_tokens).as_str(),
        ", threshold=",
    );
    let threshold: usize = compute_autocompact_threshold(config);
    s.append(format_usize(threshold).as_str());
    s.append(")");
    Notice::Info(s)
}

/// Whether to compact, given whether it is due and whether the circuit breaker
/// forbids it, and what to say.
pub fn plan_autocompact(
    config: &CompactConfig,
    state: &CompactState,
    due: bool,
    circuit_broken: bool,
) -> (r: AutocompactPlan)
    requires
        due || !config.enabled ==> threshold_fits(*config),
    ensures
        r@ == autocompact_plan(*config, *state, due, circuit_broken),
{
    let mut notices: Vec<Notice> = Vec::new();
    assert(notice_views(notices@) =~= Seq::empty());
    if due {
        if let Some(pct) = config.autocompact_threshold_pct {
            let notice = describe_threshold(config, pct);
            notices.push(notice);
            assert(notice_views(notices@) =~= seq![notice@]);
        }
        let ghost head = notice_views(notices@);
        if circuit_broken {
            let notice = describe_skipped(state);
            notices.push(notice);
            assert(notice_views(notices@) =~= head.push(notice@));
            AutocompactPlan { notices, run: false }
        } else {
            AutocompactPlan { notices, run: true }
        }
    } else {
        if !config.enabled {
            let threshold: usize = compute_autocompact_threshold(config);
            if state.last_input_tokens as usize >= threshold {
                let notice = describe_disabled(config, state);
                notices.push(notice);
                assert(notice_views(notices@) =~= seq![notice@]);
            }
        }
        AutocompactPlan { notices, run: false }
    }
}

/// What to say after old tool results were cleared, if any were.
pub fn microcompact_notice(cleared_count: usize, estimated_tokens_freed: usize) -> (r: Option<
    Notice,
>)
    ensures
        match r {
            Some(n) => cleared_count > 0 && n@ == NoticeView::Info(
                microcompact_text(cleared_count as nat, estimated_tokens_freed as nat),
            ),
            None => cleared_count == 0,
        },
{
    if cleared_count == 0 {
        return None;
    }
    let mut s = concat3(
        "Microcompact: cleared ",
        format_usize(cleared_count).as_str(),
        " tool results (~",
    );
    s.append(format_usize(estimated_tokens_freed).as_str());
    s.append(" tokens freed)");
    Some(Notice::Info(s))
}

/// How an attempt to summarize the conversation ended.
#[derive(Debug)]
pub enum AutocompactOutcome {
    Compacted { messages: Vec<Message>, messages_summarized: usize, pre_compact_tokens: u64 },
    /// The circuit breaker was tripped already.
    CircuitBroken,
    Failed(String),
}

/// What to say after an attempt to summarize the conversation.
pub open spec fn outcome_notice(outcome: AutocompactOutcome) -> Option<NoticeView> {
    match outcome {
        AutocompactOutcome::Compacted { messages_summarized, pre_compact_tokens, .. } => Some(
            NoticeView::Info(
                compacted_text(messages_summarized as nat, pre_compact_tokens as nat),
            ),
        ),
        AutocompactOutcome::CircuitBroken => None,
        AutocompactOutcome::Failed(e) => Some(NoticeView::Error("Autocompact failed: "@ + e@)),
    }
}

/// The view of an optional notice.
pub open spec fn notice_view(notice: Option<Notice>) -> Option<NoticeView> {
    match notice {
        Some(n) => Some(n@),
        None => None,
    }
}

pub fn autocompact_notice(outcome: &AutocompactOutcome) -> (r: Option<Notice>)
    ensures
        notice_view(r) == outcome_notice(*outcome),
{
    match outcome {
        AutocompactOutcome::Compacted { messages_summarized, pre_compact_tokens, .. } => {
            let mut s = concat3(
                "Autocompact: summarized ",
                format_usize(*messages_summarized).as_str(),
                " messages (",
            );
            s.append(format_u64(*pre_compact_tokens).as_str());
            s.append(" tokens → compact)");
            Some(Notice::Info(s))
        },
        AutocompactOutcome::CircuitBroken => None,
        AutocompactOutcome::Failed(e) => Some(
            Notice::Error(concat2("Autocompact failed: ", e.as_str())),
        ),
    }
}

/// What to say, and whether the conversation was compacted.
#[derive(Debug)]
pub struct AutocompactEnd {
    pub notice: Option<Notice>,
    pub compacted: bool,
}

/// What a context that is too long is refused with, unless it was compacted just
/// now.
pub open spec fn refused(e: EngineView, compacted: bool, at_emergency_limit: bool) -> Option<
    (u64, nat),
> {
    if !compacted && at_emergency_limit {
        Some((e.compact_state.last_input_tokens, emergency_limit(e.compact_config)))
    } else {
        None
    }
}

impl AgentEngine {
    /// Whether to compact before the next request, given whether it is due and
    /// whether the circuit breaker forbids it, and what to say.
    pub fn plan_compaction(&self, due: bool, circuit_broken: bool) -> (r: AutocompactPlan)
        requires
            due || !self@.compact_config.enabled ==> threshold_fits(self@.compact_config),
        ensures
            r@ == autocompact_plan(
                self@.compact_config,
                self@.compact_state,
                due,
                circuit_broken,
            ),
    {
        plan_autocompact(&self.compact_config, &self.compact_state, due, circuit_broken)
    }

    /// Takes in the end of an attempt to summarize the conversation: the summary
    /// takes the place of the conversation where there is one.
    pub fn finish_autocompact(&mut self, outcome: AutocompactOutcome) -> (r: AutocompactEnd)
        ensures
            notice_view(r.notice) == outcome_notice(outcome),
            r.compacted == (outcome is Compacted),
            final(self)@ == (match outcome {
                AutocompactOutcome::Compacted { messages, .. } => EngineView {
                    messages: message_views(messages@),
                    ..old(self)@
                },
                _ => old(self)@,
            }),
    {
        let notice = autocompact_notice(&outcome);
        match outcome {
            AutocompactOutcome::Compacted { messages, .. } => {
                self.messages = messages;
                AutocompactEnd { notice, compacted: true }
            },
            _ => AutocompactEnd { notice, compacted: false },
        }
    }

    /// Refuses a context that is too long, unless it was compacted just now.
    pub fn check_emergency(&self, compacted: bool, at_emergency_limit: bool) -> (r: Result<
        (),
        AgentError,
    >)
        ensures
            match r {
                Ok(_) => refused(self@, compacted, at_emergency_limit) is None,
                Err(e) => {
                    &&& e matches AgentError::ContextTooLong { input_tokens, limit }
                    &&& refused(self@, compacted, at_emergency_limit) == Some(
                        (input_tokens, limit as nat),
                    )
                },
            },
    {
        if !compacted && at_emergency_limit {
            Err(
                AgentError::ContextTooLong {
                    input_tokens: self.compact_state.last_input_tokens,
                    limit: self.compact_config.context_window.saturating_sub(
                        self.compact_config.emergency_buffer,
                    ),
                },
            )
        } else {
            Ok(())
        }
    }
}

// ---------------------------------------------------------------------------
// The order of compaction
// ---------------------------------------------------------------------------

/// What is to be done next before a request: old tool results are cleared, then
/// the size is looked at, then the conversation is summarized where that is due,
/// then a context that is still too long is refused.
#[derive(Debug, Clone, Copy, PartialEq, Eq, Structural)]
pub enum CompactionPhase {
    Microcompact,
    CheckSize,
    Summarize,
    CheckEmergency,
    Over,
}

/// Old tool results were cleared.
#[derive(Debug)]
pub struct Microcompacted {
    pub messages: Vec<Message>,
    pub cleared_count: usize,
    pub estimated_tokens_freed: usize,
}

/// What happened.
#[derive(Debug)]
pub enum CompactionEvent {
    /// Old tool results were cleared, or there was no need to.
    Microcompacted(Option<Microcompacted>),
    SizeChecked { due: bool, circuit_broken: bool },
    /// How the summary ended, and the state that it left.
    Summarized { outcome: AutocompactOutcome, state: CompactState },
    EmergencyChecked { at_limit: bool },
}

/// What to say, what to do next, and the error that ends the run, if any.
#[derive(Debug)]
pub struct CompactionStep {
    pub notices: Vec<Notice>,
    pub phase: CompactionPhase,
    pub refusal: Option<AgentError>,
}

/// A step and the agent after it.
#[verifier::ext_equal]
pub struct CompactionStepView {
    pub engine: EngineView,
    pub notices: Seq<NoticeView>,
    pub phase: CompactionPhase,
    pub refused: Option<(u64, nat)>,
}

/// The notices of an optional one.
pub open spec fn only_notice(n: Option<NoticeView>) -> Seq<NoticeView> {
    match n {
        Some(n) => seq![n],
        None => Seq::empty(),
    }
}

/// An event that the phase does not wait for changes nothing.
pub open spec fn no_step(e: EngineView, phase: CompactionPhase) -> CompactionStepView {
    CompactionStepView { engine: e, notices: Seq::empty(), phase, refused: None }
}

/// What follows from an event.
pub open spec fn compaction_step(
    e: EngineView,
    phase: CompactionPhase,
    event: CompactionEvent,
) -> CompactionStepView {
    match (phase, event) {
        (CompactionPhase::Microcompact, CompactionEvent::Microcompacted(None)) => {
            no_step(e, CompactionPhase::CheckSize)
        },
        (CompactionPhase::Microcompact, CompactionEvent::Microcompacted(Some(m))) => {
            CompactionStepView {
                engine: EngineView { messages: message_views(m.messages@), ..e },
                notices: if m.cleared_count > 0 {
                    seq![
                        NoticeView::Info(
                            microcompact_text(
                                m.cleared_count as nat,
                                m.estimated_tokens_freed as nat,
                            ),
                        ),
                    ]
                } else {
                    Seq::empty()
                },
                phase: CompactionPhase::CheckSize,
                refused: None,
            }
        },
        (CompactionPhase::CheckSize, CompactionEvent::SizeChecked { due, circuit_broken }) => {
            let plan = autocompact_plan(e.compact_config, e.compact_state, due, circuit_broken);
            CompactionStepView {
                engine: e,
                notices: plan.notices,
                phase: if plan.run {
                    CompactionPhase::Summarize
                } else {
                    CompactionPhase::CheckEmergency
                },
                refused: None,
            }
        },
        (CompactionPhase::Summarize, CompactionEvent::Summarized { outcome, state }) => {
            let left = EngineView { compact_state: state, ..e };
            CompactionStepView {
                engine: match outcome {
                    AutocompactOutcome::Compacted { messages, .. } => EngineView {
                        messages: message_views(messages@),
                        ..left
                    },
                    _ => left,
                },
                notices: only_notice(outcome_notice(outcome)),
                phase: if outcome is Compacted {
                    CompactionPhase::Over
                } else {
                    CompactionPhase::CheckEmergency
                },
                refused: None,
            }
        },
        (CompactionPhase::CheckEmergency, CompactionEvent::EmergencyChecked { at_limit }) => {
            CompactionStepView {
                engine: e,
                notices: Seq::empty(),
                phase: CompactionPhase::Over,
                refused: refused(e, false, at_limit),
            }
        },
        _ => no_step(e, phase),
    }
}

/// The size and limit of a refusal.
pub open spec fn refusal_view(refusal: Option<AgentError>) -> Option<(u64, nat)> {
    match refusal {
        Some(AgentError::ContextTooLong { input_tokens, limit }) => Some(
            (input_tokens, limit as nat),
        ),
        _ => None,
    }
}

fn notices_of(n: Option<Notice>) -> (r: Vec<Notice>)
    ensures
        notice_views(r@) == only_notice(notice_view(n)),
{
    let mut r: Vec<Notice> = Vec::new();
    if let Some(n) = n {
        r.push(n);
    }
    assert(notice_views(r@) =~= only_notice(notice_view(n)));
    r
}

impl AgentEngine {
    /// Takes in what happened and says what is to be done next.
    pub fn advance_compaction(&mut self, phase: CompactionPhase, event: CompactionEvent) -> (r:
        CompactionStep)
        requires
            phase == CompactionPhase::CheckSize && (event matches CompactionEvent::SizeChecked {
                due,
                circuit_broken,
            } && (due || !old(self)@.compact_config.enabled)) ==> threshold_fits(
                old(self)@.compact_config,
            ),
        ensures
            ({
                let step = compaction_step(old(self)@, phase, event);
                &&& final(self)@ == step.engine
                &&& notice_views(r.notices@) == step.notices
                &&& r.phase == step.phase
                &&& refusal_view(r.refusal) == step.refused
                &&& r.refusal is Some <==> step.refused is Some
            }),
    {
        match (phase, event) {
            (CompactionPhase::Microcompact, CompactionEvent::Microcompacted(result)) => {
                let notice = match result {
                    None => None,
                    Some(m) => {
                        self.messages = m.messages;
                        microcompact_notice(m.cleared_count, m.estimated_tokens_freed)
                    },
                };
                let notices = notices_of(notice);
                assert(notice_views(notices@) =~= compaction_step(
                    old(self)@,
                    phase,
                    event,
                ).notices);
                CompactionStep { notices, phase: CompactionPhase::CheckSize, refusal: None }
            },
            (CompactionPhase::CheckSize, CompactionEvent::SizeChecked { due, circuit_broken }) => {
                let plan = self.plan_compaction(due, circuit_broken);
                let phase = if plan.run {
                    CompactionPhase::Summarize
                } else {
                    CompactionPhase::CheckEmergency
                };
                CompactionStep { notices: plan.notices, phase, refusal: None }
            },
            (CompactionPhase::Summarize, CompactionEvent::Summarized { outcome, state }) => {
                self.compact_state = state;
                let end = self.finish_autocompact(outcome);
                let phase = if end.compacted {
                    CompactionPhase::Over
                } else {
                    CompactionPhase::CheckEmergency
                };
                CompactionStep { notices: notices_of(end.notice), phase, refusal: None }
            },
            (CompactionPhase::CheckEmergency, CompactionEvent::EmergencyChecked { at_limit }) => {
                let refusal = match self.check_emergency(false, at_limit) {
                    Ok(_) => None,
                    Err(e) => Some(e),
                };
                let notices = notices_of(None);
                CompactionStep { notices, phase: CompactionPhase::Over, refusal }
            },
            _ => {
                let notices = notices_of(None);
                CompactionStep { notices, phase, refusal: None }
            },
        }
    }
}

// ---------------------------------------------------------------------------
// Laws
// ---------------------------------------------------------------------------

/// Compaction runs exactly when it is due and the circuit breaker allows it, and
/// a circuit breaker that forbids it is always reported.
pub proof fn compaction_runs_when_due_and_allowed(
    config: CompactConfig,
    state: CompactState,
    due: bool,
    circuit_broken: bool,
)
    ensures
        autocompact_plan(config, state, due, circuit_broken).run == (due && !circuit_broken),
        due && circuit_broken ==> autocompact_plan(
            config,
            state,
            due,
            circuit_broken,
        ).notices.last() == skipped_notice(state),
{
}

/// A conversation that was compacted just now is not refused, and one at the
/// limit that was not is refused, with the limit that the settings leave.
pub proof fn compacted_conversations_go_on(e: EngineView, outcome: AutocompactOutcome)
    ensures
        refused(e, outcome is Compacted, true) is None <==> outcome is Compacted,
        refused(e, outcome is Compacted, false) is None,
{
}

/// The place of a phase in the order of compaction.
pub open spec fn rank(phase: CompactionPhase) -> nat {
    match phase {
        CompactionPhase::Microcompact => 0,
        CompactionPhase::CheckSize => 1,
        CompactionPhase::Summarize => 2,
        CompactionPhase::CheckEmergency => 3,
        CompactionPhase::Over => 4,
    }
}

/// Compaction goes in its order and never back: the size is looked at after old
/// results were cleared, the conversation is summarized after that and only where
/// it is due and allowed, and a context is refused only by the emergency check,
/// which comes last and is left out after a summary. An event that is not waited
/// for changes nothing.
pub proof fn compaction_goes_in_order(
    e: EngineView,
    phase: CompactionPhase,
    event: CompactionEvent,
)
    ensures
        ({
            let step = compaction_step(e, phase, event);
            &&& rank(step.phase) >= rank(phase)
            &&& step.phase == phase ==> step == no_step(e, phase)
            &&& step.phase != phase ==> match step.phase {
                CompactionPhase::Microcompact => false,
                CompactionPhase::CheckSize => phase == CompactionPhase::Microcompact,
                CompactionPhase::Summarize => {
                    &&& phase == CompactionPhase::CheckSize
                    &&& event matches CompactionEvent::SizeChecked { due, circuit_broken }
                    &&& due && !circuit_broken
                },
                CompactionPhase::CheckEmergency => {
                    ||| phase == CompactionPhase::CheckSize
                    ||| phase == CompactionPhase::Summarize && (event matches
                        CompactionEvent::Summarized { outcome, .. } && !(outcome is Compacted))
                },
                CompactionPhase::Over => {
                    ||| phase == CompactionPhase::CheckEmergency
                    ||| phase == CompactionPhase::Summarize && (event matches
                        CompactionEvent::Summarized { outcome, .. } && outcome is Compacted)
                },
            }
            &&& step.refused is Some ==> phase == CompactionPhase::CheckEmergency && step.phase
                == CompactionPhase::Over
        }),
{
}

/// The phases that some events lead through, from the first on.
pub open spec fn phase_after(
    e: EngineView,
    phase: CompactionPhase,
    events: Seq<CompactionEvent>,
) -> CompactionStepView
    decreases events.len(),
{
    if events.len() == 0 {
        no_step(e, phase)
    } else {
        let before = phase_after(e, phase, events.drop_last());
        compaction_step(before.engine, before.phase, events.last())
    }
}

/// The events come in the order of the phases that wait for them, a summary only
/// where one is due and allowed, and no emergency check after one that worked.
pub open spec fn in_order(events: Seq<CompactionEvent>) -> bool {
    &&& events.len() >= 3
    &&& events[0] is Microcompacted
    &&& events[1] matches CompactionEvent::SizeChecked { due, circuit_broken } && if due
        && !circuit_broken {
        &&& events[2] matches CompactionEvent::Summarized { outcome, .. }
        &&& if outcome is Compacted {
            events.len() == 3
        } else {
            events.len() == 4 && events[3] is EmergencyChecked
        }
    } else {
        events.len() == 3 && events[2] is EmergencyChecked
    }
}

/// Events in their order bring compaction from its first phase to its end.
pub proof fn compaction_comes_to_an_end(e: EngineView, events: Seq<CompactionEvent>)
    requires
        in_order(events),
    ensures
        phase_after(e, CompactionPhase::Microcompact, events).phase == CompactionPhase::Over,
{
    let start = CompactionPhase::Microcompact;
    assert(events.take(1).drop_last() =~= events.take(0));
    assert(events.take(2).drop_last() =~= events.take(1));
    assert(events.take(3).drop_last() =~= events.take(2));
    assert(phase_after(e, start, events.take(0)) == no_step(e, start));
    assert(phase_after(e, start, events.take(1)).phase == CompactionPhase::CheckSize);
    let second = phase_after(e, start, events.take(2));
    assert(events.take(2).last() == events[1]);
    let third = phase_after(e, start, events.take(3));
    assert(events.take(3).last() == events[2]);
    if events.len() == 3 {
        assert(events.take(3) =~= events);
    } else {
        assert(third.phase == CompactionPhase::CheckEmergency);
        assert(events.drop_last() =~= events.take(3));
    }
}

} // verus!
