//! What changes an agent between its turns: settings, skills, token counts.

use vstd::prelude::*;

use crate::compaction::CompactState;
use crate::compat::{list_views, setting};
use crate::engine::{AgentEngine, EngineView, PlanView};
use crate::estimate::{
    checked_estimate_tokens_from_messages, estimate_tokens_from_messages, estimated_tokens,
    is_countable,
};
use crate::llm::ThinkingConfig;
use crate::message::TokenUsage;
use crate::text::{
    concat2, concat3, contains_text, copy_text, copy_texts, decimal, format_u64, is_empty, join,
    joined, opt_view, str_eq, views,
};
use crate::tool_call::{ContextModifier, PlanModeTransition};

verus! {

broadcast use vstd::string::group_string_axioms;

/// Default thinking budget when "enabled" is requested without a specific budget.
pub const DEFAULT_THINKING_BUDGET: u32 = 10_000;

// ---------------------------------------------------------------------------
// Model: settings
// ---------------------------------------------------------------------------

/// An agent, and what was said on the way to it.
#[verifier::ext_equal]
pub struct Update {
    pub engine: EngineView,
    pub changes: Seq<Seq<char>>,
}

pub open spec fn with_model(e: EngineView, model: Option<Seq<char>>) -> Update {
    match model {
        Some(new_model) => Update {
            engine: EngineView { model: new_model, ..e },
            changes: seq!["model: "@ + e.model + " → "@ + new_model],
        },
        None => Update { engine: e, changes: Seq::empty() },
    }
}

pub open spec fn with_thinking(e: EngineView, thinking: Option<Seq<char>>, budget: Option<u32>) -> Update {
    match thinking {
        Some(value) => if value == "enabled"@ {
            let budget_tokens = setting(budget, DEFAULT_THINKING_BUDGET);
            Update {
                engine: EngineView {
                    thinking: Some(ThinkingConfig::Enabled { budget_tokens }),
                    ..e
                },
                changes: seq![
                    "thinking: enabled (budget: "@ + decimal(budget_tokens as nat) + ")"@,
                ],
            }
        } else if value == "disabled"@ {
            Update {
                engine: EngineView { thinking: Some(ThinkingConfig::Disabled), ..e },
                changes: seq!["thinking: disabled"@],
            }
        } else {
            Update {
                engine: e,
                changes: seq!["thinking: ignored invalid value \""@ + value + "\""@],
            }
        },
        None => match (budget, e.thinking) {
            (Some(budget_tokens), Some(ThinkingConfig::Enabled { .. })) => Update {
                engine: EngineView {
                    thinking: Some(ThinkingConfig::Enabled { budget_tokens }),
                    ..e
                },
                changes: seq!["thinking budget: "@ + decimal(budget_tokens as nat)],
            },
            _ => Update { engine: e, changes: Seq::empty() },
        },
    }
}

/// The provider takes this effort, or any.
pub open spec fn effort_allowed(levels: Seq<Seq<char>>, effort: Seq<char>) -> bool {
    levels.len() == 0 || levels.contains(effort)
}

pub open spec fn with_effort(e: EngineView, effort: Option<Seq<char>>) -> Update {
    match effort {
        None => Update { engine: e, changes: Seq::empty() },
        Some(new_effort) => {
            let levels = list_views(e.compat.reasoning.effort_levels);
            if new_effort.len() == 0 {
                Update {
                    engine: EngineView { reasoning_effort: None, ..e },
                    changes: seq!["effort: cleared"@],
                }
            } else if !setting(e.compat.reasoning.supports_effort, false) {
                Update { engine: e, changes: seq!["effort: not supported by current provider"@] }
            } else if !effort_allowed(levels, new_effort) {
                Update {
                    engine: e,
                    changes: seq![
                        "effort: invalid level \""@ + new_effort + "\" (valid: "@ + join(
                            levels,
                            ", "@,
                        ) + ")"@,
                    ],
                }
            } else {
                Update {
                    engine: EngineView { reasoning_effort: Some(new_effort), ..e },
                    changes: seq![
                        "effort: "@ + setting(e.reasoning_effort, "none"@) + " → "@ + new_effort,
                    ],
                }
            }
        },
    }
}

/// A compaction level by name, or what is wrong with the one that was asked for.
pub open spec fn level_view(level: Option<Result<String, String>>) -> Option<
    Result<Seq<char>, Seq<char>>,
> {
    match level {
        Some(Ok(s)) => Some(Ok(s@)),
        Some(Err(s)) => Some(Err(s@)),
        None => None,
    }
}

pub open spec fn with_compaction(e: EngineView, level: Option<Result<Seq<char>, Seq<char>>>) -> Update {
    match level {
        None => Update { engine: e, changes: Seq::empty() },
        Some(Ok(name)) => Update {
            engine: EngineView { compact_level: name, ..e },
            changes: seq!["compaction: "@ + e.compact_level + " → "@ + name],
        },
        Some(Err(error)) => Update {
            engine: e,
            changes: seq!["compaction: invalid ("@ + error + ")"@],
        },
    }
}

/// All settings of an update, one after the other.
pub open spec fn updated(
    e: EngineView,
    model: Option<Seq<char>>,
    thinking: Option<Seq<char>>,
    thinking_budget: Option<u32>,
    effort: Option<Seq<char>>,
    compaction: Option<Result<Seq<char>, Seq<char>>>,
) -> Update {
    let a = with_model(e, model);
    let b = with_thinking(a.engine, thinking, thinking_budget);
    let c = with_effort(b.engine, effort);
    let d = with_compaction(c.engine, compaction);
    Update { engine: d.engine, changes: a.changes + b.changes + c.changes + d.changes }
}

// ---------------------------------------------------------------------------
// Executable: settings
// ---------------------------------------------------------------------------

/// The change of an update of one setting, as a list.
pub open spec fn change_list(change: Option<String>) -> Seq<Seq<char>> {
    match change {
        Some(s) => seq![s@],
        None => Seq::empty(),
    }
}

fn push_change(changes: &mut Vec<String>, change: Option<String>)
    ensures
        views(final(changes)@) == views(old(changes)@) + change_list(change),
{
    let ghost before = views(changes@);
    match change {
        Some(s) => {
            changes.push(s);
            assert(views(changes@) =~= before + seq![s@]);
        },
        None => {
            assert(views(changes@) =~= before + Seq::empty());
        },
    }
}

fn arrow(label: &str, old_value: &str, new_value: &str) -> (r: String)
    ensures
        r@ == label@ + old_value@ + " → "@ + new_value@,
{
    let mut r = concat3(label, old_value, " → ");
    r.append(new_value);
    r
}

impl AgentEngine {
    fn update_model(&mut self, model: Option<String>) -> (r: Option<String>)
        ensures
            final(self)@ == with_model(old(self)@, opt_view(model)).engine,
            change_list(r) == with_model(old(self)@, opt_view(model)).changes,
    {
        match model {
            Some(new_model) => {
                let change = arrow("model: ", self.model.as_str(), new_model.as_str());
                self.model = new_model;
                Some(change)
            },
            None => None,
        }
    }

    fn update_thinking(&mut self, thinking: Option<String>, thinking_budget: Option<u32>) -> (r:
        Option<String>)
        ensures
            final(self)@ == with_thinking(
                old(self)@,
                opt_view(thinking),
                thinking_budget,
            ).engine,
            change_list(r) == with_thinking(
                old(self)@,
                opt_view(thinking),
                thinking_budget,
            ).changes,
    {
        match thinking {
            Some(value) => {
                if str_eq(value.as_str(), "enabled") {
                    let budget: u32 = thinking_budget.unwrap_or(DEFAULT_THINKING_BUDGET);
                    self.thinking = Some(ThinkingConfig::Enabled { budget_tokens: budget });
                    Some(
                        concat3(
                            "thinking: enabled (budget: ",
                            format_u64(budget as u64).as_str(),
                            ")",
                        ),
                    )
                } else if str_eq(value.as_str(), "disabled") {
                    self.thinking = Some(ThinkingConfig::Disabled);
                    Some(copy_text("thinking: disabled"))
                } else {
                    Some(concat3("thinking: ignored invalid value \"", value.as_str(), "\""))
                }
            },
            None => {
                if let Some(new_budget) = thinking_budget {
                    if let Some(ThinkingConfig::Enabled { .. }) = self.thinking {
                        self.thinking = Some(ThinkingConfig::Enabled { budget_tokens: new_budget });
                        return Some(
                            concat2("thinking budget: ", format_u64(new_budget as u64).as_str()),
                        );
                    }
                }
                None
            },
        }
    }

    fn update_effort(&mut self, effort: Option<String>) -> (r: Option<String>)
        ensures
            final(self)@ == with_effort(old(self)@, opt_view(effort)).engine,
            change_list(r) == with_effort(old(self)@, opt_view(effort)).changes,
    {
        let new_effort = match effort {
            Some(e) => e,
            None => {
                return None;
            },
        };
        if is_empty(new_effort.as_str()) {
            self.reasoning_effort = None;
            return Some(copy_text("effort: cleared"));
        }
        if !self.compat.supports_effort() {
            return Some(copy_text("effort: not supported by current provider"));
        }
        if let Some(levels) = &self.compat.reasoning.effort_levels {
            if levels.len() > 0 && !contains_text(levels, new_effort.as_str()) {
                let mut change = concat3(
                    "effort: invalid level \"",
                    new_effort.as_str(),
                    "\" (valid: ",
                );
                change.append(joined(levels, ", ").as_str());
                change.append(")");
                return Some(change);
            }
        }
        let change = match &self.reasoning_effort {
            Some(old_effort) => arrow("effort: ", old_effort.as_str(), new_effort.as_str()),
            None => arrow("effort: ", "none", new_effort.as_str()),
        };
        self.reasoning_effort = Some(new_effort);
        Some(change)
    }

    fn update_compaction(&mut self, compaction: Option<Result<String, String>>) -> (r: Option<
        String,
    >)
        ensures
            final(self)@ == with_compaction(old(self)@, level_view(compaction)).engine,
            change_list(r) == with_compaction(old(self)@, level_view(compaction)).changes,
    {
        match compaction {
            None => None,
            Some(Ok(name)) => {
                let change = arrow("compaction: ", self.compact_level.as_str(), name.as_str());
                self.compact_level = name;
                Some(change)
            },
            Some(Err(error)) => Some(concat3("compaction: invalid (", error.as_str(), ")")),
        }
    }

    /// Apply a runtime config update received from the protocol layer. The
    /// compaction level comes by its name, or with what is wrong with it.
    ///
    /// Returns a list of human-readable change descriptions for the Info event.
    /// Empty list means no fields were changed.
    pub fn apply_config_update(
        &mut self,
        model: Option<String>,
        thinking: Option<String>,
        thinking_budget: Option<u32>,
        effort: Option<String>,
        compaction: Option<Result<String, String>>,
    ) -> (r: Vec<String>)
        ensures
            ({
                let update = updated(
                    old(self)@,
                    opt_view(model),
                    opt_view(thinking),
                    thinking_budget,
                    opt_view(effort),
                    level_view(compaction),
                );
                final(self)@ == update.engine && views(r@) == update.changes
            }),
    {
        let mut changes: Vec<String> = Vec::new();
        assert(views(changes@) =~= Seq::empty());
        let a = self.update_model(model);
        push_change(&mut changes, a);
        assert(views(changes@) =~= change_list(a));
        let b = self.update_thinking(thinking, thinking_budget);
        push_change(&mut changes, b);
        let c = self.update_effort(effort);
        push_change(&mut changes, c);
        let d = self.update_compaction(compaction);
        push_change(&mut changes, d);
        changes
    }
}

// ---------------------------------------------------------------------------
// Model: skills
// ---------------------------------------------------------------------------

/// A context modifier as mathematics.
#[verifier::ext_equal]
pub struct ModifierView {
    pub model: Option<Seq<char>>,
    pub effort: Option<Seq<char>>,
    pub allowed_tools: Seq<Seq<char>>,
    pub plan_mode_transition: Option<PlanModeTransition>,
}

impl ContextModifier {
    pub open spec fn view(&self) -> ModifierView {
        ModifierView {
            model: opt_view(self.model),
            effort: opt_view(self.effort),
            allowed_tools: views(self.allowed_tools@),
            plan_mode_transition: self.plan_mode_transition,
        }
    }
}

pub open spec fn modifier_views(modifiers: Seq<Option<ContextModifier>>) -> Seq<
    Option<ModifierView>,
> {
    Seq::new(
        modifiers.len(),
        |i: int|
            match modifiers[i] {
                Some(m) => Some(m@),
                None => None,
            },
    )
}

/// A list with some names added, those that are not on it yet.
pub open spec fn with_names(list: Seq<Seq<char>>, names: Seq<Seq<char>>) -> Seq<Seq<char>>
    decreases names.len(),
{
    if names.len() == 0 {
        list
    } else {
        let rest = with_names(list, names.drop_last());
        if rest.contains(names.last()) {
            rest
        } else {
            rest.push(names.last())
        }
    }
}

/// Entering plan mode notes the allow list; leaving it brings the noted one back.
pub open spec fn with_transition(e: EngineView, t: Option<PlanModeTransition>) -> EngineView {
    match t {
        None => e,
        Some(PlanModeTransition::Enter) => EngineView {
            plan_state: PlanView { is_active: true, pre_plan_allow_list: e.allow_list },
            ..e
        },
        Some(PlanModeTransition::Exit) => EngineView {
            plan_state: PlanView { is_active: false, ..e.plan_state },
            allow_list: e.plan_state.pre_plan_allow_list,
            ..e
        },
    }
}

pub open spec fn with_modifier(e: EngineView, m: ModifierView) -> EngineView {
    with_transition(
        EngineView {
            model: setting(m.model, e.model),
            reasoning_effort: if m.effort is Some {
                m.effort
            } else {
                e.reasoning_effort
            },
            allow_list: with_names(e.allow_list, m.allowed_tools),
            ..e
        },
        m.plan_mode_transition,
    )
}

pub open spec fn with_modifiers(e: EngineView, ms: Seq<Option<ModifierView>>) -> EngineView
    decreases ms.len(),
{
    if ms.len() == 0 {
        e
    } else {
        let before = with_modifiers(e, ms.drop_last());
        match ms.last() {
            Some(m) => with_modifier(before, m),
            None => before,
        }
    }
}

/// The names that some modifiers allow, in order.
pub open spec fn allowed_names(ms: Seq<Option<ModifierView>>) -> Seq<Seq<char>>
    decreases ms.len(),
{
    if ms.len() == 0 {
        Seq::empty()
    } else {
        let before = allowed_names(ms.drop_last());
        match ms.last() {
            Some(m) => before + m.allowed_tools,
            None => before,
        }
    }
}

/// Whether plan mode is on after some modifiers, where they say so.
pub open spec fn plan_flag(ms: Seq<Option<ModifierView>>) -> Option<bool>
    decreases ms.len(),
{
    if ms.len() == 0 {
        None
    } else {
        match ms.last() {
            Some(m) => match m.plan_mode_transition {
                Some(t) => Some(t == PlanModeTransition::Enter),
                None => plan_flag(ms.drop_last()),
            },
            None => plan_flag(ms.drop_last()),
        }
    }
}

// ---------------------------------------------------------------------------
// Executable: skills
// ---------------------------------------------------------------------------

/// What some modifiers change outside the agent.
#[derive(Debug)]
pub struct ModifierEffects {
    /// Names to be allowed without asking, in order.
    pub confirmed_tools: Vec<String>,
    /// What the shared plan-mode flag becomes, where it changes.
    pub plan_active: Option<bool>,
}

fn add_names(list: &mut Vec<String>, names: &Vec<String>)
    ensures
        views(final(list)@) == with_names(views(old(list)@), views(names@)),
{
    let ghost start = views(list@);
    let ghost all = views(names@);
    for i in 0..names.len()
        invariant
            all == views(names@),
            views(list@) == with_names(start, all.take(i as int)),
    {
        assert(all.take(i + 1).drop_last() =~= all.take(i as int));
        if !contains_text(list, names[i].as_str()) {
            let ghost before = views(list@);
            let name = names[i].clone();
            list.push(name);
            assert(views(list@) =~= before.push(name@));
        }
    }
    assert(all.take(all.len() as int) =~= all);
}

impl AgentEngine {
    fn apply_modifier(&mut self, m: &ContextModifier)
        ensures
            final(self)@ == with_modifier(old(self)@, m@),
    {
        if let Some(model) = &m.model {
            self.model = model.clone();
        }
        if let Some(effort) = &m.effort {
            self.reasoning_effort = Some(effort.clone());
        }
        add_names(&mut self.allow_list, &m.allowed_tools);
        match m.plan_mode_transition {
            Some(PlanModeTransition::Enter) => {
                self.plan_state.pre_plan_allow_list = copy_texts(&self.allow_list);
                self.plan_state.is_active = true;
            },
            Some(PlanModeTransition::Exit) => {
                self.plan_state.is_active = false;
                self.allow_list = copy_texts(&self.plan_state.pre_plan_allow_list);
            },
            None => {},
        }
    }

    /// Apply context modifiers collected from skill tool executions.
    pub fn apply_context_modifiers(&mut self, modifiers: &Vec<Option<ContextModifier>>) -> (r:
        ModifierEffects)
        ensures
            final(self)@ == with_modifiers(old(self)@, modifier_views(modifiers@)),
            views(r.confirmed_tools@) == allowed_names(modifier_views(modifiers@)),
            r.plan_active == plan_flag(modifier_views(modifiers@)),
    {
        let ghost start = self@;
        let ghost all = modifier_views(modifiers@);
        let mut confirmed: Vec<String> = Vec::new();
        let mut plan_active: Option<bool> = None;
        assert(views(confirmed@) =~= Seq::empty());
        for i in 0..modifiers.len()
            invariant
                all == modifier_views(modifiers@),
                self@ == with_modifiers(start, all.take(i as int)),
                views(confirmed@) == allowed_names(all.take(i as int)),
                plan_active == plan_flag(all.take(i as int)),
        {
            assert(all.take(i + 1).drop_last() =~= all.take(i as int));
            if let Some(m) = &modifiers[i] {
                assert(all.take(i + 1).last() == Some(m@));
                self.apply_modifier(m);
                let ghost before = views(confirmed@);
                let mut names = copy_texts(&m.allowed_tools);
                let ghost more = views(names@);
                confirmed.append(&mut names);
                assert(views(confirmed@) =~= before + more);
                match m.plan_mode_transition {
                    Some(PlanModeTransition::Enter) => {
                        plan_active = Some(true);
                    },
                    Some(PlanModeTransition::Exit) => {
                        plan_active = Some(false);
                    },
                    None => {},
                }
            }
        }
        assert(all.take(all.len() as int) =~= all);
        ModifierEffects { confirmed_tools: confirmed, plan_active }
    }
}

// ---------------------------------------------------------------------------
// Token counts
// ---------------------------------------------------------------------------

/// The counts of a turn added to those before it.
pub open spec fn usage_sum(total: TokenUsage, turn: TokenUsage) -> TokenUsage {
    TokenUsage {
        input_tokens: (total.input_tokens + turn.input_tokens) as u64,
        output_tokens: (total.output_tokens + turn.output_tokens) as u64,
        cache_creation_tokens: (total.cache_creation_tokens + turn.cache_creation_tokens) as u64,
        cache_read_tokens: (total.cache_read_tokens + turn.cache_read_tokens) as u64,
    }
}

/// The counts can be added.
pub open spec fn usage_fits(total: TokenUsage, turn: TokenUsage) -> bool {
    &&& total.input_tokens + turn.input_tokens <= u64::MAX
    &&& total.output_tokens + turn.output_tokens <= u64::MAX
    &&& total.cache_creation_tokens + turn.cache_creation_tokens <= u64::MAX
    &&& total.cache_read_tokens + turn.cache_read_tokens <= u64::MAX
}

/// The larger of what the provider reports and what is estimated here: some
/// providers report too little.
pub open spec fn watermark(reported: u64, estimate: u64) -> u64 {
    if reported >= estimate {
        reported
    } else {
        estimate
    }
}

/// What a turn's token counts do to the engine, and what the user is told: the
/// watermark is the larger of the report and the estimate for the conversation.
pub open spec fn usage_recorded(
    before: EngineView,
    turn: TokenUsage,
    after: EngineView,
    notice: Option<Seq<char>>,
) -> bool {
    let estimate = estimated_tokens(before.messages) as u64;
    &&& after == (EngineView {
        total_usage: usage_sum(before.total_usage, turn),
        compact_state: CompactState {
            last_input_tokens: watermark(turn.input_tokens, estimate),
            ..before.compact_state
        },
        ..before
    })
    &&& notice == watermark_notice(turn.input_tokens, estimate)
}

/// An estimate far above the report is worth a word.
pub open spec fn watermark_notice(reported: u64, estimate: u64) -> Option<Seq<char>> {
    if estimate > reported && estimate - reported > 10_000 {
        Some(
            "Token watermark override: provider="@ + decimal(reported as nat)
                + ", local_estimate="@ + decimal(estimate as nat) + ", using="@ + decimal(
                watermark(reported, estimate) as nat,
            ),
        )
    } else {
        None
    }
}

impl AgentEngine {
    /// Fold one turn's token usage into the running totals and update the
    /// compaction watermark. `local_estimate` is the estimate for the
    /// conversation. Returns what to tell the user.
    pub fn record_turn_usage(&mut self, turn_usage: &TokenUsage, local_estimate: u64) -> (r: Option<
        String,
    >)
        requires
            usage_fits(old(self)@.total_usage, *turn_usage),
        ensures
            final(self)@ == (EngineView {
                total_usage: usage_sum(old(self)@.total_usage, *turn_usage),
                compact_state: CompactState {
                    last_input_tokens: watermark(turn_usage.input_tokens, local_estimate),
                    ..old(self)@.compact_state
                },
                ..old(self)@
            }),
            opt_view(r) == watermark_notice(turn_usage.input_tokens, local_estimate),
    {
        self.total_usage = TokenUsage {
            input_tokens: self.total_usage.input_tokens + turn_usage.input_tokens,
            output_tokens: self.total_usage.output_tokens + turn_usage.output_tokens,
            cache_creation_tokens: self.total_usage.cache_creation_tokens
                + turn_usage.cache_creation_tokens,
            cache_read_tokens: self.total_usage.cache_read_tokens + turn_usage.cache_read_tokens,
        };
        let reported: u64 = turn_usage.input_tokens;
        let effective: u64 = if reported >= local_estimate {
            reported
        } else {
            local_estimate
        };
        self.compact_state.last_input_tokens = effective;
        if local_estimate > reported && local_estimate - reported > 10_000 {
            let mut notice = concat3(
                "Token watermark override: provider=",
                format_u64(reported).as_str(),
                ", local_estimate=",
            );
            notice.append(format_u64(local_estimate).as_str());
            notice.append(", using=");
            notice.append(format_u64(effective).as_str());
            Some(notice)
        } else {
            None
        }
    }

    /// Fold one turn's token usage into the running totals and update the
    /// compaction watermark, with the estimate for the conversation as it stands.
    /// Returns what to tell the user.
    pub fn record_measured_usage(&mut self, turn_usage: &TokenUsage) -> (r: Option<String>)
        requires
            usage_fits(old(self)@.total_usage, *turn_usage),
            is_countable(old(self)@.messages),
        ensures
            usage_recorded(old(self)@, *turn_usage, final(self)@, opt_view(r)),
    {
        let local_estimate: u64 = estimate_tokens_from_messages(self.messages.as_slice());
        self.record_turn_usage(turn_usage, local_estimate)
    }

    /// Fold one turn's token usage into the running totals where the counts can be
    /// added up; `None`, and no change, where they cannot.
    pub fn checked_record_measured_usage(&mut self, turn_usage: &TokenUsage) -> (r: Option<
        Option<String>,
    >)
        ensures
            match r {
                Some(notice) => {
                    &&& usage_fits(old(self)@.total_usage, *turn_usage)
                    &&& is_countable(old(self)@.messages)
                    &&& usage_recorded(old(self)@, *turn_usage, final(self)@, opt_view(notice))
                },
                None => {
                    &&& !usage_fits(old(self)@.total_usage, *turn_usage) || !is_countable(
                        old(self)@.messages,
                    )
                    &&& final(self)@ == old(self)@
                },
            },
    {
        let total = &self.total_usage;
        let fits = total.input_tokens.checked_add(turn_usage.input_tokens).is_some()
            && total.output_tokens.checked_add(turn_usage.output_tokens).is_some()
            && total.cache_creation_tokens.checked_add(turn_usage.cache_creation_tokens).is_some()
            && total.cache_read_tokens.checked_add(turn_usage.cache_read_tokens).is_some();
        if fits && checked_estimate_tokens_from_messages(self.messages.as_slice()).is_some() {
            Some(self.record_measured_usage(turn_usage))
        } else {
            None
        }
    }
}

// ---------------------------------------------------------------------------
// Laws
// ---------------------------------------------------------------------------

/// The modifiers say nothing of plan mode.
pub open spec fn no_transitions(ms: Seq<Option<ModifierView>>) -> bool {
    forall|i: int|
        0 <= i < ms.len() ==> ((#[trigger] ms[i]) matches Some(m)
            ==> m.plan_mode_transition is None)
}

proof fn lemma_plan_state_kept(e: EngineView, ms: Seq<Option<ModifierView>>)
    requires
        no_transitions(ms),
    ensures
        with_modifiers(e, ms).plan_state == e.plan_state,
    decreases ms.len(),
{
    if ms.len() > 0 {
        let front = ms.drop_last();
        assert forall|i: int| 0 <= i < front.len() implies ((#[trigger] front[i]) matches Some(m)
            ==> m.plan_mode_transition is None) by {
            assert(front[i] == ms[i]);
        }
        lemma_plan_state_kept(e, front);
        assert(ms[ms.len() - 1] == ms.last());
    }
}

/// Whatever skills allow while plan mode is on, leaving it brings back the allow
/// list that it was entered with.
pub proof fn leaving_plan_mode_restores_the_allow_list(
    e: EngineView,
    between: Seq<Option<ModifierView>>,
    exit: ModifierView,
)
    requires
        no_transitions(between),
        exit.plan_mode_transition == Some(PlanModeTransition::Exit),
    ensures
        ({
            let inside = with_transition(e, Some(PlanModeTransition::Enter));
            let after = with_modifier(with_modifiers(inside, between), exit);
            &&& inside.plan_state.is_active
            &&& with_modifiers(inside, between).plan_state.is_active
            &&& !after.plan_state.is_active
            &&& after.allow_list == e.allow_list
        }),
{
    let inside = with_transition(e, Some(PlanModeTransition::Enter));
    lemma_plan_state_kept(inside, between);
}

/// An update that asks for nothing changes nothing and reports nothing.
pub proof fn empty_updates_change_nothing(e: EngineView)
    ensures
        updated(e, None, None, None, None, None) == (Update { engine: e, changes: Seq::empty() }),
{
    assert(updated(e, None, None, None, None, None).changes =~= Seq::empty());
}

/// The watermark is never below the report nor below the estimate.
pub proof fn the_watermark_is_an_upper_bound(reported: u64, estimate: u64)
    ensures
        watermark(reported, estimate) >= reported,
        watermark(reported, estimate) >= estimate,
        watermark(reported, estimate) == reported || watermark(reported, estimate) == estimate,
{
}

} // verus!
