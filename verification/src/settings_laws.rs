//! Laws of the agent's settings: what a start, an update, a skill and a turn's token
//! counts change, what they leave, and what a request carries of it.

use vstd::prelude::*;

use crate::compaction::CompactState;
use crate::compat::list_views;
use crate::engine::{
    appended, is_request, started, turn_tools, EngineConfig, EngineView, PlanView, ToolEntry,
};
use crate::estimate::estimated_tokens;
use crate::llm::{RequestView, ThinkingConfig};
use crate::message::{BlockView, MessageView, Role, TokenUsage};
use crate::sequences::{gathered, gathered_by_last, only_if};
use crate::settings::{
    allowed_names, plan_flag, updated, usage_fits, usage_recorded, with_modifier, with_modifiers,
    with_names, ModifierView,
};
use crate::text::{decimal, join, views};
use crate::tool_call::PlanModeTransition;
use crate::turn::TurnKind;

verus! {

// ---------------------------------------------------------------------------
// Starting
// ---------------------------------------------------------------------------

/// An agent starts with the settings of its configuration, where one is left out with
/// its default, and with the conversation, the counts and the session it is given.
pub proof fn agents_start_as_configured(
    config: EngineConfig,
    messages: Seq<MessageView>,
    usage: TokenUsage,
    session: Option<Seq<char>>,
)
    ensures
        ({
            let e = started(config, messages, usage, session);
            &&& e.messages == messages && e.total_usage == usage && e.session_id == session
            &&& e.compat == config.compat && e.thinking == config.thinking
            &&& e.model == config.model@ && e.max_tokens == config.max_tokens
            &&& e.max_turns_per_run == config.max_turns
            &&& e.allow_list == views(config.allow_list@)
            &&& e.compact_config == config.compact && e.compact_level == config.compaction@
            &&& e.toon_enabled == config.toon
            &&& e.reasoning_effort is None && e.msg_id.len() == 0
            &&& !e.plan_state.is_active
            &&& e.compact_state.last_input_tokens == 0 && e.compact_state.consecutive_failures
                == 0
            &&& match config.system_prompt {
                Some(prompt) => e.system_prompt == prompt@,
                None => e.system_prompt.len() == 0,
            }
            &&& e.max_tool_call_malformed_turns == (match config.max_tool_call_malformed_turns {
                Some(limit) => limit,
                None => 3usize,
            })
            &&& e.max_tool_call_failure_turns == (match config.max_tool_call_failure_turns {
                Some(limit) => limit,
                None => 3usize,
            })
        }),
{
}

// ---------------------------------------------------------------------------
// Updates
// ---------------------------------------------------------------------------

/// The effort that an update asks for is one that the provider takes.
pub open spec fn effort_is_taken(e: EngineView, effort: Seq<char>) -> bool {
    let levels = list_views(e.compat.reasoning.effort_levels);
    &&& e.compat.reasoning.supports_effort == Some(true)
    &&& levels.len() == 0 || exists|k: int| 0 <= k < levels.len() && #[trigger] levels[k] == effort
}

/// An update sets the model, the thinking, the effort and the compaction level that
/// it asks for, as far as they are valid; it changes nothing else, and it says one
/// thing of each setting that it was asked to change.
pub proof fn updates_set_what_they_ask_for(
    e: EngineView,
    model: Option<Seq<char>>,
    thinking: Option<Seq<char>>,
    budget: Option<u32>,
    effort: Option<Seq<char>>,
    level: Option<Result<Seq<char>, Seq<char>>>,
)
    ensures
        ({
            let u = updated(e, model, thinking, budget, effort, level);
            let after = u.engine;
            &&& after == (EngineView {
                model: after.model,
                thinking: after.thinking,
                reasoning_effort: after.reasoning_effort,
                compact_level: after.compact_level,
                ..e
            })
            &&& after.model == (if model is Some {
                model->0
            } else {
                e.model
            })
            &&& after.compact_level == (if level is Some && level->0 is Ok {
                level->0->Ok_0
            } else {
                e.compact_level
            })
            &&& thinking == Some("disabled"@) ==> after.thinking == Some(ThinkingConfig::Disabled)
            &&& thinking == Some("enabled"@) ==> after.thinking == Some(
                ThinkingConfig::Enabled {
                    budget_tokens: if budget is Some {
                        budget->0
                    } else {
                        10_000
                    },
                },
            )
            &&& thinking is Some && thinking->0 != "disabled"@ && thinking->0 != "enabled"@
                ==> after.thinking == e.thinking
            &&& thinking is None ==> after.thinking == (if budget is Some && e.thinking is Some
                && e.thinking->0 is Enabled {
                Some(ThinkingConfig::Enabled { budget_tokens: budget->0 })
            } else {
                e.thinking
            })
            &&& effort is None ==> after.reasoning_effort == e.reasoning_effort
            &&& effort is Some && effort->0.len() == 0 ==> after.reasoning_effort is None
            &&& effort is Some && effort->0.len() > 0 ==> after.reasoning_effort == (
            if effort_is_taken(e, effort->0) {
                effort
            } else {
                e.reasoning_effort
            })
            &&& u.changes.len() == (if model is Some {
                1int
            } else {
                0
            }) + (if thinking is Some || (budget is Some && e.thinking is Some
                && e.thinking->0 is Enabled) {
                1int
            } else {
                0
            }) + (if effort is Some {
                1int
            } else {
                0
            }) + (if level is Some {
                1int
            } else {
                0
            })
        }),
{
    lemma_enabled_is_not_disabled();
    if let Some(asked) = effort {
        let levels = list_views(e.compat.reasoning.effort_levels);
        assert(levels.contains(asked) <==> exists|k: int|
            0 <= k < levels.len() && #[trigger] levels[k] == asked);
    }
}

proof fn lemma_enabled_is_not_disabled()
    ensures
        "enabled"@ != "disabled"@,
{
    reveal_strlit("enabled");
    reveal_strlit("disabled");
    assert("enabled"@.len() != "disabled"@.len());
}

/// What is said of a change names the old setting and the new one.
pub proof fn changes_are_told(
    e: EngineView,
    text: Seq<char>,
    budget: Option<u32>,
)
    ensures
        updated(e, Some(text), None, None, None, None).changes == seq![
            "model: "@ + e.model + " → "@ + text,
        ],
        updated(e, None, None, None, None, Some(Ok(text))).changes == seq![
            "compaction: "@ + e.compact_level + " → "@ + text,
        ],
        updated(e, None, None, None, None, Some(Err(text))).changes == seq![
            "compaction: invalid ("@ + text + ")"@,
        ],
        updated(e, None, Some("disabled"@), budget, None, None).changes == seq![
            "thinking: disabled"@,
        ],
        updated(e, None, Some("enabled"@), budget, None, None).changes == seq![
            "thinking: enabled (budget: "@ + decimal(
                if budget is Some {
                    budget->0 as nat
                } else {
                    10_000
                },
            ) + ")"@,
        ],
        text != "enabled"@ && text != "disabled"@ ==> updated(
            e,
            None,
            Some(text),
            budget,
            None,
            None,
        ).changes == seq!["thinking: ignored invalid value \""@ + text + "\""@],
        budget is Some && e.thinking is Some && e.thinking->0 is Enabled ==> updated(
            e,
            None,
            None,
            budget,
            None,
            None,
        ).changes == seq!["thinking budget: "@ + decimal(budget->0 as nat)],
        updated(e, None, None, None, Some(Seq::empty()), None).changes == seq!["effort: cleared"@],
        text.len() > 0 && e.compat.reasoning.supports_effort != Some(true) ==> updated(
            e,
            None,
            None,
            None,
            Some(text),
            None,
        ).changes == seq!["effort: not supported by current provider"@],
        text.len() > 0 && e.compat.reasoning.supports_effort == Some(true) && !effort_is_taken(
            e,
            text,
        ) ==> updated(e, None, None, None, Some(text), None).changes == seq![
            "effort: invalid level \""@ + text + "\" (valid: "@ + join(
                list_views(e.compat.reasoning.effort_levels),
                ", "@,
            ) + ")"@,
        ],
        text.len() > 0 && effort_is_taken(e, text) ==> updated(
            e,
            None,
            None,
            None,
            Some(text),
            None,
        ).changes == seq![
            "effort: "@ + (if e.reasoning_effort is Some {
                e.reasoning_effort->0
            } else {
                "none"@
            }) + " → "@ + text,
        ],
{
    lemma_enabled_is_not_disabled();
    let levels = list_views(e.compat.reasoning.effort_levels);
    assert(levels.contains(text) <==> exists|k: int|
        0 <= k < levels.len() && #[trigger] levels[k] == text);
}

// ---------------------------------------------------------------------------
// Skills
// ---------------------------------------------------------------------------

/// Modifiers act one after the other, and one that is missing does not act.
pub proof fn modifiers_act_in_order(
    e: EngineView,
    m: ModifierView,
    rest: Seq<Option<ModifierView>>,
)
    ensures
        with_modifiers(e, Seq::empty()) == e,
        with_modifiers(e, seq![Some(m)] + rest) == with_modifiers(with_modifier(e, m), rest),
        with_modifiers(e, seq![None::<ModifierView>] + rest) == with_modifiers(e, rest),
    decreases rest.len(),
{
    let some = seq![Some(m)] + rest;
    let none = seq![None::<ModifierView>] + rest;
    if rest.len() == 0 {
        assert(some.drop_last() =~= Seq::empty());
        assert(none.drop_last() =~= Seq::empty());
        assert(with_modifiers(e, some.drop_last()) == e);
    } else {
        modifiers_act_in_order(e, m, rest.drop_last());
        assert(some.drop_last() =~= seq![Some(m)] + rest.drop_last());
        assert(none.drop_last() =~= seq![None::<ModifierView>] + rest.drop_last());
    }
}

/// A modifier sets the model and the effort that it names, allows the tools that it
/// names, and leaves everything else; plan mode is entered and left with the allow
/// list in view.
pub proof fn modifiers_set_what_they_name(e: EngineView, m: ModifierView)
    ensures
        ({
            let after = with_modifier(e, m);
            let names = with_names(e.allow_list, m.allowed_tools);
            &&& after == (EngineView {
                model: after.model,
                reasoning_effort: after.reasoning_effort,
                allow_list: after.allow_list,
                plan_state: after.plan_state,
                ..e
            })
            &&& after.model == (if m.model is Some {
                m.model->0
            } else {
                e.model
            })
            &&& after.reasoning_effort == (if m.effort is Some {
                m.effort
            } else {
                e.reasoning_effort
            })
            &&& m.plan_mode_transition is None ==> after.allow_list == names && after.plan_state
                == e.plan_state
            &&& m.plan_mode_transition == Some(PlanModeTransition::Enter) ==> after.allow_list
                == names && after.plan_state == (PlanView {
                is_active: true,
                pre_plan_allow_list: names,
            })
            &&& m.plan_mode_transition == Some(PlanModeTransition::Exit) ==> after.allow_list
                == e.plan_state.pre_plan_allow_list && !after.plan_state.is_active
        }),
{
}

/// Names are added behind the list, each that is missing once, in their order; those
/// on the list stay where they are.
pub proof fn names_are_added_once(list: Seq<Seq<char>>, names: Seq<Seq<char>>)
    ensures
        with_names(list, names).len() >= list.len(),
        with_names(list, names).take(list.len() as int) == list,
        forall|i: int| 0 <= i < names.len() ==> with_names(list, names).contains(#[trigger] names[i]),
        forall|i: int|
            list.len() <= i < with_names(list, names).len() ==> names.contains(
                #[trigger] with_names(list, names)[i],
            ),
        forall|i: int, j: int|
            0 <= i < j < with_names(list, names).len() && list.len() <= j ==> #[trigger] with_names(
                list,
                names,
            )[i] != #[trigger] with_names(list, names)[j],
    decreases names.len(),
{
    if names.len() == 0 {
        assert(list.take(list.len() as int) =~= list);
    } else {
        let front = names.drop_last();
        let x = names.last();
        names_are_added_once(list, front);
        let before = with_names(list, front);
        let after = with_names(list, names);
        assert(after.take(list.len() as int) =~= before.take(list.len() as int));
        assert forall|i: int| 0 <= i < names.len() implies after.contains(#[trigger] names[i]) by {
            if i < front.len() {
                assert(before.contains(front[i]));
                let k = choose|k: int| 0 <= k < before.len() && before[k] == front[i];
                assert(after[k] == names[i]);
            } else if !before.contains(x) {
                assert(after[after.len() - 1] == x);
            }
        }
        assert forall|i: int| list.len() <= i < after.len() implies names.contains(
            #[trigger] after[i],
        ) by {
            if i < before.len() {
                assert(front.contains(before[i]));
                let k = choose|k: int| 0 <= k < front.len() && front[k] == before[i];
                assert(names[k] == after[i]);
            } else {
                assert(names[names.len() - 1] == after[i]);
            }
        }
        assert forall|i: int, j: int| 0 <= i < j < after.len() && list.len() <= j implies
            #[trigger] after[i] != #[trigger] after[j] by {
            if j < before.len() {
                assert(before[i] != before[j]);
            } else {
                assert(before[i] == after[i]);
            }
        }
    }
}

/// Adding names in two portions adds them all, those of the first before those of
/// the second.
pub proof fn names_are_added_in_order(
    list: Seq<Seq<char>>,
    a: Seq<Seq<char>>,
    b: Seq<Seq<char>>,
)
    ensures
        with_names(list, a + b) == with_names(with_names(list, a), b),
    decreases b.len(),
{
    if b.len() == 0 {
        assert(a + b =~= a);
    } else {
        assert((a + b).drop_last() =~= a + b.drop_last());
        names_are_added_in_order(list, a, b.drop_last());
    }
}

/// The names that are to be allowed without asking are those of all modifiers, in
/// order.
pub proof fn every_modifier_allows_its_names(ms: Seq<Option<ModifierView>>)
    ensures
        allowed_names(ms) == gathered(
            ms,
            |m: Option<ModifierView>|
                if m is Some {
                    m->0.allowed_tools
                } else {
                    Seq::empty()
                },
        ),
    decreases ms.len(),
{
    let give = |m: Option<ModifierView>|
        if m is Some {
            m->0.allowed_tools
        } else {
            Seq::empty()
        };
    if ms.len() > 0 {
        every_modifier_allows_its_names(ms.drop_last());
        gathered_by_last(ms, give);
        assert(allowed_names(ms) =~= gathered(ms, give));
    } else {
        assert(allowed_names(ms) =~= gathered(ms, give));
    }
}

/// The shared flag follows the last transition, and is left alone where there is none.
pub proof fn the_last_transition_counts(ms: Seq<Option<ModifierView>>, k: int)
    ensures
        (forall|i: int|
            0 <= i < ms.len() ==> ((#[trigger] ms[i]) matches Some(m)
                ==> m.plan_mode_transition is None)) ==> plan_flag(ms) is None,
        0 <= k < ms.len() && ms[k] is Some && ms[k]->0.plan_mode_transition is Some && (forall|
            i: int,
        |
            k < i < ms.len() ==> ((#[trigger] ms[i]) matches Some(m)
                ==> m.plan_mode_transition is None)) ==> plan_flag(ms) == Some(
            ms[k]->0.plan_mode_transition == Some(PlanModeTransition::Enter),
        ),
    decreases ms.len(),
{
    if ms.len() > 0 {
        let front = ms.drop_last();
        assert(forall|i: int| 0 <= i < front.len() ==> #[trigger] front[i] == ms[i]);
        the_last_transition_counts(front, k);
        assert(ms[ms.len() - 1] == ms.last());
    }
}

// ---------------------------------------------------------------------------
// Token counts
// ---------------------------------------------------------------------------

/// Recording a turn adds each of its counts to the total of the same kind, notes the
/// larger of the report and the estimate, and changes nothing else; the user hears of
/// it where the estimate is more than ten thousand above the report.
pub proof fn counts_are_added_up(
    before: EngineView,
    turn: TokenUsage,
    after: EngineView,
    notice: Option<Seq<char>>,
)
    requires
        usage_fits(before.total_usage, turn),
        estimated_tokens(before.messages) <= u64::MAX,
        usage_recorded(before, turn, after, notice),
    ensures
        after.total_usage.input_tokens == before.total_usage.input_tokens + turn.input_tokens,
        after.total_usage.output_tokens == before.total_usage.output_tokens + turn.output_tokens,
        after.total_usage.cache_creation_tokens == before.total_usage.cache_creation_tokens
            + turn.cache_creation_tokens,
        after.total_usage.cache_read_tokens == before.total_usage.cache_read_tokens
            + turn.cache_read_tokens,
        after.compact_state.last_input_tokens >= turn.input_tokens,
        after.compact_state.last_input_tokens >= estimated_tokens(before.messages),
        after.compact_state.last_input_tokens == turn.input_tokens
            || after.compact_state.last_input_tokens == estimated_tokens(before.messages),
        after == (EngineView {
            total_usage: after.total_usage,
            compact_state: CompactState {
                last_input_tokens: after.compact_state.last_input_tokens,
                ..before.compact_state
            },
            ..before
        }),
        notice is Some <==> estimated_tokens(before.messages) > turn.input_tokens + 10_000,
        notice is Some ==> notice == Some(
            "Token watermark override: provider="@ + decimal(turn.input_tokens as nat)
                + ", local_estimate="@ + decimal(estimated_tokens(before.messages)) + ", using="@
                + decimal(estimated_tokens(before.messages)),
        ),
{
}

/// Counts fit exactly where none of the sums is too large for its field.
pub proof fn counts_fit_where_each_sum_does(a: TokenUsage, b: TokenUsage)
    ensures
        usage_fits(a, b) <==> a.input_tokens + b.input_tokens < 0x1_0000_0000_0000_0000
            && a.output_tokens + b.output_tokens < 0x1_0000_0000_0000_0000
            && a.cache_creation_tokens + b.cache_creation_tokens < 0x1_0000_0000_0000_0000
            && a.cache_read_tokens + b.cache_read_tokens < 0x1_0000_0000_0000_0000,
{
}

// ---------------------------------------------------------------------------
// Requests
// ---------------------------------------------------------------------------

/// A tool is offered in its place in the order of registration: none to finish with,
/// in plan mode those that inform, but for the way in, and otherwise all but the way
/// out.
pub proof fn tools_are_offered_in_order(kind: TurnKind, plan: bool, entries: Seq<ToolEntry>)
    ensures
        turn_tools(kind, plan, entries) == gathered(
            entries,
            |t: ToolEntry|
                only_if(
                    kind == TurnKind::Normal && (if plan {
                        t.is_info && t.def.name@ != "EnterPlanMode"@
                    } else {
                        t.def.name@ != "ExitPlanMode"@
                    }),
                    t.def@,
                ),
        ),
    decreases entries.len(),
{
    let give = |t: ToolEntry|
        only_if(
            kind == TurnKind::Normal && (if plan {
                t.is_info && t.def.name@ != "EnterPlanMode"@
            } else {
                t.def.name@ != "ExitPlanMode"@
            }),
            t.def@,
        );
    if entries.len() > 0 {
        tools_are_offered_in_order(kind, plan, entries.drop_last());
        gathered_by_last(entries, give);
        assert(turn_tools(kind, plan, entries) =~= gathered(entries, give));
    } else {
        assert(turn_tools(kind, plan, entries) =~= gathered(entries, give));
    }
}

/// A request carries the agent's settings and the whole conversation; in plan mode
/// the instructions stand behind the system prompt, and to finish the prompt for it
/// stands behind the conversation as what the user says.
pub proof fn requests_carry_the_conversation(
    e: EngineView,
    kind: TurnKind,
    entries: Seq<ToolEntry>,
    instructions: Seq<char>,
    r: RequestView,
)
    requires
        is_request(e, kind, entries, instructions, r),
    ensures
        r.model == e.model,
        r.max_tokens == e.max_tokens,
        r.thinking == e.thinking,
        r.reasoning_effort == e.reasoning_effort,
        r.tools == turn_tools(kind, e.plan_state.is_active, entries),
        r.system == (if e.plan_state.is_active {
            e.system_prompt + "\n\n"@ + instructions
        } else {
            e.system_prompt
        }),
        kind == TurnKind::Normal ==> r.messages == e.messages,
        kind is Finalization ==> {
            &&& r.messages.len() == e.messages.len() + 1
            &&& forall|i: int|
                0 <= i < e.messages.len() ==> #[trigger] r.messages[i] == e.messages[i]
            &&& r.messages[e.messages.len() as int].role == Role::User
            &&& r.messages[e.messages.len() as int].content.len() == 1
            &&& r.messages[e.messages.len() as int].content[0] is Text
            &&& kind.control_text() == Some(
                r.messages[e.messages.len() as int].content[0]->Text_text,
            )
        },
{
    if kind is Finalization {
        assert forall|i: int| 0 <= i < e.messages.len() implies #[trigger] r.messages[i]
            == e.messages[i] by {
            assert(r.messages.drop_last()[i] == r.messages[i]);
        }
    }
}

/// Adding a message keeps those before it in their places and puts the new one last.
pub proof fn added_messages_come_last(
    before: Seq<MessageView>,
    after: Seq<MessageView>,
    role: Role,
    content: Seq<BlockView>,
)
    requires
        appended(before, after, role, content),
    ensures
        after.len() == before.len() + 1,
        forall|i: int| 0 <= i < before.len() ==> #[trigger] after[i] == before[i],
        after[before.len() as int].role == role,
        after[before.len() as int].content == content,
        after[before.len() as int].timestamp is Some,
{
    assert forall|i: int| 0 <= i < before.len() implies #[trigger] after[i] == before[i] by {
        assert(after.drop_last()[i] == after[i]);
    }
}

} // verus!
