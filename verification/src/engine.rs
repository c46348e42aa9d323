//! The agent: its conversation, its settings, and the course of a run.

use vstd::prelude::*;

use crate::compaction::{CompactConfig, CompactState};
use crate::compat::{setting, ProviderCompat};
use crate::llm::{
    tool_views, LlmRequest, RequestView, ThinkingConfig, ToolDef, ToolDefView,
};
use crate::message::{
    block_views, copy_messages, message_views, no_usage, BlockView, ContentBlock, Message,
    MessageView, Role, StopReason, TokenUsage,
};
use crate::text::{concat3, copy_opt, copy_text, opt_view, str_eq, views};
use crate::tool_call::{
    DEFAULT_MAX_TOOL_CALL_FAILURE, DEFAULT_MAX_TOOL_CALL_MALFORMED,
};
use crate::turn::TurnKind;

verus! {

broadcast use vstd::string::group_string_axioms;

/// What a run ends with.
#[derive(Debug)]
pub struct AgentResult {
    pub text: String,
    pub stop_reason: StopReason,
    pub usage: TokenUsage,
    pub turns: usize,
}

#[verifier::ext_equal]
pub struct ResultView {
    pub text: Seq<char>,
    pub stop_reason: StopReason,
    pub usage: TokenUsage,
    pub turns: usize,
}

impl AgentResult {
    pub open spec fn view(&self) -> ResultView {
        ResultView {
            text: self.text@,
            stop_reason: self.stop_reason,
            usage: self.usage,
            turns: self.turns,
        }
    }
}

/// Plan mode, and what to restore after it.
#[derive(Debug)]
pub struct PlanState {
    pub is_active: bool,
    pub pre_plan_allow_list: Vec<String>,
}

#[verifier::ext_equal]
pub struct PlanView {
    pub is_active: bool,
    pub pre_plan_allow_list: Seq<Seq<char>>,
}

impl PlanState {
    pub open spec fn view(&self) -> PlanView {
        PlanView {
            is_active: self.is_active,
            pre_plan_allow_list: views(self.pre_plan_allow_list@),
        }
    }
}

/// The settings that an agent starts with.
#[derive(Debug)]
pub struct EngineConfig {
    pub compat: ProviderCompat,
    pub thinking: Option<ThinkingConfig>,
    pub system_prompt: Option<String>,
    pub model: String,
    pub max_tokens: Option<u32>,
    pub max_turns: Option<usize>,
    pub max_tool_call_malformed_turns: Option<usize>,
    pub max_tool_call_failure_turns: Option<usize>,
    pub allow_list: Vec<String>,
    pub compact: CompactConfig,
    /// The name of the compaction strategy level.
    pub compaction: String,
    pub toon: bool,
}

/// A recorded conversation.
#[derive(Debug)]
pub struct Session {
    pub id: String,
    pub messages: Vec<Message>,
    pub total_usage: TokenUsage,
}

/// An agent.
#[derive(Debug)]
pub struct AgentEngine {
    // Provider request configuration.
    /// Resolved provider compatibility and capability settings.
    pub compat: ProviderCompat,
    /// Optional provider-neutral thinking configuration for model requests.
    pub thinking: Option<ThinkingConfig>,
    /// Base system prompt sent with each model request.
    pub system_prompt: String,
    /// Active model identifier used for provider requests.
    pub model: String,
    /// Persisted reasoning effort, updated by skill context modifiers.
    /// Carried into each model turn's LlmRequest.reasoning_effort.
    pub reasoning_effort: Option<String>,

    // Conversation and run state.
    /// Conversation history used to build the next provider request.
    pub messages: Vec<Message>,
    /// Cumulative token usage across the active session/run.
    pub total_usage: TokenUsage,
    /// Output message ID for the currently streaming run.
    pub msg_id: String,
    /// Maximum output tokens requested from the provider per turn.
    pub max_tokens: Option<u32>,
    /// Optional cap on counted model turns within a single run.
    pub max_turns_per_run: Option<usize>,
    /// Consecutive malformed tool-call round limit before aborting.
    pub max_tool_call_malformed_turns: usize,
    /// Consecutive failed tool-call round limit before aborting.
    pub max_tool_call_failure_turns: usize,

    // Tool execution policy.
    /// Tool names currently allowed without additional approval.
    pub allow_list: Vec<String>,

    // Session persistence.
    /// Identifier of the active session.
    pub session_id: Option<String>,

    // Compaction and plan-mode state.
    /// Static compaction thresholds, flags, and sizing configuration.
    pub compact_config: CompactConfig,
    /// Runtime compaction watermark and circuit-breaker state.
    pub compact_state: CompactState,
    /// Active compaction strategy level, by name.
    pub compact_level: String,
    /// Whether TOON-formatted compaction output is enabled.
    pub toon_enabled: bool,
    /// Runtime plan mode state and restoration data.
    pub plan_state: PlanState,
}

#[verifier::ext_equal]
pub struct EngineView {
    pub compat: ProviderCompat,
    pub thinking: Option<ThinkingConfig>,
    pub system_prompt: Seq<char>,
    pub model: Seq<char>,
    pub reasoning_effort: Option<Seq<char>>,
    pub messages: Seq<MessageView>,
    pub total_usage: TokenUsage,
    pub msg_id: Seq<char>,
    pub max_tokens: Option<u32>,
    pub max_turns_per_run: Option<usize>,
    pub max_tool_call_malformed_turns: usize,
    pub max_tool_call_failure_turns: usize,
    pub allow_list: Seq<Seq<char>>,
    pub session_id: Option<Seq<char>>,
    pub compact_config: CompactConfig,
    pub compact_state: CompactState,
    pub compact_level: Seq<char>,
    pub toon_enabled: bool,
    pub plan_state: PlanView,
}

impl AgentEngine {
    pub open spec fn view(&self) -> EngineView {
        EngineView {
            compat: self.compat,
            thinking: self.thinking,
            system_prompt: self.system_prompt@,
            model: self.model@,
            reasoning_effort: opt_view(self.reasoning_effort),
            messages: message_views(self.messages@),
            total_usage: self.total_usage,
            msg_id: self.msg_id@,
            max_tokens: self.max_tokens,
            max_turns_per_run: self.max_turns_per_run,
            max_tool_call_malformed_turns: self.max_tool_call_malformed_turns,
            max_tool_call_failure_turns: self.max_tool_call_failure_turns,
            allow_list: views(self.allow_list@),
            session_id: opt_view(self.session_id),
            compact_config: self.compact_config,
            compact_state: self.compact_state,
            compact_level: self.compact_level@,
            toon_enabled: self.toon_enabled,
            plan_state: self.plan_state@,
        }
    }
}

/// An agent as it starts, with a conversation to go on with.
pub open spec fn started(
    config: EngineConfig,
    messages: Seq<MessageView>,
    total_usage: TokenUsage,
    session_id: Option<Seq<char>>,
) -> EngineView {
    EngineView {
        compat: config.compat,
        thinking: config.thinking,
        system_prompt: setting(opt_view(config.system_prompt), Seq::empty()),
        model: config.model@,
        reasoning_effort: None,
        messages,
        total_usage,
        msg_id: Seq::empty(),
        max_tokens: config.max_tokens,
        max_turns_per_run: config.max_turns,
        max_tool_call_malformed_turns: setting(
            config.max_tool_call_malformed_turns,
            DEFAULT_MAX_TOOL_CALL_MALFORMED,
        ),
        max_tool_call_failure_turns: setting(
            config.max_tool_call_failure_turns,
            DEFAULT_MAX_TOOL_CALL_FAILURE,
        ),
        allow_list: views(config.allow_list@),
        session_id,
        compact_config: config.compact,
        compact_state: CompactState { last_input_tokens: 0, consecutive_failures: 0 },
        compact_level: config.compaction@,
        toon_enabled: config.toon,
        plan_state: PlanView { is_active: false, pre_plan_allow_list: Seq::empty() },
    }
}

/// One more message stands at the end, made just now.
pub open spec fn appended(
    before: Seq<MessageView>,
    after: Seq<MessageView>,
    role: Role,
    content: Seq<BlockView>,
) -> bool {
    &&& after.len() == before.len() + 1
    &&& after.drop_last() == before
    &&& after.last().role == role
    &&& after.last().content == content
    &&& after.last().timestamp is Some
}

// ---------------------------------------------------------------------------
// Starting
// ---------------------------------------------------------------------------

impl AgentEngine {
    fn start(
        config: EngineConfig,
        messages: Vec<Message>,
        total_usage: TokenUsage,
        session_id: Option<String>,
    ) -> (r: Self)
        ensures
            r@ == started(config, message_views(messages@), total_usage, opt_view(session_id)),
    {
        let system_prompt = match config.system_prompt {
            Some(s) => s,
            None => {
                let s = String::new();
                assert(s@ =~= Seq::empty());
                s
            },
        };
        let r = AgentEngine {
            compat: config.compat,
            thinking: config.thinking,
            system_prompt,
            model: config.model,
            reasoning_effort: None,
            messages,
            total_usage,
            msg_id: String::new(),
            max_tokens: config.max_tokens,
            max_turns_per_run: config.max_turns,
            max_tool_call_malformed_turns: config.max_tool_call_malformed_turns.unwrap_or(
                DEFAULT_MAX_TOOL_CALL_MALFORMED,
            ),
            max_tool_call_failure_turns: config.max_tool_call_failure_turns.unwrap_or(
                DEFAULT_MAX_TOOL_CALL_FAILURE,
            ),
            allow_list: config.allow_list,
            session_id,
            compact_config: config.compact,
            compact_state: CompactState::new(),
            compact_level: config.compaction,
            toon_enabled: config.toon,
            plan_state: PlanState { is_active: false, pre_plan_allow_list: Vec::new() },
        };
        assert(r@.plan_state.pre_plan_allow_list =~= Seq::empty());
        assert(r@.msg_id =~= Seq::empty());
        r
    }

    /// An agent with an empty conversation.
    pub fn new(config: EngineConfig) -> (r: Self)
        ensures
            r@ == started(config, Seq::empty(), no_usage(), None),
    {
        let messages: Vec<Message> = Vec::new();
        assert(message_views(messages@) =~= Seq::empty());
        Self::start(config, messages, TokenUsage::default(), None)
    }

    /// Create from a resumed session
    pub fn resume(config: EngineConfig, session: Session) -> (r: Self)
        ensures
            r@ == started(
                config,
                message_views(session.messages@),
                session.total_usage,
                Some(session.id@),
            ),
    {
        Self::start(config, session.messages, session.total_usage, Some(session.id))
    }

    pub fn compaction_level(&self) -> (r: &str)
        ensures
            r@ == self@.compact_level,
    {
        self.compact_level.as_str()
    }

    /// Get a reference to the resolved compat settings
    pub fn compat(&self) -> (r: &ProviderCompat)
        ensures
            *r == self@.compat,
    {
        &self.compat
    }

    /// Get the current session ID (if sessions are enabled and initialized)
    pub fn current_session_id(&self) -> (r: Option<String>)
        ensures
            opt_view(r) == self@.session_id,
    {
        copy_opt(&self.session_id)
    }

    /// Set the initial reasoning effort override (used by sub-agents spawned with an effort override).
    pub fn set_initial_reasoning_effort(&mut self, effort: Option<String>)
        ensures
            final(self)@ == (EngineView { reasoning_effort: opt_view(effort), ..old(self)@ }),
    {
        self.reasoning_effort = effort;
    }

    /// The session under which the conversation is recorded from now on.
    pub fn init_session(&mut self, session_id: String)
        ensures
            final(self)@ == (EngineView { session_id: Some(session_id@), ..old(self)@ }),
    {
        self.session_id = Some(session_id);
    }

    /// What is to be recorded of the conversation, where a session is.
    pub fn save_session(&self) -> (r: Option<Session>)
        ensures
            match r {
                Some(s) => {
                    &&& self@.session_id == Some(s.id@)
                    &&& message_views(s.messages@) == self@.messages
                    &&& s.total_usage == self@.total_usage
                },
                None => self@.session_id is None,
            },
    {
        match &self.session_id {
            Some(id) => Some(
                Session {
                    id: id.clone(),
                    messages: copy_messages(&self.messages),
                    total_usage: self.total_usage,
                },
            ),
            None => None,
        }
    }

    /// Adds a message made just now.
    pub fn push_now(&mut self, role: Role, content: Vec<ContentBlock>)
        ensures
            final(self)@ == (EngineView { messages: final(self)@.messages, ..old(self)@ }),
            appended(
                old(self)@.messages,
                final(self)@.messages,
                role,
                block_views(content@),
            ),
    {
        let ghost before = self@.messages;
        let m = Message::now(role, content);
        self.messages.push(m);
        assert(self@.messages =~= before.push(m@));
        assert(self@.messages.drop_last() =~= before);
    }

    pub fn push_text(&mut self, role: Role, text: &str)
        ensures
            final(self)@ == (EngineView { messages: final(self)@.messages, ..old(self)@ }),
            appended(
                old(self)@.messages,
                final(self)@.messages,
                role,
                seq![BlockView::Text { text: text@ }],
            ),
    {
        let mut content: Vec<ContentBlock> = Vec::new();
        content.push(ContentBlock::Text { text: copy_text(text) });
        assert(block_views(content@) =~= seq![BlockView::Text { text: text@ }]);
        self.push_now(role, content);
    }
}

// ---------------------------------------------------------------------------
// Requests
// ---------------------------------------------------------------------------

/// A registered tool.
#[derive(Debug)]
pub struct ToolEntry {
    pub def: ToolDef,
    /// The tool only informs, and changes nothing.
    pub is_info: bool,
}

/// The tools that a turn may use.
pub open spec fn allowed_in_turn(kind: TurnKind, plan_active: bool, entry: ToolEntry) -> bool {
    if kind is Finalization {
        false
    } else if plan_active {
        entry.is_info && entry.def.name@ != "EnterPlanMode"@
    } else {
        entry.def.name@ != "ExitPlanMode"@
    }
}

pub open spec fn turn_tools(kind: TurnKind, plan_active: bool, entries: Seq<ToolEntry>) -> Seq<
    ToolDefView,
>
    decreases entries.len(),
{
    if entries.len() == 0 {
        Seq::empty()
    } else {
        let rest = turn_tools(kind, plan_active, entries.drop_last());
        if allowed_in_turn(kind, plan_active, entries.last()) {
            rest.push(entries.last().def@)
        } else {
            rest
        }
    }
}

/// The system prompt of a turn.
pub open spec fn turn_system(e: EngineView, plan_instructions: Seq<char>) -> Seq<char> {
    if e.plan_state.is_active {
        e.system_prompt + "\n\n"@ + plan_instructions
    } else {
        e.system_prompt
    }
}

/// A request carries the settings, the tools of the turn and the conversation,
/// with the control prompt of a finalization behind it.
pub open spec fn is_request(
    e: EngineView,
    kind: TurnKind,
    entries: Seq<ToolEntry>,
    plan_instructions: Seq<char>,
    r: RequestView,
) -> bool {
    &&& r.model == e.model
    &&& r.system == turn_system(e, plan_instructions)
    &&& r.tools == turn_tools(kind, e.plan_state.is_active, entries)
    &&& r.max_tokens == e.max_tokens
    &&& r.thinking == e.thinking
    &&& r.reasoning_effort == e.reasoning_effort
    &&& match kind.control_text() {
        None => r.messages == e.messages,
        Some(text) => appended(e.messages, r.messages, Role::User, seq![BlockView::Text { text }]),
    }
}

fn select_tools(kind: TurnKind, plan_active: bool, entries: &Vec<ToolEntry>) -> (r: Vec<ToolDef>)
    ensures
        tool_views(r@) == turn_tools(kind, plan_active, entries@),
{
    let mut r: Vec<ToolDef> = Vec::new();
    assert(tool_views(r@) =~= Seq::empty());
    for i in 0..entries.len()
        invariant
            tool_views(r@) == turn_tools(kind, plan_active, entries@.take(i as int)),
    {
        assert(entries@.take(i + 1).drop_last() =~= entries@.take(i as int));
        let entry = &entries[i];
        let allowed = if kind.disable_tools() {
            false
        } else if plan_active {
            entry.is_info && !str_eq(entry.def.name.as_str(), "EnterPlanMode")
        } else {
            !str_eq(entry.def.name.as_str(), "ExitPlanMode")
        };
        if allowed {
            let ghost before = tool_views(r@);
            let def = entry.def.clone();
            r.push(def);
            assert(tool_views(r@) =~= before.push(def@));
        }
    }
    assert(entries@.take(entries@.len() as int) =~= entries@);
    r
}

impl AgentEngine {
    /// Build the next provider request, applying plan-mode tool/system filtering.
    pub fn build_request(
        &self,
        kind: TurnKind,
        entries: &Vec<ToolEntry>,
        plan_mode_instructions: &str,
    ) -> (r: LlmRequest)
        ensures
            is_request(self@, kind, entries@, plan_mode_instructions@, r@),
    {
        let tools = select_tools(kind, self.plan_state.is_active, entries);
        let system = if self.plan_state.is_active {
            concat3(self.system_prompt.as_str(), "\n\n", plan_mode_instructions)
        } else {
            self.system_prompt.clone()
        };
        let mut messages = copy_messages(&self.messages);
        if let Some(prompt) = kind.control_prompt() {
            let mut content: Vec<ContentBlock> = Vec::new();
            content.push(ContentBlock::Text { text: copy_text(prompt) });
            assert(block_views(content@) =~= seq![BlockView::Text { text: prompt@ }]);
            let m = Message::now(Role::User, content);
            let ghost before = message_views(messages@);
            messages.push(m);
            assert(message_views(messages@) =~= before.push(m@));
            assert(message_views(messages@).drop_last() =~= before);
        }
        LlmRequest {
            model: self.model.clone(),
            system,
            messages,
            tools,
            max_tokens: self.max_tokens,
            thinking: self.thinking,
            reasoning_effort: copy_opt(&self.reasoning_effort),
        }
    }
}

/// The definition is that of an allowed tool.
spec fn is_offered(
    kind: TurnKind,
    plan_active: bool,
    entries: Seq<ToolEntry>,
    def: ToolDefView,
) -> bool {
    exists|j: int|
        0 <= j < entries.len() && allowed_in_turn(kind, plan_active, #[trigger] entries[j])
            && entries[j].def@ == def
}

proof fn lemma_turn_tools(kind: TurnKind, plan_active: bool, entries: Seq<ToolEntry>)
    ensures
        forall|i: int|
            0 <= i < turn_tools(kind, plan_active, entries).len() ==> is_offered(
                kind,
                plan_active,
                entries,
                #[trigger] turn_tools(kind, plan_active, entries)[i],
            ),
    decreases entries.len(),
{
    if entries.len() > 0 {
        let front = entries.drop_last();
        lemma_turn_tools(kind, plan_active, front);
        let rest = turn_tools(kind, plan_active, front);
        let all = turn_tools(kind, plan_active, entries);
        assert forall|i: int| 0 <= i < all.len() implies is_offered(
            kind,
            plan_active,
            entries,
            #[trigger] all[i],
        ) by {
            if i < rest.len() {
                assert(is_offered(kind, plan_active, front, rest[i]));
                let j = choose|j: int|
                    0 <= j < front.len() && allowed_in_turn(
                        kind,
                        plan_active,
                        #[trigger] front[j],
                    ) && front[j].def@ == rest[i];
                assert(entries[j] == front[j]);
            } else {
                assert(entries[entries.len() - 1].def@ == all[i]);
            }
        }
    }
}

/// A finalization offers no tools, plan mode offers only tools that inform, and
/// neither mode offers the way into itself.
pub proof fn turns_offer_only_their_tools(
    kind: TurnKind,
    plan_active: bool,
    entries: Seq<ToolEntry>,
    i: int,
)
    requires
        0 <= i < turn_tools(kind, plan_active, entries).len(),
    ensures
        kind == TurnKind::Normal,
        plan_active ==> turn_tools(kind, plan_active, entries)[i].name != "EnterPlanMode"@,
        !plan_active ==> turn_tools(kind, plan_active, entries)[i].name != "ExitPlanMode"@,
        exists|j: int|
            0 <= j < entries.len() && (#[trigger] entries[j]).def@ == turn_tools(
                kind,
                plan_active,
                entries,
            )[i] && (plan_active ==> entries[j].is_info),
{
    lemma_turn_tools(kind, plan_active, entries);
    let def = turn_tools(kind, plan_active, entries)[i];
    assert(is_offered(kind, plan_active, entries, def));
    let j = choose|j: int|
        0 <= j < entries.len() && allowed_in_turn(kind, plan_active, #[trigger] entries[j])
            && entries[j].def@ == def;
    assert(entries[j].def@ == def);
}

} // verus!
