//! Configuration-driven provider compatibility layer.
//! Each provider type has default presets; users can override any field via config.

use vstd::prelude::*;

use crate::text::{copy_text, opt_view, views};

pub use crate::schema::sanitize_json_schema;

verus! {

/// Provider-level compatibility settings.
#[derive(Debug, Clone)]
pub struct ProviderCompat {
    pub transport: TransportCompat,
    pub messages: MessageCompat,
    pub tools: ToolCompat,
    pub schema: SchemaCompat,
    pub reasoning: ReasoningCompat,
}

#[derive(Debug, Clone)]
pub struct TransportCompat {
    /// Field name for max tokens in request body.
    /// Default: "max_tokens" for all providers.
    pub max_tokens_field: Option<String>,

    /// Custom API path appended to base_url for chat completions.
    /// Default: "/v1/chat/completions" for OpenAI provider.
    pub api_path: Option<String>,

    /// Maximum serialized provider request body size in bytes.
    /// Default: None (no local preflight limit).
    pub max_request_body_bytes: Option<usize>,

    /// Whether OpenAI-compatible requests carry stream_options.
    /// Default: true for OpenAI-compatible providers.
    pub include_stream_options: Option<bool>,
}

#[derive(Debug, Clone)]
pub struct MessageCompat {
    /// Merge consecutive assistant messages (text concat + tool_calls merge).
    /// Default: true for openai.
    pub merge_assistant_messages: Option<bool>,

    /// Remove tool_result blocks that have no corresponding tool_use.
    /// Default: true for provider families that support tool results.
    pub clean_orphan_tool_results: Option<bool>,

    /// Deduplicate tool results with same tool_call_id (keep last).
    /// Default: true for openai.
    pub dedup_tool_results: Option<bool>,

    /// Ensure messages alternate user/assistant (insert filler if needed).
    /// Default: true for anthropic/bedrock/vertex.
    pub ensure_alternation: Option<bool>,

    /// Merge consecutive same-role messages into one.
    /// Default: true for anthropic/bedrock/vertex.
    pub merge_same_role: Option<bool>,

    /// Text patterns to strip from message history before sending.
    /// Default: empty.
    pub strip_patterns: Option<Vec<String>>,
}

#[derive(Debug, Clone)]
pub struct ToolCompat {
    /// Remove tool_use blocks that have no corresponding tool_result.
    /// Default: true for openai.
    pub clean_orphan_tool_calls: Option<bool>,

    /// Downgrade malformed tool_calls in the projected request body.
    /// Default: true for all providers.
    pub sanitize_malformed_tool_calls: Option<bool>,

    /// Auto-generate tool IDs when missing.
    /// Default: true for all providers.
    pub auto_tool_id: Option<bool>,

    /// Maximum number of tools allowed in the projected provider request.
    /// Default: None (no local preflight limit).
    pub max_tool_count: Option<usize>,

    /// Whether OpenAI-compatible requests carry outgoing tools.
    /// Default: true for OpenAI-compatible providers.
    pub emit_tools: Option<bool>,
}

#[derive(Debug, Clone)]
pub struct SchemaCompat {
    /// Sanitize JSON schemas for strict providers.
    /// Default: true for bedrock.
    pub sanitize_schema: Option<bool>,
}

#[derive(Debug, Clone)]
pub struct ReasoningCompat {
    /// Whether this provider supports extended thinking.
    /// Default: true for anthropic/bedrock/vertex, false for openai.
    pub supports_thinking: Option<bool>,

    /// Whether this provider supports reasoning_effort.
    /// Default: false for anthropic/bedrock/vertex, true for openai.
    pub supports_effort: Option<bool>,

    /// Available effort levels for this provider.
    /// Only meaningful when supports_effort is true.
    pub effort_levels: Option<Vec<String>>,
}

// ---------------------------------------------------------------------------
// Model
// ---------------------------------------------------------------------------

/// The user's setting where there is one, else the default.
pub open spec fn chosen<T>(default: Option<T>, user: Option<T>) -> Option<T> {
    if user is Some {
        user
    } else {
        default
    }
}

/// A setting, or what holds where there is none.
pub open spec fn setting<T>(value: Option<T>, otherwise: T) -> T {
    match value {
        Some(v) => v,
        None => otherwise,
    }
}

/// The texts of an optional list, none where there is no list.
pub open spec fn list_views(list: Option<Vec<String>>) -> Seq<Seq<char>> {
    match list {
        Some(v) => views(v@),
        None => Seq::empty(),
    }
}

impl TransportCompat {
    /// Nothing set.
    pub open spec fn unset() -> Self {
        TransportCompat {
            max_tokens_field: None,
            api_path: None,
            max_request_body_bytes: None,
            include_stream_options: None,
        }
    }

    /// The user's settings over the defaults.
    pub open spec fn merged(defaults: Self, user: Self) -> Self {
        TransportCompat {
            max_tokens_field: chosen(defaults.max_tokens_field, user.max_tokens_field),
            api_path: chosen(defaults.api_path, user.api_path),
            max_request_body_bytes: chosen(defaults.max_request_body_bytes, user.max_request_body_bytes),
            include_stream_options: chosen(defaults.include_stream_options, user.include_stream_options),
        }
    }

    fn merge(defaults: Self, user: Self) -> (r: Self)
        ensures
            r == Self::merged(defaults, user),
    {
        Self {
            max_tokens_field: or(user.max_tokens_field, defaults.max_tokens_field),
            api_path: or(user.api_path, defaults.api_path),
            max_request_body_bytes: or(user.max_request_body_bytes, defaults.max_request_body_bytes),
            include_stream_options: or(user.include_stream_options, defaults.include_stream_options),
        }
    }
}

impl Default for TransportCompat {
    fn default() -> (r: Self)
        ensures
            r == Self::unset(),
    {
        Self {
            max_tokens_field: None,
            api_path: None,
            max_request_body_bytes: None,
            include_stream_options: None,
        }
    }
}

impl MessageCompat {
    /// Nothing set.
    pub open spec fn unset() -> Self {
        MessageCompat {
            merge_assistant_messages: None,
            clean_orphan_tool_results: None,
            dedup_tool_results: None,
            ensure_alternation: None,
            merge_same_role: None,
            strip_patterns: None,
        }
    }

    /// The user's settings over the defaults.
    pub open spec fn merged(defaults: Self, user: Self) -> Self {
        MessageCompat {
            merge_assistant_messages: chosen(defaults.merge_assistant_messages, user.merge_assistant_messages),
            clean_orphan_tool_results: chosen(defaults.clean_orphan_tool_results, user.clean_orphan_tool_results),
            dedup_tool_results: chosen(defaults.dedup_tool_results, user.dedup_tool_results),
            ensure_alternation: chosen(defaults.ensure_alternation, user.ensure_alternation),
            merge_same_role: chosen(defaults.merge_same_role, user.merge_same_role),
            strip_patterns: chosen(defaults.strip_patterns, user.strip_patterns),
        }
    }

    fn merge(defaults: Self, user: Self) -> (r: Self)
        ensures
            r == Self::merged(defaults, user),
    {
        Self {
            merge_assistant_messages: or(user.merge_assistant_messages, defaults.merge_assistant_messages),
            clean_orphan_tool_results: or(user.clean_orphan_tool_results, defaults.clean_orphan_tool_results),
            dedup_tool_results: or(user.dedup_tool_results, defaults.dedup_tool_results),
            ensure_alternation: or(user.ensure_alternation, defaults.ensure_alternation),
            merge_same_role: or(user.merge_same_role, defaults.merge_same_role),
            strip_patterns: or(user.strip_patterns, defaults.strip_patterns),
        }
    }
}

impl Default for MessageCompat {
    fn default() -> (r: Self)
        ensures
            r == Self::unset(),
    {
        Self {
            merge_assistant_messages: None,
            clean_orphan_tool_results: None,
            dedup_tool_results: None,
            ensure_alternation: None,
            merge_same_role: None,
            strip_patterns: None,
        }
    }
}

impl ToolCompat {
    /// Nothing set.
    pub open spec fn unset() -> Self {
        ToolCompat {
            clean_orphan_tool_calls: None,
            sanitize_malformed_tool_calls: None,
            auto_tool_id: None,
            max_tool_count: None,
            emit_tools: None,
        }
    }

    /// The user's settings over the defaults.
    pub open spec fn merged(defaults: Self, user: Self) -> Self {
        ToolCompat {
            clean_orphan_tool_calls: chosen(defaults.clean_orphan_tool_calls, user.clean_orphan_tool_calls),
            sanitize_malformed_tool_calls: chosen(defaults.sanitize_malformed_tool_calls, user.sanitize_malformed_tool_calls),
            auto_tool_id: chosen(defaults.auto_tool_id, user.auto_tool_id),
            max_tool_count: chosen(defaults.max_tool_count, user.max_tool_count),
            emit_tools: chosen(defaults.emit_tools, user.emit_tools),
        }
    }

    fn merge(defaults: Self, user: Self) -> (r: Self)
        ensures
            r == Self::merged(defaults, user),
    {
        Self {
            clean_orphan_tool_calls: or(user.clean_orphan_tool_calls, defaults.clean_orphan_tool_calls),
            sanitize_malformed_tool_calls: or(user.sanitize_malformed_tool_calls, defaults.sanitize_malformed_tool_calls),
            auto_tool_id: or(user.auto_tool_id, defaults.auto_tool_id),
            max_tool_count: or(user.max_tool_count, defaults.max_tool_count),
            emit_tools: or(user.emit_tools, defaults.emit_tools),
        }
    }
}

impl Default for ToolCompat {
    fn default() -> (r: Self)
        ensures
            r == Self::unset(),
    {
        Self {
            clean_orphan_tool_calls: None,
            sanitize_malformed_tool_calls: None,
            auto_tool_id: None,
            max_tool_count: None,
            emit_tools: None,
        }
    }
}

impl SchemaCompat {
    /// Nothing set.
    pub open spec fn unset() -> Self {
        SchemaCompat {
            sanitize_schema: None,
        }
    }

    /// The user's settings over the defaults.
    pub open spec fn merged(defaults: Self, user: Self) -> Self {
        SchemaCompat {
            sanitize_schema: chosen(defaults.sanitize_schema, user.sanitize_schema),
        }
    }

    fn merge(defaults: Self, user: Self) -> (r: Self)
        ensures
            r == Self::merged(defaults, user),
    {
        Self {
            sanitize_schema: or(user.sanitize_schema, defaults.sanitize_schema),
        }
    }
}

impl Default for SchemaCompat {
    fn default() -> (r: Self)
        ensures
            r == Self::unset(),
    {
        Self {
            sanitize_schema: None,
        }
    }
}

impl ReasoningCompat {
    /// Nothing set.
    pub open spec fn unset() -> Self {
        ReasoningCompat {
            supports_thinking: None,
            supports_effort: None,
            effort_levels: None,
        }
    }

    /// The user's settings over the defaults.
    pub open spec fn merged(defaults: Self, user: Self) -> Self {
        ReasoningCompat {
            supports_thinking: chosen(defaults.supports_thinking, user.supports_thinking),
            supports_effort: chosen(defaults.supports_effort, user.supports_effort),
            effort_levels: chosen(defaults.effort_levels, user.effort_levels),
        }
    }

    fn merge(defaults: Self, user: Self) -> (r: Self)
        ensures
            r == Self::merged(defaults, user),
    {
        Self {
            supports_thinking: or(user.supports_thinking, defaults.supports_thinking),
            supports_effort: or(user.supports_effort, defaults.supports_effort),
            effort_levels: or(user.effort_levels, defaults.effort_levels),
        }
    }
}

impl Default for ReasoningCompat {
    fn default() -> (r: Self)
        ensures
            r == Self::unset(),
    {
        Self {
            supports_thinking: None,
            supports_effort: None,
            effort_levels: None,
        }
    }
}

fn or<T>(first: Option<T>, second: Option<T>) -> (r: Option<T>)
    ensures
        r == chosen(second, first),
{
    match first {
        Some(v) => Some(v),
        None => second,
    }
}

impl Default for ProviderCompat {
    fn default() -> (r: Self)
        ensures
            r == Self::unset(),
    {
        Self {
            transport: TransportCompat::default(),
            messages: MessageCompat::default(),
            tools: ToolCompat::default(),
            schema: SchemaCompat::default(),
            reasoning: ReasoningCompat::default(),
        }
    }
}

impl ProviderCompat {
    /// Nothing set.
    pub open spec fn unset() -> Self {
        ProviderCompat {
            transport: TransportCompat::unset(),
            messages: MessageCompat::unset(),
            tools: ToolCompat::unset(),
            schema: SchemaCompat::unset(),
            reasoning: ReasoningCompat::unset(),
        }
    }

    /// The user's settings over the defaults.
    pub open spec fn merged(defaults: Self, user: Self) -> Self {
        ProviderCompat {
            transport: TransportCompat::merged(defaults.transport, user.transport),
            messages: MessageCompat::merged(defaults.messages, user.messages),
            tools: ToolCompat::merged(defaults.tools, user.tools),
            schema: SchemaCompat::merged(defaults.schema, user.schema),
            reasoning: ReasoningCompat::merged(defaults.reasoning, user.reasoning),
        }
    }

    /// The presets of the Anthropic family.
    pub open spec fn anthropic_preset() -> Self {
        ProviderCompat {
            messages: MessageCompat {
                ensure_alternation: Some(true),
                merge_same_role: Some(true),
                clean_orphan_tool_results: Some(true),
                ..MessageCompat::unset()
            },
            tools: ToolCompat {
                auto_tool_id: Some(true),
                sanitize_malformed_tool_calls: Some(true),
                ..ToolCompat::unset()
            },
            reasoning: ReasoningCompat {
                supports_thinking: Some(true),
                supports_effort: Some(false),
                ..ReasoningCompat::unset()
            },
            ..ProviderCompat::unset()
        }
    }

    /// Defaults for Anthropic-family providers (Anthropic, Vertex)
    pub fn anthropic_defaults() -> (r: Self)
        ensures
            r == Self::anthropic_preset(),
    {
        let mut r = Self::default();
        r.messages.ensure_alternation = Some(true);
        r.messages.merge_same_role = Some(true);
        r.messages.clean_orphan_tool_results = Some(true);
        r.tools.auto_tool_id = Some(true);
        r.tools.sanitize_malformed_tool_calls = Some(true);
        r.reasoning.supports_thinking = Some(true);
        r.reasoning.supports_effort = Some(false);
        r
    }

    /// Defaults for Bedrock (Anthropic + schema sanitization)
    pub fn bedrock_defaults() -> (r: Self)
        ensures
            r == (ProviderCompat {
                schema: SchemaCompat { sanitize_schema: Some(true) },
                ..Self::anthropic_preset()
            }),
    {
        let mut r = Self::anthropic_defaults();
        r.schema.sanitize_schema = Some(true);
        r
    }

    /// Defaults for OpenAI-compatible providers
    pub fn openai_defaults() -> (r: Self)
        ensures
            opt_view(r.transport.max_tokens_field) == Some("max_tokens"@),
            r.transport == (TransportCompat {
                max_tokens_field: r.transport.max_tokens_field,
                include_stream_options: Some(true),
                ..TransportCompat::unset()
            }),
            r.messages == (MessageCompat {
                merge_assistant_messages: Some(true),
                clean_orphan_tool_results: Some(true),
                dedup_tool_results: Some(true),
                ..MessageCompat::unset()
            }),
            r.tools == (ToolCompat {
                clean_orphan_tool_calls: Some(true),
                sanitize_malformed_tool_calls: Some(true),
                auto_tool_id: Some(true),
                emit_tools: Some(true),
                ..ToolCompat::unset()
            }),
            r.schema == SchemaCompat::unset(),
            r.reasoning.effort_levels is Some,
            list_views(r.reasoning.effort_levels) == seq!["low"@, "medium"@, "high"@],
            r.reasoning == (ReasoningCompat {
                supports_thinking: Some(false),
                supports_effort: Some(true),
                effort_levels: r.reasoning.effort_levels,
            }),
    {
        let mut r = Self::default();
        r.transport.max_tokens_field = Some(copy_text("max_tokens"));
        r.transport.include_stream_options = Some(true);
        r.messages.merge_assistant_messages = Some(true);
        r.messages.clean_orphan_tool_results = Some(true);
        r.messages.dedup_tool_results = Some(true);
        r.tools.clean_orphan_tool_calls = Some(true);
        r.tools.sanitize_malformed_tool_calls = Some(true);
        r.tools.auto_tool_id = Some(true);
        r.tools.emit_tools = Some(true);
        r.reasoning.supports_thinking = Some(false);
        r.reasoning.supports_effort = Some(true);
        let mut levels: Vec<String> = Vec::new();
        levels.push(copy_text("low"));
        levels.push(copy_text("medium"));
        levels.push(copy_text("high"));
        assert(views(levels@) =~= seq!["low"@, "medium"@, "high"@]);
        r.reasoning.effort_levels = Some(levels);
        r
    }

    /// Merge user config over defaults (user wins on non-None fields)
    pub fn merge(defaults: Self, user: Self) -> (r: Self)
        ensures
            r == Self::merged(defaults, user),
    {
        Self {
            transport: TransportCompat::merge(defaults.transport, user.transport),
            messages: MessageCompat::merge(defaults.messages, user.messages),
            tools: ToolCompat::merge(defaults.tools, user.tools),
            schema: SchemaCompat::merge(defaults.schema, user.schema),
            reasoning: ReasoningCompat::merge(defaults.reasoning, user.reasoning),
        }
    }

    // --- Resolved accessors (Option<bool> → bool with false default) ---

    pub fn max_tokens_field(&self) -> (r: &str)
        ensures
            r@ == setting(opt_view(self.transport.max_tokens_field), "max_tokens"@),
    {
        match &self.transport.max_tokens_field {
            Some(s) => s.as_str(),
            None => "max_tokens",
        }
    }

    pub fn max_request_body_bytes(&self) -> (r: Option<usize>)
        ensures
            r == self.transport.max_request_body_bytes,
    {
        self.transport.max_request_body_bytes
    }

    pub fn max_tool_count(&self) -> (r: Option<usize>)
        ensures
            r == self.tools.max_tool_count,
    {
        self.tools.max_tool_count
    }

    pub fn include_stream_options(&self) -> (r: bool)
        ensures
            r == setting(self.transport.include_stream_options, true),
    {
        self.transport.include_stream_options.unwrap_or(true)
    }

    pub fn emit_tools(&self) -> (r: bool)
        ensures
            r == setting(self.tools.emit_tools, true),
    {
        self.tools.emit_tools.unwrap_or(true)
    }

    pub fn merge_assistant_messages(&self) -> (r: bool)
        ensures
            r == setting(self.messages.merge_assistant_messages, false),
    {
        self.messages.merge_assistant_messages.unwrap_or(false)
    }

    pub fn clean_orphan_tool_calls(&self) -> (r: bool)
        ensures
            r == setting(self.tools.clean_orphan_tool_calls, false),
    {
        self.tools.clean_orphan_tool_calls.unwrap_or(false)
    }

    pub fn clean_orphan_tool_results(&self) -> (r: bool)
        ensures
            r == setting(self.messages.clean_orphan_tool_results, false),
    {
        self.messages.clean_orphan_tool_results.unwrap_or(false)
    }

    pub fn dedup_tool_results(&self) -> (r: bool)
        ensures
            r == setting(self.messages.dedup_tool_results, false),
    {
        self.messages.dedup_tool_results.unwrap_or(false)
    }

    pub fn sanitize_malformed_tool_calls(&self) -> (r: bool)
        ensures
            r == setting(self.tools.sanitize_malformed_tool_calls, false),
    {
        self.tools.sanitize_malformed_tool_calls.unwrap_or(false)
    }

    pub fn ensure_alternation(&self) -> (r: bool)
        ensures
            r == setting(self.messages.ensure_alternation, false),
    {
        self.messages.ensure_alternation.unwrap_or(false)
    }

    pub fn merge_same_role(&self) -> (r: bool)
        ensures
            r == setting(self.messages.merge_same_role, false),
    {
        self.messages.merge_same_role.unwrap_or(false)
    }

    pub fn sanitize_schema(&self) -> (r: bool)
        ensures
            r == setting(self.schema.sanitize_schema, false),
    {
        self.schema.sanitize_schema.unwrap_or(false)
    }

    pub fn auto_tool_id(&self) -> (r: bool)
        ensures
            r == setting(self.tools.auto_tool_id, false),
    {
        self.tools.auto_tool_id.unwrap_or(false)
    }

    pub fn api_path(&self) -> (r: &str)
        ensures
            r@ == setting(opt_view(self.transport.api_path), "/v1/chat/completions"@),
    {
        match &self.transport.api_path {
            Some(s) => s.as_str(),
            None => "/v1/chat/completions",
        }
    }

    pub fn supports_thinking(&self) -> (r: bool)
        ensures
            r == setting(self.reasoning.supports_thinking, false),
    {
        self.reasoning.supports_thinking.unwrap_or(false)
    }

    pub fn supports_effort(&self) -> (r: bool)
        ensures
            r == setting(self.reasoning.supports_effort, false),
    {
        self.reasoning.supports_effort.unwrap_or(false)
    }

    pub fn effort_levels(&self) -> (r: &[String])
        ensures
            views(r@) == list_views(self.reasoning.effort_levels),
    {
        match &self.reasoning.effort_levels {
            Some(v) => v.as_slice(),
            None => {
                let none: &[String] = &[];
                assert(views(none@) =~= Seq::empty());
                none
            },
        }
    }
}

// ---------------------------------------------------------------------------
// Laws
// ---------------------------------------------------------------------------

/// Merging nothing over some settings keeps them, and merging settings over
/// nothing gives them.
pub proof fn merging_with_nothing_changes_nothing(c: ProviderCompat)
    ensures
        ProviderCompat::merged(c, ProviderCompat::unset()) == c,
        ProviderCompat::merged(ProviderCompat::unset(), c) == c,
{
    assert(TransportCompat::merged(c.transport, TransportCompat::unset()) == c.transport && TransportCompat::merged(TransportCompat::unset(), c.transport) == c.transport);
    assert(MessageCompat::merged(c.messages, MessageCompat::unset()) == c.messages && MessageCompat::merged(MessageCompat::unset(), c.messages) == c.messages);
    assert(ToolCompat::merged(c.tools, ToolCompat::unset()) == c.tools && ToolCompat::merged(ToolCompat::unset(), c.tools) == c.tools);
    assert(SchemaCompat::merged(c.schema, SchemaCompat::unset()) == c.schema && SchemaCompat::merged(SchemaCompat::unset(), c.schema) == c.schema);
    assert(ReasoningCompat::merged(c.reasoning, ReasoningCompat::unset()) == c.reasoning && ReasoningCompat::merged(ReasoningCompat::unset(), c.reasoning) == c.reasoning);
}

/// Layers of settings may be merged in either grouping.
pub proof fn merging_layers_is_associative(a: ProviderCompat, b: ProviderCompat, c: ProviderCompat)
    ensures
        ProviderCompat::merged(ProviderCompat::merged(a, b), c) == ProviderCompat::merged(
            a,
            ProviderCompat::merged(b, c),
        ),
{
    assert(TransportCompat::merged(TransportCompat::merged(a.transport, b.transport), c.transport) == TransportCompat::merged(
        a.transport,
        TransportCompat::merged(b.transport, c.transport),
    ));
    assert(MessageCompat::merged(MessageCompat::merged(a.messages, b.messages), c.messages) == MessageCompat::merged(
        a.messages,
        MessageCompat::merged(b.messages, c.messages),
    ));
    assert(ToolCompat::merged(ToolCompat::merged(a.tools, b.tools), c.tools) == ToolCompat::merged(
        a.tools,
        ToolCompat::merged(b.tools, c.tools),
    ));
    assert(SchemaCompat::merged(SchemaCompat::merged(a.schema, b.schema), c.schema) == SchemaCompat::merged(
        a.schema,
        SchemaCompat::merged(b.schema, c.schema),
    ));
    assert(ReasoningCompat::merged(ReasoningCompat::merged(a.reasoning, b.reasoning), c.reasoning) == ReasoningCompat::merged(
        a.reasoning,
        ReasoningCompat::merged(b.reasoning, c.reasoning),
    ));
}

/// Merging some settings a second time changes nothing.
pub proof fn merging_twice_is_merging_once(a: ProviderCompat, b: ProviderCompat)
    ensures
        ProviderCompat::merged(ProviderCompat::merged(a, b), b) == ProviderCompat::merged(a, b),
{
}

} // verus!
