//! What goes to a model and what comes back from it.

use vstd::prelude::*;

use crate::json::{JsonValue, JsonView};
use crate::message::{message_views, opt_json, Message, MessageView, StopReason, TokenUsage};
use crate::text::opt_view;

verus! {

/// One event of a model's reply.
#[derive(Debug)]
pub enum LlmEvent {
    TextDelta(String),
    ToolUse { id: String, name: String, input: JsonValue, extra: Option<JsonValue> },
    ThinkingDelta(String),
    ThinkingSignature(String),
    Done { stop_reason: StopReason, usage: TokenUsage },
    Error(String),
}

/// An event as mathematics.
#[verifier::ext_equal]
pub enum EventView {
    TextDelta(Seq<char>),
    ToolUse { id: Seq<char>, name: Seq<char>, input: JsonView, extra: Option<JsonView> },
    ThinkingDelta(Seq<char>),
    ThinkingSignature(Seq<char>),
    Done { stop_reason: StopReason, usage: TokenUsage },
    Error(Seq<char>),
}

impl LlmEvent {
    pub open spec fn view(&self) -> EventView {
        match self {
            LlmEvent::TextDelta(s) => EventView::TextDelta(s@),
            LlmEvent::ToolUse { id, name, input, extra } => EventView::ToolUse {
                id: id@,
                name: name@,
                input: input@,
                extra: opt_json(*extra),
            },
            LlmEvent::ThinkingDelta(s) => EventView::ThinkingDelta(s@),
            LlmEvent::ThinkingSignature(s) => EventView::ThinkingSignature(s@),
            LlmEvent::Done { stop_reason, usage } => EventView::Done {
                stop_reason: *stop_reason,
                usage: *usage,
            },
            LlmEvent::Error(s) => EventView::Error(s@),
        }
    }
}

/// Some events as mathematics.
pub open spec fn event_views(events: Seq<LlmEvent>) -> Seq<EventView> {
    Seq::new(events.len(), |i: int| events[i]@)
}

/// Whether the model thinks before it answers, and for how long.
#[derive(Debug, Clone, Copy, PartialEq, Eq, Structural)]
pub enum ThinkingConfig {
    Enabled { budget_tokens: u32 },
    Disabled,
}

/// A tool as a model sees it.
#[derive(Debug)]
pub struct ToolDef {
    pub name: String,
    pub description: String,
    /// Stands in for the description while the tool is deferred.
    pub summary: String,
    pub input_schema: JsonValue,
    pub deferred: bool,
}

/// A tool as mathematics.
#[verifier::ext_equal]
pub struct ToolDefView {
    pub name: Seq<char>,
    pub description: Seq<char>,
    pub summary: Seq<char>,
    pub input_schema: JsonView,
    pub deferred: bool,
}

impl ToolDef {
    pub open spec fn view(&self) -> ToolDefView {
        ToolDefView {
            name: self.name@,
            description: self.description@,
            summary: self.summary@,
            input_schema: self.input_schema@,
            deferred: self.deferred,
        }
    }
}

impl Clone for ToolDef {
    fn clone(&self) -> (r: ToolDef)
        ensures
            r@ == self@,
    {
        ToolDef {
            name: self.name.clone(),
            description: self.description.clone(),
            summary: self.summary.clone(),
            input_schema: self.input_schema.clone(),
            deferred: self.deferred,
        }
    }
}

/// Some tools as mathematics.
pub open spec fn tool_views(tools: Seq<ToolDef>) -> Seq<ToolDefView> {
    Seq::new(tools.len(), |i: int| tools[i]@)
}

/// One request to a model.
#[derive(Debug)]
pub struct LlmRequest {
    pub model: String,
    pub system: String,
    pub messages: Vec<Message>,
    pub tools: Vec<ToolDef>,
    pub max_tokens: Option<u32>,
    pub thinking: Option<ThinkingConfig>,
    pub reasoning_effort: Option<String>,
}

/// A request as mathematics.
#[verifier::ext_equal]
pub struct RequestView {
    pub model: Seq<char>,
    pub system: Seq<char>,
    pub messages: Seq<MessageView>,
    pub tools: Seq<ToolDefView>,
    pub max_tokens: Option<u32>,
    pub thinking: Option<ThinkingConfig>,
    pub reasoning_effort: Option<Seq<char>>,
}

impl LlmRequest {
    pub open spec fn view(&self) -> RequestView {
        RequestView {
            model: self.model@,
            system: self.system@,
            messages: message_views(self.messages@),
            tools: tool_views(self.tools@),
            max_tokens: self.max_tokens,
            thinking: self.thinking,
            reasoning_effort: opt_view(self.reasoning_effort),
        }
    }
}

/// Why a provider could not serve a request.
#[derive(Debug)]
pub enum ProviderError {
    Connection(String),
    RateLimited { retry_after_ms: u64, body: Option<String> },
    Api { status: u16, message: String },
    /// The request is over a configured limit.
    PromptTooLong(String),
}

/// A provider error as mathematics.
#[verifier::ext_equal]
pub enum ProviderErrorView {
    Connection(Seq<char>),
    RateLimited { retry_after_ms: u64, body: Option<Seq<char>> },
    Api { status: u16, message: Seq<char> },
    PromptTooLong(Seq<char>),
}

impl ProviderError {
    pub open spec fn view(&self) -> ProviderErrorView {
        match self {
            ProviderError::Connection(s) => ProviderErrorView::Connection(s@),
            ProviderError::RateLimited { retry_after_ms, body } => ProviderErrorView::RateLimited {
                retry_after_ms: *retry_after_ms,
                body: opt_view(*body),
            },
            ProviderError::Api { status, message } => ProviderErrorView::Api {
                status: *status,
                message: message@,
            },
            ProviderError::PromptTooLong(s) => ProviderErrorView::PromptTooLong(s@),
        }
    }

    /// Whether the same request may be served later: the connection failed, or
    /// there were too many requests.
    pub fn is_retryable(&self) -> (r: bool)
        ensures
            r == (self@ is Connection || self@ is RateLimited),
    {
        match self {
            ProviderError::Connection(_) => true,
            ProviderError::RateLimited { .. } => true,
            _ => false,
        }
    }
}

} // verus!
