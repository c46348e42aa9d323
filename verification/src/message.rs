//! Conversation messages.

use vstd::prelude::*;

use crate::clock::{utc_now, Timestamp};
use crate::json::{JsonValue, JsonView};
use crate::text::{copy_opt, opt_view};

verus! {

/// Unique identifier for a tool call
pub type ToolUseId = String;

/// A single content block within a message
#[derive(Debug)]
pub enum ContentBlock {
    /// Plain text content
    Text { text: String },
    /// An image content block (base64 encoded data URI)
    Image { image_url: ImageUrl },
    /// A tool invocation from the assistant
    ToolUse {
        id: ToolUseId,
        name: String,
        input: JsonValue,
        /// Opaque provider-specific metadata (e.g. Gemini thought_signature).
        /// Round-tripped verbatim so the provider can include it in follow-up requests.
        extra: Option<JsonValue>,
    },
    /// Result of a tool execution, sent back as user message
    ToolResult { tool_use_id: ToolUseId, content: String, is_error: bool },
    /// Thinking / reasoning block. Serialized as `thinking` for Anthropic
    /// and as `reasoning_content` for OpenAI-compatible providers.
    Thinking {
        thinking: String,
        /// Opaque provider signature required when round-tripping Anthropic thinking blocks.
        signature: Option<String>,
    },
}

/// Image URL for content blocks
#[derive(Debug)]
pub struct ImageUrl {
    pub url: String,
}

/// A message in the conversation
#[derive(Debug)]
pub struct Message {
    pub role: Role,
    pub content: Vec<ContentBlock>,
    /// When this message was created.  Used by microcompact to decide
    /// whether old tool results should be cleared.
    pub timestamp: Option<Timestamp>,
}

#[derive(Debug, Clone, Copy, PartialEq, Eq, Structural)]
pub enum Role {
    User,
    Assistant,
    System,
    Tool,
}

/// Why the model stopped generating
#[derive(Debug, Clone, Copy, PartialEq, Eq, Structural)]
pub enum StopReason {
    /// Model finished naturally
    EndTurn,
    /// Model wants to call tools
    ToolUse,
    /// Hit max_tokens limit
    MaxTokens,
    /// Hit max_turns limit
    MaxTurns,
}

/// Token usage statistics
#[derive(Debug, Clone, Copy, PartialEq, Eq, Structural)]
pub struct TokenUsage {
    pub input_tokens: u64,
    pub output_tokens: u64,
    pub cache_creation_tokens: u64,
    pub cache_read_tokens: u64,
}

/// No tokens at all.
pub open spec fn no_usage() -> TokenUsage {
    TokenUsage {
        input_tokens: 0,
        output_tokens: 0,
        cache_creation_tokens: 0,
        cache_read_tokens: 0,
    }
}

impl Default for TokenUsage {
    fn default() -> (r: TokenUsage)
        ensures
            r == no_usage(),
    {
        TokenUsage {
            input_tokens: 0,
            output_tokens: 0,
            cache_creation_tokens: 0,
            cache_read_tokens: 0,
        }
    }
}

/// A content block as mathematics.
#[verifier::ext_equal]
pub enum BlockView {
    Text { text: Seq<char> },
    Image { url: Seq<char> },
    ToolUse { id: Seq<char>, name: Seq<char>, input: JsonView, extra: Option<JsonView> },
    ToolResult { tool_use_id: Seq<char>, content: Seq<char>, is_error: bool },
    Thinking { thinking: Seq<char>, signature: Option<Seq<char>> },
}

/// A message as mathematics.
#[verifier::ext_equal]
pub struct MessageView {
    pub role: Role,
    pub content: Seq<BlockView>,
    pub timestamp: Option<Timestamp>,
}

/// The value of an optional JSON value.
pub open spec fn opt_json(v: Option<JsonValue>) -> Option<JsonView> {
    match v {
        Some(v) => Some(v@),
        None => None,
    }
}

pub fn copy_opt_json(v: &Option<JsonValue>) -> (r: Option<JsonValue>)
    ensures
        opt_json(r) == opt_json(*v),
{
    match v {
        Some(v) => Some(v.clone()),
        None => None,
    }
}

impl ContentBlock {
    pub open spec fn view(&self) -> BlockView {
        match self {
            ContentBlock::Text { text } => BlockView::Text { text: text@ },
            ContentBlock::Image { image_url } => BlockView::Image { url: image_url.url@ },
            ContentBlock::ToolUse { id, name, input, extra } => BlockView::ToolUse {
                id: id@,
                name: name@,
                input: input@,
                extra: opt_json(*extra),
            },
            ContentBlock::ToolResult { tool_use_id, content, is_error } => BlockView::ToolResult {
                tool_use_id: tool_use_id@,
                content: content@,
                is_error: *is_error,
            },
            ContentBlock::Thinking { thinking, signature } => BlockView::Thinking {
                thinking: thinking@,
                signature: opt_view(*signature),
            },
        }
    }
}

impl Clone for ContentBlock {
    fn clone(&self) -> (r: ContentBlock)
        ensures
            r@ == self@,
    {
        match self {
            ContentBlock::Text { text } => ContentBlock::Text { text: text.clone() },
            ContentBlock::Image { image_url } => ContentBlock::Image {
                image_url: ImageUrl { url: image_url.url.clone() },
            },
            ContentBlock::ToolUse { id, name, input, extra } => ContentBlock::ToolUse {
                id: id.clone(),
                name: name.clone(),
                input: input.clone(),
                extra: copy_opt_json(extra),
            },
            ContentBlock::ToolResult { tool_use_id, content, is_error } => ContentBlock::ToolResult {
                tool_use_id: tool_use_id.clone(),
                content: content.clone(),
                is_error: *is_error,
            },
            ContentBlock::Thinking { thinking, signature } => ContentBlock::Thinking {
                thinking: thinking.clone(),
                signature: copy_opt(signature),
            },
        }
    }
}

/// Some content blocks as mathematics.
pub open spec fn block_views(blocks: Seq<ContentBlock>) -> Seq<BlockView> {
    Seq::new(blocks.len(), |i: int| blocks[i]@)
}

/// Some messages as mathematics.
pub open spec fn message_views(messages: Seq<Message>) -> Seq<MessageView> {
    Seq::new(messages.len(), |i: int| messages[i]@)
}

/// Copies of some content blocks.
pub fn copy_blocks(blocks: &Vec<ContentBlock>) -> (r: Vec<ContentBlock>)
    ensures
        block_views(r@) == block_views(blocks@),
{
    let mut r: Vec<ContentBlock> = Vec::new();
    for i in 0..blocks.len()
        invariant
            r@.len() == i,
            forall|j: int| 0 <= j < i ==> r@[j]@ == blocks@[j]@,
    {
        r.push(blocks[i].clone());
    }
    assert(block_views(r@) =~= block_views(blocks@));
    r
}

impl Message {
    pub open spec fn view(&self) -> MessageView {
        MessageView {
            role: self.role,
            content: block_views(self.content@),
            timestamp: self.timestamp,
        }
    }

    /// Create a message without a timestamp (backward-compatible default).
    pub fn new(role: Role, content: Vec<ContentBlock>) -> (r: Self)
        ensures
            r.role == role,
            r.content == content,
            r.timestamp is None,
    {
        Self { role, content, timestamp: None }
    }

    /// Create a message stamped with the current UTC time.
    pub fn now(role: Role, content: Vec<ContentBlock>) -> (r: Self)
        ensures
            r.role == role,
            r.content == content,
            r.timestamp is Some,
    {
        Self { role, content, timestamp: Some(utc_now()) }
    }
}

impl Clone for Message {
    fn clone(&self) -> (r: Message)
        ensures
            r@ == self@,
    {
        Message {
            role: self.role,
            content: copy_blocks(&self.content),
            timestamp: self.timestamp,
        }
    }
}

/// Copies of some messages.
pub fn copy_messages(messages: &Vec<Message>) -> (r: Vec<Message>)
    ensures
        message_views(r@) == message_views(messages@),
{
    let mut r: Vec<Message> = Vec::new();
    for i in 0..messages.len()
        invariant
            r@.len() == i,
            forall|j: int| 0 <= j < i ==> r@[j]@ == messages@[j]@,
    {
        r.push(messages[i].clone());
    }
    assert(message_views(r@) =~= message_views(messages@));
    r
}

} // verus!
