//! Laws of what values stand for: nothing of a message, an event, a tool or a reply is
//! lost on the way to its mathematical counterpart, and lists keep their order.

use vstd::prelude::*;

use crate::anthropic_shared::{wire_block_views, wire_views, WireBlock, WireBlockView, WireMessage};
use crate::anthropic_stream;
use crate::commands::ParsedSlashCommand;
use crate::compaction::{notice_views, Notice, NoticeView};
use crate::engine::{AgentEngine, AgentResult};
use crate::exec_command::{ExecRequest, ToolResult};
use crate::framing::{frame_views, Frame};
use crate::json::{at, json_views, text_at, u64_at, JsonObject, JsonValue, JsonView};
use crate::llm::{
    event_views, tool_views, LlmEvent, LlmRequest, ProviderError, ProviderErrorView, ToolDef,
};
use crate::message::{block_views, message_views, no_usage, opt_json, ContentBlock, Message};
use crate::openai::{call_views, chat_views, ChatMessage, ChatToolCall};
use crate::openai_stream;
use crate::request_body::is_outcome;
use crate::rounds::{result_output_views, ToolResultOutput};
use crate::run::{ActionView, Finalization, RunAction, RunStep};
use crate::settings::modifier_views;
use crate::sse::{sse_message_views, BlockStream, SseBlockFramer, SseMessage};
use crate::stream::StreamOutcome;
use crate::text::{opt_view, views};
use crate::tool_call::ContextModifier;
use crate::turn::TurnGuards;

verus! {

/// An optional text stands for an optional text, a missing one for nothing.
pub proof fn optional_values_are_shown(
    text: Option<String>,
    value: Option<JsonValue>,
    list: Seq<String>,
)
    ensures
        opt_view(text) is Some <==> text is Some,
        text is Some ==> opt_view(text) == Some(text->0@),
        opt_json(value) is Some <==> value is Some,
        value is Some ==> opt_json(value) == Some(value->0@),
        views(list).len() == list.len(),
        forall|i: int| 0 <= i < list.len() ==> #[trigger] views(list)[i] == list[i]@,
{
}

/// A block of a message is shown with all it holds.
pub proof fn blocks_are_shown_whole(b: ContentBlock)
    ensures
        match b {
            ContentBlock::Text { text } => b@ is Text && b@->Text_text == text@,
            ContentBlock::Image { image_url } => b@ is Image && b@->Image_url == image_url.url@,
            ContentBlock::ToolUse { id, name, input, extra } => {
                &&& b@ is ToolUse
                &&& b@->ToolUse_id == id@
                &&& b@->ToolUse_name == name@
                &&& b@->ToolUse_input == input@
                &&& b@->ToolUse_extra is Some <==> extra is Some
                &&& extra is Some ==> b@->ToolUse_extra == Some(extra->0@)
            },
            ContentBlock::ToolResult { tool_use_id, content, is_error } => {
                &&& b@ is ToolResult
                &&& b@->ToolResult_tool_use_id == tool_use_id@
                &&& b@->ToolResult_content == content@
                &&& b@->ToolResult_is_error == is_error
            },
            ContentBlock::Thinking { thinking, signature } => {
                &&& b@ is Thinking
                &&& b@->Thinking_thinking == thinking@
                &&& b@->Thinking_signature is Some <==> signature is Some
                &&& signature is Some ==> b@->Thinking_signature == Some(signature->0@)
            },
        },
{
}

/// A message is shown with its role, its time and every block in its place.
pub proof fn messages_are_shown_whole(m: Message, all: Seq<Message>)
    ensures
        m@.role == m.role,
        m@.timestamp == m.timestamp,
        m@.content.len() == m.content@.len(),
        forall|i: int| 0 <= i < m.content@.len() ==> #[trigger] m@.content[i] == m.content@[i]@,
        block_views(m.content@) == m@.content,
        message_views(all).len() == all.len(),
        forall|i: int| 0 <= i < all.len() ==> #[trigger] message_views(all)[i] == all[i]@,
{
}

/// An event of a reply is shown with all it holds.
pub proof fn events_are_shown_whole(e: LlmEvent, all: Seq<LlmEvent>)
    ensures
        match e {
            LlmEvent::TextDelta(s) => e@ is TextDelta && e@->TextDelta_0 == s@,
            LlmEvent::ThinkingDelta(s) => e@ is ThinkingDelta && e@->ThinkingDelta_0 == s@,
            LlmEvent::ThinkingSignature(s) => e@ is ThinkingSignature
                && e@->ThinkingSignature_0 == s@,
            LlmEvent::ToolUse { id, name, input, extra } => {
                &&& e@ is ToolUse
                &&& e@->ToolUse_id == id@
                &&& e@->ToolUse_name == name@
                &&& e@->ToolUse_input == input@
                &&& e@->ToolUse_extra is Some <==> extra is Some
                &&& extra is Some ==> e@->ToolUse_extra == Some(extra->0@)
            },
            LlmEvent::Done { stop_reason, usage } => e@ is Done && e@->Done_stop_reason
                == stop_reason && e@->Done_usage == usage,
            LlmEvent::Error(s) => e@ is Error && e@->Error_0 == s@,
        },
        event_views(all).len() == all.len(),
        forall|i: int| 0 <= i < all.len() ==> #[trigger] event_views(all)[i] == all[i]@,
{
}

/// A tool and a request are shown with all they hold.
pub proof fn requests_are_shown_whole(t: ToolDef, q: LlmRequest)
    ensures
        t@.name == t.name@,
        t@.description == t.description@,
        t@.summary == t.summary@,
        t@.input_schema == t.input_schema@,
        t@.deferred == t.deferred,
        q@.model == q.model@,
        q@.system == q.system@,
        q@.messages.len() == q.messages@.len(),
        forall|i: int| 0 <= i < q.messages@.len() ==> #[trigger] q@.messages[i] == q.messages@[i]@,
        q@.tools.len() == q.tools@.len(),
        forall|i: int| 0 <= i < q.tools@.len() ==> #[trigger] q@.tools[i] == q.tools@[i]@,
        q@.max_tokens == q.max_tokens,
        q@.thinking == q.thinking,
        q@.reasoning_effort is Some <==> q.reasoning_effort is Some,
        q.reasoning_effort is Some ==> q@.reasoning_effort == Some(q.reasoning_effort->0@),
{
}

/// A provider's refusal is shown with all it says.
pub proof fn refusals_are_shown_whole(e: ProviderError)
    ensures
        match e {
            ProviderError::Connection(s) => e@ == ProviderErrorView::Connection(s@),
            ProviderError::PromptTooLong(s) => e@ == ProviderErrorView::PromptTooLong(s@),
            ProviderError::Api { status, message } => e@ is Api && e@->Api_status == status
                && e@->Api_message == message@,
            ProviderError::RateLimited { retry_after_ms, body } => {
                &&& e@ is RateLimited
                &&& e@->RateLimited_retry_after_ms == retry_after_ms
                &&& e@->RateLimited_body is Some <==> body is Some
                &&& body is Some ==> e@->RateLimited_body == Some(body->0@)
            },
        },
{
}

/// A collected reply and a modifier are shown with all they hold.
pub proof fn replies_are_shown_whole(o: StreamOutcome, m: ContextModifier)
    ensures
        o@.assistant_text == o.assistant_text@,
        o@.thinking_text == o.thinking_text@,
        o@.thinking_signature is Some <==> o.thinking_signature is Some,
        o.thinking_signature is Some ==> o@.thinking_signature == Some(o.thinking_signature->0@),
        o@.tool_calls.len() == o.tool_calls@.len(),
        forall|i: int|
            0 <= i < o.tool_calls@.len() ==> #[trigger] o@.tool_calls[i] == o.tool_calls@[i]@,
        o@.stop_reason == o.stop_reason,
        o@.usage == o.usage,
        m@.model is Some <==> m.model is Some,
        m.model is Some ==> m@.model == Some(m.model->0@),
        m@.effort is Some <==> m.effort is Some,
        m.effort is Some ==> m@.effort == Some(m.effort->0@),
        m@.allowed_tools.len() == m.allowed_tools@.len(),
        forall|i: int|
            0 <= i < m.allowed_tools@.len() ==> #[trigger] m@.allowed_tools[i]
                == m.allowed_tools@[i]@,
        m@.plan_mode_transition == m.plan_mode_transition,
{
}

/// A message of the chat format is shown with all it holds.
pub proof fn chat_messages_are_shown_whole(m: ChatMessage, c: ChatToolCall, all: Seq<ChatMessage>)
    ensures
        m@.role == m.role,
        m@.content is Some <==> m.content is Some,
        m.content is Some ==> m@.content == Some(m.content->0@),
        m@.reasoning_content is Some <==> m.reasoning_content is Some,
        m.reasoning_content is Some ==> m@.reasoning_content == Some(m.reasoning_content->0@),
        m@.tool_call_id is Some <==> m.tool_call_id is Some,
        m.tool_call_id is Some ==> m@.tool_call_id == Some(m.tool_call_id->0@),
        m@.tool_calls.len() == m.tool_calls@.len(),
        forall|i: int|
            0 <= i < m.tool_calls@.len() ==> #[trigger] m@.tool_calls[i] == m.tool_calls@[i]@,
        call_views(m.tool_calls@) == m@.tool_calls,
        c@.id == c.id@,
        c@.name == c.name@,
        c@.arguments == c.arguments@,
        c@.extra is Some <==> c.extra is Some,
        c.extra is Some ==> c@.extra == Some(c.extra->0@),
        chat_views(all).len() == all.len(),
        forall|i: int| 0 <= i < all.len() ==> #[trigger] chat_views(all)[i] == all[i]@,
{
}

/// A message of the Anthropic format is shown with all it holds.
pub proof fn wire_messages_are_shown_whole(b: WireBlock, m: WireMessage, all: Seq<WireMessage>)
    ensures
        match b {
            WireBlock::Text { text } => b@ == (WireBlockView::Text { text: text@ }),
            WireBlock::ToolUse { id, name, input } => {
                &&& b@ is ToolUse
                &&& b@->ToolUse_id == id@
                &&& b@->ToolUse_name == name@
                &&& b@->ToolUse_input == input@
            },
            WireBlock::ToolResult { tool_use_id, content, is_error } => {
                &&& b@ is ToolResult
                &&& b@->ToolResult_tool_use_id == tool_use_id@
                &&& b@->ToolResult_content == content@
                &&& b@->ToolResult_is_error == is_error
            },
            WireBlock::Thinking { thinking, signature } => {
                &&& b@ is Thinking
                &&& b@->Thinking_thinking == thinking@
                &&& b@->Thinking_signature is Some <==> signature is Some
                &&& signature is Some ==> b@->Thinking_signature == Some(signature->0@)
            },
        },
        m@.role == m.role,
        m@.content == wire_block_views(m.content@),
        m@.content.len() == m.content@.len(),
        forall|i: int| 0 <= i < m.content@.len() ==> #[trigger] m@.content[i] == m.content@[i]@,
        wire_views(all).len() == all.len(),
        forall|i: int| 0 <= i < all.len() ==> #[trigger] wire_views(all)[i] == all[i]@,
{
}

/// A JSON value is shown as it is, with lists in their order; of two members of an
/// object with one key the later counts.
pub proof fn json_values_are_shown_whole(v: JsonValue, o: JsonObject)
    ensures
        v is Null ==> v@ is Null,
        v matches JsonValue::Bool(b) ==> v@ == JsonView::Bool(b),
        v matches JsonValue::String(s) ==> v@ == JsonView::String(s@),
        v matches JsonValue::Array(items) ==> {
            &&& v@ is Array
            &&& v@->Array_0.len() == items@.len()
            &&& forall|i: int| 0 <= i < items@.len() ==> #[trigger] v@->Array_0[i] == items@[i]@
        },
        v matches JsonValue::Object(members) ==> v@ == JsonView::Object(members@),
        o.entries@.len() == 0 ==> o@ == Map::<Seq<char>, JsonView>::empty(),
        o.entries@.len() > 0 ==> {
            let last = o.entries@[o.entries@.len() - 1];
            o@.contains_key(last.0@) && o@[last.0@] == last.1@
        },
{
}

/// A member is found in an object that has it and nowhere else, and a value is read as
/// a text, a number or a list exactly where it is one.
pub proof fn members_are_found(v: JsonView, key: Seq<char>)
    ensures
        at(Some(v), key) is Some <==> v is Object && v->Object_0.contains_key(key),
        at(Some(v), key) is Some ==> at(Some(v), key) == Some(v->Object_0[key]),
        at(None, key) is None,
        v.get(key) == at(Some(v), key),
        text_at(Some(v)) is Some <==> v is String,
        v is String ==> text_at(Some(v)) == Some(v->String_0),
        text_at(None) is None,
        v.as_str() == text_at(Some(v)),
        u64_at(Some(v)) is Some <==> v is Number && v->Number_0 is Unsigned,
        v is Number && v->Number_0 is Unsigned ==> u64_at(Some(v)) == Some(v->Number_0->Unsigned_0),
        u64_at(None) is None,
        v.as_u64() == u64_at(Some(v)),
        v.as_array() is Some <==> v is Array,
        v is Array ==> v.as_array() == Some(v->Array_0),
{
}

/// An agent is shown with its settings, its conversation and its state.
pub proof fn agents_are_shown_whole(e: AgentEngine)
    ensures
        e@.compat == e.compat && e@.thinking == e.thinking,
        e@.system_prompt == e.system_prompt@ && e@.model == e.model@,
        e@.reasoning_effort is Some <==> e.reasoning_effort is Some,
        e.reasoning_effort is Some ==> e@.reasoning_effort == Some(e.reasoning_effort->0@),
        e@.messages.len() == e.messages@.len(),
        forall|i: int| 0 <= i < e.messages@.len() ==> #[trigger] e@.messages[i] == e.messages@[i]@,
        e@.total_usage == e.total_usage && e@.msg_id == e.msg_id@,
        e@.max_tokens == e.max_tokens && e@.max_turns_per_run == e.max_turns_per_run,
        e@.max_tool_call_malformed_turns == e.max_tool_call_malformed_turns,
        e@.max_tool_call_failure_turns == e.max_tool_call_failure_turns,
        e@.allow_list.len() == e.allow_list@.len(),
        forall|i: int|
            0 <= i < e.allow_list@.len() ==> #[trigger] e@.allow_list[i] == e.allow_list@[i]@,
        e@.session_id is Some <==> e.session_id is Some,
        e.session_id is Some ==> e@.session_id == Some(e.session_id->0@),
        e@.compact_config == e.compact_config && e@.compact_state == e.compact_state,
        e@.compact_level == e.compact_level@ && e@.toon_enabled == e.toon_enabled,
        e@.plan_state.is_active == e.plan_state.is_active,
        e@.plan_state.pre_plan_allow_list == views(e.plan_state.pre_plan_allow_list@),
{
}

/// A step of a run is shown with what it does, says and returns.
pub proof fn steps_are_shown_whole(s: RunStep, r: AgentResult, f: Finalization, g: TurnGuards)
    ensures
        s@.save == s.save,
        s@.error is Some <==> s.error is Some,
        s.error is Some ==> s@.error == Some(s.error->0@),
        match s.action {
            RunAction::NormalTurn => s@.action is NormalTurn,
            RunAction::FinalTurn(last) => s@.action == ActionView::FinalTurn(last@),
            RunAction::ExecuteTools { tool_calls, assistant_text } => {
                &&& s@.action is ExecuteTools
                &&& s@.action->ExecuteTools_tool_calls == block_views(tool_calls@)
                &&& s@.action->ExecuteTools_assistant_text == assistant_text@
            },
            RunAction::Return(result) => s@.action == ActionView::Return(result@),
            RunAction::Fail(e) => s@.action == ActionView::Fail(e),
        },
        r@.text == r.text@ && r@.stop_reason == r.stop_reason,
        r@.usage == r.usage && r@.turns == r.turns,
        f@.reason == f.reason && f@.prefix_text == f.prefix_text@,
        f@.fallback_stop_reason == f.fallback_stop_reason,
        g@.turns == g.turns.count && g@.max_turns == g.turns.limit,
        g@.malformed.count == g.tool_call_malformed.count,
        g@.malformed.limit == g.tool_call_malformed.limit,
        g@.malformed.last is Some <==> g.tool_call_malformed.last is Some,
        g@.failures.count == g.tool_call_failures.count,
        g@.failures.limit == g.tool_call_failures.limit,
        g@.failures.last is Some <==> g.tool_call_failures.last is Some,
{
}

/// What is seen of a stream so far is shown as it is.
pub proof fn streams_are_shown_whole(
    a: anthropic_stream::StreamState,
    b: openai_stream::StreamState,
    c: openai_stream::ToolCallAccumulator,
    framer: SseBlockFramer,
    message: SseMessage,
    frame: Frame,
    stream: BlockStream,
)
    ensures
        a@.current_block_type == opt_view(a.current_block_type),
        a@.tool_input_json == a.tool_input_json@,
        a@.tool_id == a.tool_id@ && a@.tool_name == a.tool_name@,
        a@.usage.input_tokens == a.input_tokens && a@.usage.output_tokens == a.output_tokens,
        a@.usage.cache_creation_tokens == a.cache_creation_tokens,
        a@.usage.cache_read_tokens == a.cache_read_tokens,
        b@.tool_calls.len() == b.tool_calls@.len(),
        forall|i: int|
            0 <= i < b.tool_calls@.len() ==> #[trigger] b@.tool_calls[i] == b.tool_calls@[i]@,
        b@.input_tokens == b.input_tokens && b@.output_tokens == b.output_tokens,
        b@.pending_done == b.pending_done,
        c@.id == c.id@ && c@.name == c.name@ && c@.arguments == c.arguments@,
        c@.extra == opt_json(c.extra),
        framer@.buffer == framer.buffer@ && framer@.event_type == framer.current_event_type@,
        message@.event_type == message.event_type@ && message@.data == message.data@,
        frame@.kind == frame.kind && frame@.data == frame.data@,
        stream@.framer == stream.framer@ && stream@.state == stream.state@,
        stream@.emitted_content == stream.emitted_content,
{
}

/// What a tool hands back and what is shown of it, a command to run, a line that was
/// typed and a notice are shown as they are.
pub proof fn outputs_are_shown_whole(
    o: ToolResultOutput,
    r: ToolResult,
    q: ExecRequest,
    c: ParsedSlashCommand,
    n: Notice,
)
    ensures
        o@.tool_use_id == o.tool_use_id@ && o@.tool_name == o.tool_name@,
        o@.is_error == o.is_error && o@.content == o.content@,
        r@.content == r.content@ && r@.is_error == r.is_error,
        q@.command == q.command@ && q@.shell == opt_view(q.shell),
        q@.timeout_ms == q.timeout_ms,
        c@.display_name == c.display_name@ && c@.name == c.name@ && c@.args == c.args@,
        n matches Notice::Info(text) ==> n@ == NoticeView::Info(text@),
        n matches Notice::Error(text) ==> n@ == NoticeView::Error(text@),
{
}

/// Lists are shown one for one and in order.
pub proof fn lists_are_shown_in_order(
    notices: Seq<Notice>,
    frames: Seq<Frame>,
    messages: Seq<SseMessage>,
    outputs: Seq<ToolResultOutput>,
    tools: Seq<ToolDef>,
    values: Seq<JsonValue>,
    modifiers: Seq<Option<ContextModifier>>,
)
    ensures
        notice_views(notices).len() == notices.len(),
        forall|i: int| 0 <= i < notices.len() ==> #[trigger] notice_views(notices)[i] == notices[i]@,
        frame_views(frames).len() == frames.len(),
        forall|i: int| 0 <= i < frames.len() ==> #[trigger] frame_views(frames)[i] == frames[i]@,
        sse_message_views(messages).len() == messages.len(),
        forall|i: int|
            0 <= i < messages.len() ==> #[trigger] sse_message_views(messages)[i] == messages[i]@,
        result_output_views(outputs).len() == outputs.len(),
        forall|i: int|
            0 <= i < outputs.len() ==> #[trigger] result_output_views(outputs)[i] == outputs[i]@,
        tool_views(tools).len() == tools.len(),
        forall|i: int| 0 <= i < tools.len() ==> #[trigger] tool_views(tools)[i] == tools[i]@,
        json_views(values).len() == values.len(),
        forall|i: int| 0 <= i < values.len() ==> #[trigger] json_views(values)[i] == values[i]@,
        modifier_views(modifiers).len() == modifiers.len(),
        forall|i: int|
            0 <= i < modifiers.len() ==> {
                let seen = #[trigger] modifier_views(modifiers)[i];
                &&& seen is Some <==> modifiers[i] is Some
                &&& seen is Some ==> seen == Some(modifiers[i]->0@)
            },
{
}

/// Nothing used is zero of everything.
pub proof fn nothing_used_is_zero()
    ensures
        no_usage().input_tokens == 0,
        no_usage().output_tokens == 0,
        no_usage().cache_creation_tokens == 0,
        no_usage().cache_read_tokens == 0,
{
}

/// A body that was to go out went out as it was to, and one that was refused was
/// refused as too long, with the text that was to be said.
pub proof fn bodies_go_out_as_expected(
    r: Result<JsonValue, ProviderError>,
    expected: Result<JsonView, Seq<char>>,
)
    requires
        is_outcome(r, expected),
    ensures
        r is Ok <==> expected is Ok,
        r is Ok ==> r->Ok_0@ == expected->Ok_0,
        r is Err ==> r->Err_0@ == ProviderErrorView::PromptTooLong(expected->Err_0),
{
}

} // verus!
