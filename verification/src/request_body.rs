//! Request bodies, and the limits that are checked before they are sent.

use vstd::prelude::*;
use vstd::utf8::encode_utf8;

use crate::anthropic_shared::{self, message_json, wire_messages, WireMessageView};
use crate::compat::{setting, ProviderCompat};
use crate::json::{json_text, json_views, JsonObject, JsonValue, JsonView, NumberView};
use crate::llm::{
    tool_views, LlmRequest, ProviderError, ProviderErrorView, RequestView, ThinkingConfig, ToolDef,
    ToolDefView,
};
use crate::openai::{self, chat_json, chat_messages, ChatView, OpenAIProvider};
use crate::schema::{sanitize_json_schema, sanitized};
use crate::text::{concat2, concat3, decimal, format_usize, opt_view, views};
use crate::tool_ids::{are_fresh, fresh_ids, ids_needed, IdGenerator, IdStyle};
use crate::transport::WireParams;

verus! {

broadcast use vstd::string::group_string_axioms;

/// The output limit of a request to Anthropic that names none.
pub const DEFAULT_MAX_TOKENS: u32 = 4096;

// ---------------------------------------------------------------------------
// Limits
// ---------------------------------------------------------------------------

/// What to say of a number over its limit.
pub open spec fn over_limit(what: Seq<char>, n: nat, limit: Option<usize>) -> Option<Seq<char>> {
    match limit {
        Some(m) => if n > m {
            Some(what + decimal(n) + " exceeds configured limit "@ + decimal(m as nat))
        } else {
            None
        },
        None => None,
    }
}

/// A body with so many tools, unless it is over a limit; then what to say.
pub open spec fn within_limits(
    provider: Seq<char>,
    compat: ProviderCompat,
    tools: nat,
    body: JsonView,
) -> Result<JsonView, Seq<char>> {
    match over_limit(provider + " tools count "@, tools, compat.tools.max_tool_count) {
        Some(e) => Err(e),
        None => match over_limit(
            provider + " request body bytes "@,
            encode_utf8(json_text(body)).len(),
            compat.transport.max_request_body_bytes,
        ) {
            Some(e) => Err(e),
            None => Ok(body),
        },
    }
}

/// A body, or the refusal with its text.
pub open spec fn is_outcome(
    r: Result<JsonValue, ProviderError>,
    expected: Result<JsonView, Seq<char>>,
) -> bool {
    match (r, expected) {
        (Ok(body), Ok(view)) => body@ == view,
        (Err(e), Err(text)) => e@ == ProviderErrorView::PromptTooLong(text),
        _ => false,
    }
}

fn describe_over_limit(what: &str, n: usize, limit: Option<usize>) -> (r: Option<String>)
    ensures
        opt_view(r) == over_limit(what@, n as nat, limit),
{
    match limit {
        Some(m) => if n > m {
            let mut s = concat3(what, format_usize(n).as_str(), " exceeds configured limit ");
            s.append(format_usize(m).as_str());
            Some(s)
        } else {
            None
        },
        None => None,
    }
}

fn check_limits(provider: &str, compat: &ProviderCompat, tools: usize, body: JsonValue) -> (r: Result<
    JsonValue,
    ProviderError,
>)
    ensures
        is_outcome(r, within_limits(provider@, *compat, tools as nat, body@)),
{
    let what = concat2(provider, " tools count ");
    if let Some(e) = describe_over_limit(what.as_str(), tools, compat.max_tool_count()) {
        return Err(ProviderError::PromptTooLong(e));
    }
    let limit = compat.max_request_body_bytes();
    if limit.is_some() {
        let text = body.to_text();
        let size: usize = text.as_str().as_bytes().len();
        let what = concat2(provider, " request body bytes ");
        if let Some(e) = describe_over_limit(what.as_str(), size, limit) {
            return Err(ProviderError::PromptTooLong(e));
        }
    }
    Ok(body)
}

// ---------------------------------------------------------------------------
// OpenAI
// ---------------------------------------------------------------------------

/// The value `true`.
pub open spec fn yes() -> JsonView {
    JsonView::Bool(true)
}

/// The body of a chat request, with `ids` the ids to give to calls without one.
pub open spec fn chat_body(compat: ProviderCompat, q: RequestView, ids: Seq<Seq<char>>) -> JsonView {
    let messages = chat_messages(q.messages, q.system, compat, ids).map_values(
        |m: ChatView| chat_json(m),
    );
    let base = Map::<Seq<char>, JsonView>::empty().insert("model"@, JsonView::String(q.model)).insert(
        "messages"@,
        JsonView::Array(messages),
    ).insert("stream"@, yes());
    let streamed = if setting(compat.transport.include_stream_options, true) {
        base.insert(
            "stream_options"@,
            JsonView::Object(
                Map::<Seq<char>, JsonView>::empty().insert("include_usage"@, yes()),
            ),
        )
    } else {
        base
    };
    let limited = match q.max_tokens {
        Some(n) => streamed.insert(
            setting(opt_view(compat.transport.max_tokens_field), "max_tokens"@),
            JsonView::Number(NumberView::Unsigned(n as u64)),
        ),
        None => streamed,
    };
    let equipped = if chat_tools(compat, q) > 0 {
        limited.insert(
            "tools"@,
            JsonView::Array(q.tools.map_values(|t: ToolDefView| openai::tool_json(t))),
        )
    } else {
        limited
    };
    match q.reasoning_effort {
        Some(effort) => if setting(compat.reasoning.supports_effort, false) {
            JsonView::Object(equipped.insert("reasoning_effort"@, JsonView::String(effort)))
        } else {
            JsonView::Object(equipped)
        },
        None => JsonView::Object(equipped),
    }
}

/// How many tools go out with a chat request.
pub open spec fn chat_tools(compat: ProviderCompat, q: RequestView) -> nat {
    if setting(compat.tools.emit_tools, true) {
        q.tools.len()
    } else {
        0
    }
}

impl OpenAIProvider {
    /// The body of a request, with `ids` the ids to give to calls without one,
    /// unless it is over a configured limit.
    pub fn build_request_body_with_ids(&self, request: &LlmRequest, ids: &Vec<String>) -> (r: Result<
        JsonValue,
        ProviderError,
    >)
        requires
            ids_needed(request@.messages) <= ids@.len(),
        ensures
            is_outcome(
                r,
                within_limits(
                    "openai"@,
                    self.compat,
                    chat_tools(self.compat, request@),
                    chat_body(self.compat, request@, views(ids@)),
                ),
            ),
    {
        let compat = &self.compat;
        let messages = Self::build_messages_with_ids(
            request.messages.as_slice(),
            request.system.as_str(),
            compat,
            ids,
        );
        let o = JsonObject::new().with("model", JsonValue::string(request.model.as_str())).with(
            "messages",
            JsonValue::array(messages),
        ).with("stream", JsonValue::Bool(true));
        let o = if compat.include_stream_options() {
            let options = JsonObject::new().with("include_usage", JsonValue::Bool(true));
            o.with("stream_options", JsonValue::Object(options))
        } else {
            o
        };
        let o = match request.max_tokens {
            Some(n) => o.with(compat.max_tokens_field(), JsonValue::unsigned(n as u64)),
            None => o,
        };
        let tools: usize = if compat.emit_tools() {
            request.tools.len()
        } else {
            0
        };
        let o = if tools > 0 {
            o.with("tools", JsonValue::array(Self::build_tools(request.tools.as_slice())))
        } else {
            o
        };
        let o = match &request.reasoning_effort {
            Some(effort) => if compat.supports_effort() {
                o.with("reasoning_effort", JsonValue::string(effort.as_str()))
            } else {
                o
            },
            None => o,
        };
        check_limits("openai", compat, tools, JsonValue::Object(o))
    }

    /// The body of a request, unless it is over a configured limit. Calls without an
    /// id get generated ones.
    pub fn build_request_body(&self, request: &LlmRequest) -> (r: Result<JsonValue, ProviderError>)
        ensures
            exists|ids: Seq<Seq<char>>|
                {
                    &&& are_fresh(IdStyle::Call, ids, ids_needed(request@.messages))
                    &&& is_outcome(
                        r,
                        within_limits(
                            "openai"@,
                            self.compat,
                            chat_tools(self.compat, request@),
                            #[trigger] chat_body(self.compat, request@, ids),
                        ),
                    )
                },
    {
        let mut generator = IdGenerator::new();
        let ids = fresh_ids(request.messages.as_slice(), IdStyle::Call, &mut generator);
        assert(views(ids@).len() == ids@.len());
        let r = self.build_request_body_with_ids(request, &ids);
        assert(are_fresh(IdStyle::Call, views(ids@), ids_needed(request@.messages)));
        r
    }
}

// ---------------------------------------------------------------------------
// Anthropic
// ---------------------------------------------------------------------------

/// A tool with its schema as strict providers take it.
pub open spec fn strict_tool(t: ToolDefView) -> ToolDefView {
    ToolDefView { input_schema: sanitized(t.input_schema), ..t }
}

/// The tools of a request, as strict providers take them where told so.
pub open spec fn wire_tools(strict: bool, tools: Seq<ToolDefView>) -> Seq<JsonView> {
    if strict {
        tools.map_values(|t: ToolDefView| anthropic_shared::tool_json(strict_tool(t)))
    } else {
        tools.map_values(|t: ToolDefView| anthropic_shared::tool_json(t))
    }
}

/// The body of a request in the Anthropic format, with `ids` the ids to give to
/// calls without one. Who takes the body and whether prompts are cached do not
/// enter it.
pub open spec fn wire_body(
    compat: ProviderCompat,
    params: WireParams,
    q: RequestView,
    ids: Seq<Seq<char>>,
) -> JsonView {
    let messages = wire_messages(q.messages, compat, ids).map_values(
        |m: WireMessageView| message_json(m),
    );
    let base = Map::<Seq<char>, JsonView>::empty().insert(
        "system"@,
        JsonView::String(q.system),
    ).insert("messages"@, JsonView::Array(messages)).insert(
        "max_tokens"@,
        JsonView::Number(NumberView::Unsigned(setting(q.max_tokens, DEFAULT_MAX_TOKENS) as u64)),
    );
    let versioned = match params.anthropic_version {
        Some(version) => base.insert("anthropic_version"@, JsonView::String(version@)),
        None => base,
    };
    let named = if params.include_model_in_body {
        versioned.insert("model"@, JsonView::String(q.model))
    } else {
        versioned
    };
    let streamed = if params.include_stream {
        named.insert("stream"@, yes())
    } else {
        named
    };
    let strict = params.sanitize_schema || setting(compat.schema.sanitize_schema, false);
    let equipped = if q.tools.len() > 0 {
        streamed.insert("tools"@, JsonView::Array(wire_tools(strict, q.tools)))
    } else {
        streamed
    };
    match q.thinking {
        Some(ThinkingConfig::Enabled { budget_tokens }) => JsonView::Object(
            equipped.insert("thinking"@, thinking_json(budget_tokens)),
        ),
        _ => JsonView::Object(equipped),
    }
}

/// How long to think.
pub open spec fn thinking_json(budget_tokens: u32) -> JsonView {
    JsonView::Object(
        Map::<Seq<char>, JsonView>::empty().insert("type"@, JsonView::String("enabled"@)).insert(
            "budget_tokens"@,
            JsonView::Number(NumberView::Unsigned(budget_tokens as u64)),
        ),
    )
}

fn build_wire_tools(strict: bool, tools: &Vec<ToolDef>) -> (r: Vec<JsonValue>)
    ensures
        json_views(r@) == wire_tools(strict, tool_views(tools@)),
{
    if !strict {
        return anthropic_shared::build_tools(tools.as_slice());
    }
    let mut cleaned: Vec<ToolDef> = Vec::new();
    for i in 0..tools.len()
        invariant
            cleaned@.len() == i,
            forall|j: int| 0 <= j < i ==> (#[trigger] cleaned@[j])@ == strict_tool(tools@[j]@),
    {
        let t = tools[i].clone();
        let input_schema = sanitize_json_schema(&t.input_schema);
        cleaned.push(
            ToolDef {
                name: t.name,
                description: t.description,
                summary: t.summary,
                input_schema,
                deferred: t.deferred,
            },
        );
    }
    let r = anthropic_shared::build_tools(cleaned.as_slice());
    assert(json_views(r@) =~= wire_tools(strict, tool_views(tools@)));
    r
}

/// The body of a request in the Anthropic format, with `ids` the ids to give to
/// calls without one, unless it is over a configured limit.
pub fn build_wire_body_with_ids(
    compat: &ProviderCompat,
    params: &WireParams,
    request: &LlmRequest,
    ids: &Vec<String>,
) -> (r: Result<JsonValue, ProviderError>)
    requires
        ids_needed(request@.messages) <= ids@.len(),
    ensures
        is_outcome(
            r,
            within_limits(
                "anthropic"@,
                *compat,
                request@.tools.len(),
                wire_body(*compat, *params, request@, views(ids@)),
            ),
        ),
{
    let messages = anthropic_shared::build_messages_with_ids(
        request.messages.as_slice(),
        compat,
        ids,
    );
    let max_tokens: u32 = match request.max_tokens {
        Some(n) => n,
        None => DEFAULT_MAX_TOKENS,
    };
    let o = JsonObject::new().with("system", JsonValue::string(request.system.as_str())).with(
        "messages",
        JsonValue::array(messages),
    ).with("max_tokens", JsonValue::unsigned(max_tokens as u64));
    let o = match &params.anthropic_version {
        Some(version) => o.with("anthropic_version", JsonValue::string(version.as_str())),
        None => o,
    };
    let o = if params.include_model_in_body {
        o.with("model", JsonValue::string(request.model.as_str()))
    } else {
        o
    };
    let o = if params.include_stream {
        o.with("stream", JsonValue::Bool(true))
    } else {
        o
    };
    let strict = params.sanitize_schema || compat.sanitize_schema();
    let o = if request.tools.len() > 0 {
        o.with("tools", JsonValue::array(build_wire_tools(strict, &request.tools)))
    } else {
        o
    };
    let o = match request.thinking {
        Some(ThinkingConfig::Enabled { budget_tokens }) => {
            let thinking = JsonObject::new().with("type", JsonValue::string("enabled")).with(
                "budget_tokens",
                JsonValue::unsigned(budget_tokens as u64),
            );
            o.with("thinking", JsonValue::Object(thinking))
        },
        _ => o,
    };
    check_limits("anthropic", compat, request.tools.len(), JsonValue::Object(o))
}

/// The body of a request in the Anthropic format, unless it is over a configured
/// limit. Calls without an id get generated ones.
pub fn build_wire_body(compat: &ProviderCompat, params: &WireParams, request: &LlmRequest) -> (r:
    Result<JsonValue, ProviderError>)
    ensures
        exists|ids: Seq<Seq<char>>|
            {
                &&& are_fresh(IdStyle::Tool, ids, ids_needed(request@.messages))
                &&& is_outcome(
                    r,
                    within_limits(
                        "anthropic"@,
                        *compat,
                        request@.tools.len(),
                        #[trigger] wire_body(*compat, *params, request@, ids),
                    ),
                )
            },
{
    let mut generator = IdGenerator::new();
    let ids = fresh_ids(request.messages.as_slice(), IdStyle::Tool, &mut generator);
    assert(views(ids@).len() == ids@.len());
    let r = build_wire_body_with_ids(compat, params, request, &ids);
    assert(are_fresh(IdStyle::Tool, views(ids@), ids_needed(request@.messages)));
    r
}

// ---------------------------------------------------------------------------
// Laws
// ---------------------------------------------------------------------------

/// A body goes out exactly where neither its tools nor its bytes are over their
/// limit, and without limits always.
pub proof fn bodies_go_out_within_their_limits(
    provider: Seq<char>,
    compat: ProviderCompat,
    tools: nat,
    body: JsonView,
)
    ensures
        within_limits(provider, compat, tools, body) is Ok <==> {
            &&& compat.tools.max_tool_count matches Some(m) ==> tools <= m
            &&& compat.transport.max_request_body_bytes matches Some(m) ==> encode_utf8(
                json_text(body),
            ).len() <= m
        },
        within_limits(provider, compat, tools, body) matches Ok(sent) ==> sent == body,
{
}

} // verus!
