//! Laws of request bodies: every member that a body has, what it says, and that it has
//! no other.

use vstd::prelude::*;
use vstd::utf8::encode_utf8;

use crate::anthropic_shared::{self, message_json, wire_messages, WireMessageView};
use crate::compat::ProviderCompat;
use crate::json::{json_text, JsonView, NumberView};
use crate::llm::{RequestView, ToolDefView};
use crate::openai::{self, chat_json, chat_messages, ChatView};
use crate::request_body::{chat_body, chat_tools, wire_body, within_limits};
use crate::schema::sanitized;
use crate::text::decimal;
use crate::transport::WireParams;

verus! {

broadcast use vstd::string::group_string_axioms;

/// The member has this value, or the object has no such member.
pub open spec fn says(
    object: Map<Seq<char>, JsonView>,
    key: Seq<char>,
    value: Option<JsonView>,
) -> bool {
    match value {
        Some(v) => object.contains_key(key) && object[key] == v,
        None => !object.contains_key(key),
    }
}

/// A value where there is one to give.
pub open spec fn given(there: bool, value: JsonView) -> Option<JsonView> {
    if there {
        Some(value)
    } else {
        None
    }
}

proof fn lemma_body_keys()
    ensures
        "model"@.len() == 5,
        "model"@[0] == 'm',
        "tools"@.len() == 5,
        "tools"@[0] == 't',
        "messages"@.len() == 8,
        "messages"@[0] == 'm',
        "thinking"@.len() == 8,
        "thinking"@[0] == 't',
        "stream"@.len() == 6,
        "stream"@[1] == 't',
        "system"@.len() == 6,
        "system"@[1] == 'y',
        "stream_options"@.len() == 14,
        "max_tokens"@.len() == 10,
        "reasoning_effort"@.len() == 16,
        "anthropic_version"@.len() == 17,
        "include_usage"@.len() == 13,
        "type"@.len() == 4,
        "type"@[0] == 't',
        "name"@.len() == 4,
        "name"@[0] == 'n',
        "budget_tokens"@.len() == 13,
        "function"@.len() == 8,
        "description"@.len() == 11,
        "parameters"@.len() == 10,
        "input_schema"@.len() == 12,
        "properties"@.len() == 10,
{
    reveal_strlit("model");
    reveal_strlit("tools");
    reveal_strlit("messages");
    reveal_strlit("thinking");
    reveal_strlit("stream");
    reveal_strlit("system");
    reveal_strlit("stream_options");
    reveal_strlit("max_tokens");
    reveal_strlit("reasoning_effort");
    reveal_strlit("anthropic_version");
    reveal_strlit("include_usage");
    reveal_strlit("type");
    reveal_strlit("name");
    reveal_strlit("budget_tokens");
    reveal_strlit("function");
    reveal_strlit("description");
    reveal_strlit("parameters");
    reveal_strlit("input_schema");
    reveal_strlit("properties");
}

/// The name under which a chat request gives its output limit.
pub open spec fn limit_name(compat: ProviderCompat) -> Seq<char> {
    match compat.transport.max_tokens_field {
        Some(name) => name@,
        None => "max_tokens"@,
    }
}

/// The name is none of those that a chat request has for other members.
pub open spec fn is_free_name(name: Seq<char>) -> bool {
    &&& name != "model"@
    &&& name != "messages"@
    &&& name != "stream"@
    &&& name != "stream_options"@
    &&& name != "tools"@
    &&& name != "reasoning_effort"@
}

/// A chat request names the model, carries the messages and asks for a stream; it
/// asks for the token counts unless told not to, gives the output limit under its
/// name, offers the tools unless told not to, and names the effort where the provider
/// takes one. It says nothing else.
pub proof fn chat_requests_say_what_is_asked(
    compat: ProviderCompat,
    q: RequestView,
    ids: Seq<Seq<char>>,
)
    requires
        is_free_name(limit_name(compat)),
    ensures
        chat_body(compat, q, ids) is Object,
        ({
            let m = chat_body(compat, q, ids)->Object_0;
            let limit = limit_name(compat);
            let options = Map::<Seq<char>, JsonView>::empty().insert(
                "include_usage"@,
                JsonView::Bool(true),
            );
            &&& says(m, "model"@, Some(JsonView::String(q.model)))
            &&& says(
                m,
                "messages"@,
                Some(
                    JsonView::Array(
                        chat_messages(q.messages, q.system, compat, ids).map_values(
                            |c: ChatView| chat_json(c),
                        ),
                    ),
                ),
            )
            &&& says(m, "stream"@, Some(JsonView::Bool(true)))
            &&& says(
                m,
                "stream_options"@,
                given(
                    compat.transport.include_stream_options != Some(false),
                    JsonView::Object(options),
                ),
            )
            &&& says(
                m,
                limit,
                given(
                    q.max_tokens is Some,
                    JsonView::Number(NumberView::Unsigned(q.max_tokens->0 as u64)),
                ),
            )
            &&& says(
                m,
                "tools"@,
                given(
                    q.tools.len() > 0 && compat.tools.emit_tools != Some(false),
                    JsonView::Array(q.tools.map_values(|t: ToolDefView| openai::tool_json(t))),
                ),
            )
            &&& says(
                m,
                "reasoning_effort"@,
                given(
                    q.reasoning_effort is Some && compat.reasoning.supports_effort == Some(true),
                    JsonView::String(q.reasoning_effort->0),
                ),
            )
            &&& forall|k: Seq<char>| #[trigger]
                m.contains_key(k) ==> k == "model"@ || k == "messages"@ || k == "stream"@ || k
                    == "stream_options"@ || k == limit || k == "tools"@ || k == "reasoning_effort"@
        }),
        chat_tools(compat, q) == (if compat.tools.emit_tools != Some(false) {
            q.tools.len()
        } else {
            0
        }),
{
    lemma_body_keys();
}

/// A request in the Anthropic format carries the system prompt, the messages and an
/// output limit; the version, the model, the stream, the tools and the thinking where
/// they are wanted. It says nothing else.
pub proof fn wire_requests_say_what_is_asked(
    compat: ProviderCompat,
    params: WireParams,
    q: RequestView,
    ids: Seq<Seq<char>>,
)
    ensures
        wire_body(compat, params, q, ids) is Object,
        ({
            let m = wire_body(compat, params, q, ids)->Object_0;
            let strict = params.sanitize_schema || compat.schema.sanitize_schema == Some(true);
            let thinks = q.thinking is Some && q.thinking->0 is Enabled;
            &&& says(m, "system"@, Some(JsonView::String(q.system)))
            &&& says(
                m,
                "messages"@,
                Some(
                    JsonView::Array(
                        wire_messages(q.messages, compat, ids).map_values(
                            |w: WireMessageView| message_json(w),
                        ),
                    ),
                ),
            )
            &&& says(
                m,
                "max_tokens"@,
                Some(
                    JsonView::Number(
                        NumberView::Unsigned(
                            if q.max_tokens is Some {
                                q.max_tokens->0 as u64
                            } else {
                                4096
                            },
                        ),
                    ),
                ),
            )
            &&& says(
                m,
                "anthropic_version"@,
                given(
                    params.anthropic_version is Some,
                    JsonView::String(params.anthropic_version->0@),
                ),
            )
            &&& says(m, "model"@, given(params.include_model_in_body, JsonView::String(q.model)))
            &&& says(m, "stream"@, given(params.include_stream, JsonView::Bool(true)))
            &&& m.contains_key("tools"@) <==> q.tools.len() > 0
            &&& q.tools.len() > 0 ==> m["tools"@] is Array && m["tools"@]->Array_0.len()
                == q.tools.len()
            &&& forall|i: int|
                0 <= i < q.tools.len() ==> #[trigger] m["tools"@]->Array_0[i]
                    == anthropic_shared::tool_json(
                    if strict {
                        ToolDefView {
                            input_schema: sanitized(q.tools[i].input_schema),
                            ..q.tools[i]
                        }
                    } else {
                        q.tools[i]
                    },
                )
            &&& m.contains_key("thinking"@) <==> thinks
            &&& thinks ==> {
                let t = m["thinking"@]->Object_0;
                &&& m["thinking"@] is Object
                &&& says(t, "type"@, Some(JsonView::String("enabled"@)))
                &&& says(
                    t,
                    "budget_tokens"@,
                    Some(
                        JsonView::Number(
                            NumberView::Unsigned(q.thinking->0->Enabled_budget_tokens as u64),
                        ),
                    ),
                )
                &&& forall|k: Seq<char>| #[trigger]
                    t.contains_key(k) ==> k == "type"@ || k == "budget_tokens"@
            }
            &&& forall|k: Seq<char>| #[trigger]
                m.contains_key(k) ==> k == "system"@ || k == "messages"@ || k == "max_tokens"@ || k
                    == "anthropic_version"@ || k == "model"@ || k == "stream"@ || k == "tools"@ || k
                    == "thinking"@
        }),
{
    lemma_body_keys();
}

/// What a tool is offered as: a deferred one with its summary and an empty schema, any
/// other with its description and its own.
pub open spec fn offer(t: ToolDefView, m: Map<Seq<char>, JsonView>, schema: Seq<char>) -> bool {
    &&& says(m, "name"@, Some(JsonView::String(t.name)))
    &&& says(
        m,
        "description"@,
        Some(
            JsonView::String(
                if t.deferred {
                    "(Deferred) "@ + t.summary
                        + " — Use ToolSearch to load full schema before calling."@
                } else {
                    t.description
                },
            ),
        ),
    )
    &&& !t.deferred ==> says(m, schema, Some(t.input_schema))
    &&& t.deferred ==> {
        let s = m[schema]->Object_0;
        &&& m.contains_key(schema) && m[schema] is Object
        &&& says(s, "type"@, Some(JsonView::String("object"@)))
        &&& says(s, "properties"@, Some(JsonView::Object(Map::empty())))
        &&& forall|k: Seq<char>| #[trigger]
            s.contains_key(k) ==> k == "type"@ || k == "properties"@
    }
    &&& forall|k: Seq<char>| #[trigger]
        m.contains_key(k) ==> k == "name"@ || k == "description"@ || k == schema
}

/// A tool is offered under its own name in both formats.
pub proof fn tools_are_offered_as_they_are(t: ToolDefView)
    ensures
        anthropic_shared::tool_json(t) is Object,
        offer(t, anthropic_shared::tool_json(t)->Object_0, "input_schema"@),
        openai::tool_json(t) is Object,
        ({
            let m = openai::tool_json(t)->Object_0;
            &&& says(m, "type"@, Some(JsonView::String("function"@)))
            &&& m.contains_key("function"@) && m["function"@] is Object
            &&& offer(t, m["function"@]->Object_0, "parameters"@)
            &&& forall|k: Seq<char>| #[trigger]
                m.contains_key(k) ==> k == "type"@ || k == "function"@
        }),
{
    lemma_body_keys();
}

/// A refused body is refused for its tools before it is refused for its size, and the
/// text says by how much.
pub proof fn refusals_say_why(
    provider: Seq<char>,
    compat: ProviderCompat,
    tools: nat,
    body: JsonView,
)
    ensures
        compat.tools.max_tool_count matches Some(m) ==> (tools > m ==> within_limits(
            provider,
            compat,
            tools,
            body,
        ) == Err::<JsonView, Seq<char>>(
            provider + " tools count "@ + decimal(tools) + " exceeds configured limit "@ + decimal(
                m as nat,
            ),
        )),
        (compat.tools.max_tool_count matches Some(m) ==> tools <= m) ==> (
        compat.transport.max_request_body_bytes matches Some(n) ==> (encode_utf8(
            json_text(body),
        ).len() > n ==> within_limits(provider, compat, tools, body) == Err::<
            JsonView,
            Seq<char>,
        >(
            provider + " request body bytes "@ + decimal(encode_utf8(json_text(body)).len())
                + " exceeds configured limit "@ + decimal(n as nat),
        ))),
{
}

} // verus!
