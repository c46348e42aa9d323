//! Laws of compatibility settings: what the user sets counts, and what is left open
//! comes from the defaults.

use vstd::prelude::*;

use crate::compat::{
    MessageCompat, ProviderCompat, ReasoningCompat, SchemaCompat, ToolCompat, TransportCompat,
};

verus! {

/// The result is the user's where there is one, and otherwise the default.
pub open spec fn user_wins<T>(result: Option<T>, default: Option<T>, user: Option<T>) -> bool {
    &&& user is Some ==> result == user
    &&& user is None ==> result == default
}

/// In each setting the user has the last word.
pub proof fn the_user_has_the_last_word(defaults: ProviderCompat, user: ProviderCompat)
    ensures
        ({
            let r = ProviderCompat::merged(defaults, user).transport;
            let d = defaults.transport;
            let u = user.transport;
            &&& user_wins(r.max_tokens_field, d.max_tokens_field, u.max_tokens_field)
            &&& user_wins(r.api_path, d.api_path, u.api_path)
            &&& user_wins(
                r.max_request_body_bytes,
                d.max_request_body_bytes,
                u.max_request_body_bytes,
            )
            &&& user_wins(
                r.include_stream_options,
                d.include_stream_options,
                u.include_stream_options,
            )
        }),
        ({
            let r = ProviderCompat::merged(defaults, user).messages;
            let d = defaults.messages;
            let u = user.messages;
            &&& user_wins(
                r.merge_assistant_messages,
                d.merge_assistant_messages,
                u.merge_assistant_messages,
            )
            &&& user_wins(
                r.clean_orphan_tool_results,
                d.clean_orphan_tool_results,
                u.clean_orphan_tool_results,
            )
            &&& user_wins(r.dedup_tool_results, d.dedup_tool_results, u.dedup_tool_results)
            &&& user_wins(r.ensure_alternation, d.ensure_alternation, u.ensure_alternation)
            &&& user_wins(r.merge_same_role, d.merge_same_role, u.merge_same_role)
            &&& user_wins(r.strip_patterns, d.strip_patterns, u.strip_patterns)
        }),
        ({
            let r = ProviderCompat::merged(defaults, user).tools;
            let d = defaults.tools;
            let u = user.tools;
            &&& user_wins(
                r.clean_orphan_tool_calls,
                d.clean_orphan_tool_calls,
                u.clean_orphan_tool_calls,
            )
            &&& user_wins(
                r.sanitize_malformed_tool_calls,
                d.sanitize_malformed_tool_calls,
                u.sanitize_malformed_tool_calls,
            )
            &&& user_wins(r.auto_tool_id, d.auto_tool_id, u.auto_tool_id)
            &&& user_wins(r.max_tool_count, d.max_tool_count, u.max_tool_count)
            &&& user_wins(r.emit_tools, d.emit_tools, u.emit_tools)
        }),
        ({
            let r = ProviderCompat::merged(defaults, user);
            &&& user_wins(
                r.schema.sanitize_schema,
                defaults.schema.sanitize_schema,
                user.schema.sanitize_schema,
            )
            &&& user_wins(
                r.reasoning.supports_thinking,
                defaults.reasoning.supports_thinking,
                user.reasoning.supports_thinking,
            )
            &&& user_wins(
                r.reasoning.supports_effort,
                defaults.reasoning.supports_effort,
                user.reasoning.supports_effort,
            )
            &&& user_wins(
                r.reasoning.effort_levels,
                defaults.reasoning.effort_levels,
                user.reasoning.effort_levels,
            )
        }),
{
}

/// Where nothing is set, no setting is.
pub proof fn nothing_set_is_nothing()
    ensures
        ({
            let t: TransportCompat = ProviderCompat::unset().transport;
            &&& t.max_tokens_field is None
            &&& t.api_path is None
            &&& t.max_request_body_bytes is None
            &&& t.include_stream_options is None
        }),
        ({
            let m: MessageCompat = ProviderCompat::unset().messages;
            &&& m.merge_assistant_messages is None
            &&& m.clean_orphan_tool_results is None
            &&& m.dedup_tool_results is None
            &&& m.ensure_alternation is None
            &&& m.merge_same_role is None
            &&& m.strip_patterns is None
        }),
        ({
            let t: ToolCompat = ProviderCompat::unset().tools;
            &&& t.clean_orphan_tool_calls is None
            &&& t.sanitize_malformed_tool_calls is None
            &&& t.auto_tool_id is None
            &&& t.max_tool_count is None
            &&& t.emit_tools is None
        }),
        ({
            let s: SchemaCompat = ProviderCompat::unset().schema;
            let r: ReasoningCompat = ProviderCompat::unset().reasoning;
            &&& s.sanitize_schema is None
            &&& r.supports_thinking is None
            &&& r.supports_effort is None
            &&& r.effort_levels is None
        }),
{
}

/// What the Anthropic family asks for: roles that alternate, one message to a role in
/// a row, no orphan results, ids and names for all calls, thinking and no effort; and
/// nothing else.
pub proof fn the_anthropic_family_alternates()
    ensures
        ({
            let p = ProviderCompat::anthropic_preset();
            &&& p.messages.ensure_alternation == Some(true)
            &&& p.messages.merge_same_role == Some(true)
            &&& p.messages.clean_orphan_tool_results == Some(true)
            &&& p.messages.merge_assistant_messages is None
            &&& p.messages.dedup_tool_results is None
            &&& p.messages.strip_patterns is None
            &&& p.tools.auto_tool_id == Some(true)
            &&& p.tools.sanitize_malformed_tool_calls == Some(true)
            &&& p.tools.clean_orphan_tool_calls is None
            &&& p.tools.max_tool_count is None
            &&& p.tools.emit_tools is None
            &&& p.reasoning.supports_thinking == Some(true)
            &&& p.reasoning.supports_effort == Some(false)
            &&& p.reasoning.effort_levels is None
            &&& p.schema.sanitize_schema is None
            &&& p.transport.max_tokens_field is None
            &&& p.transport.api_path is None
            &&& p.transport.max_request_body_bytes is None
            &&& p.transport.include_stream_options is None
        }),
{
}

} // verus!
