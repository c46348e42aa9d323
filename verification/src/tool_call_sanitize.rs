//! Malformed tool calls in outgoing requests.

use vstd::prelude::*;

use crate::json::{json_text, JsonValue, JsonView};
use crate::text::{chars_of, concat3, copy_text, text_of};

verus! {

broadcast use vstd::string::group_string_axioms;

/// Why a tool call does not go out as one.
#[derive(Debug, Clone, Copy, PartialEq, Eq, Structural)]
pub enum DroppedToolCallReason {
    EmptyName,
    EmptyId,
}

impl DroppedToolCallReason {
    pub open spec fn description_text(self) -> Seq<char> {
        match self {
            DroppedToolCallReason::EmptyName => "empty function name"@,
            DroppedToolCallReason::EmptyId => "empty tool call id"@,
        }
    }

    pub open spec fn reissue_field_text(self) -> Seq<char> {
        match self {
            DroppedToolCallReason::EmptyName => "name"@,
            DroppedToolCallReason::EmptyId => "id"@,
        }
    }

    pub open spec fn placeholder_text(self) -> Seq<char> {
        match self {
            DroppedToolCallReason::EmptyName =>
                "[tool call skipped: malformed (empty function name).]"@,
            DroppedToolCallReason::EmptyId => "[tool call skipped: malformed (empty tool call id).]"@,
        }
    }

    pub fn description(self) -> (r: &'static str)
        ensures
            r@ == self.description_text(),
    {
        match self {
            DroppedToolCallReason::EmptyName => "empty function name",
            DroppedToolCallReason::EmptyId => "empty tool call id",
        }
    }

    pub fn reissue_field(self) -> (r: &'static str)
        ensures
            r@ == self.reissue_field_text(),
    {
        match self {
            DroppedToolCallReason::EmptyName => "name",
            DroppedToolCallReason::EmptyId => "id",
        }
    }

    pub fn log_reason(self) -> (r: &'static str)
        ensures
            r@ == (match self {
                DroppedToolCallReason::EmptyName => "empty_name"@,
                DroppedToolCallReason::EmptyId => "empty_id"@,
            }),
    {
        match self {
            DroppedToolCallReason::EmptyName => "empty_name",
            DroppedToolCallReason::EmptyId => "empty_id",
        }
    }

    pub fn short_placeholder(self) -> (r: &'static str)
        ensures
            r@ == self.placeholder_text(),
    {
        match self {
            DroppedToolCallReason::EmptyName => {
                "[tool call skipped: malformed (empty function name).]"
            },
            DroppedToolCallReason::EmptyId => {
                "[tool call skipped: malformed (empty tool call id).]"
            },
        }
    }
}

/// The first `max` characters of a text, with `…` behind them if any were cut.
pub open spec fn truncated(s: Seq<char>, max: nat) -> Seq<char> {
    if s.len() <= max {
        s
    } else {
        s.take(max as int) + seq!['…']
    }
}

/// The line that stands in an outgoing message for a malformed tool call with
/// some arguments.
pub open spec fn dropped_text(reason: DroppedToolCallReason, arguments: Seq<char>) -> Seq<char> {
    "[tool call skipped: malformed ("@ + reason.description_text() + "). arguments="@ + truncated(
        arguments,
        100,
    ) + ". This call was not executed; re-issue with a valid "@ + reason.reissue_field_text()
        + " if still needed.]"@
}

/// The line that stands in an outgoing message for a malformed tool call.
pub open spec fn dropped_line(reason: DroppedToolCallReason, input: JsonView) -> Seq<char> {
    dropped_text(reason, json_text(input))
}

/// Truncate to at most `max` chars, appending `…` if cut.
pub fn truncate_chars(s: &str, max: usize) -> (r: String)
    ensures
        r@ == truncated(s@, max as nat),
{
    let v = chars_of(s);
    if v.len() <= max {
        return copy_text(s);
    }
    let mut r = text_of(&v, 0, max);
    r.push('…');
    assert(r@ =~= truncated(s@, max as nat));
    r
}

/// Format a malformed tool_call as a human/model-readable line to embed in the
/// assistant content during projection. Shared by OpenAI and Anthropic
/// projection paths so the wording stays identical across providers.
/// `arguments` is the tool input, truncated to 100 chars on a char boundary.
pub fn format_dropped_tool_call(reason: DroppedToolCallReason, input: &JsonValue) -> (r: String)
    ensures
        r@ == dropped_line(reason, input@),
{
    let raw = input.to_text();
    format_dropped_arguments(reason, raw.as_str())
}

/// The line for a malformed tool_call whose input reads as `arguments`.
pub fn format_dropped_arguments(reason: DroppedToolCallReason, arguments: &str) -> (r: String)
    ensures
        r@ == dropped_text(reason, arguments@),
{
    let args = truncate_chars(arguments, 100);
    let mut r = concat3(
        "[tool call skipped: malformed (",
        reason.description(),
        "). arguments=",
    );
    r.append(args.as_str());
    r.append(". This call was not executed; re-issue with a valid ");
    r.append(reason.reissue_field());
    r.append(" if still needed.]");
    r
}

/// A truncated text is the text itself, or as much of its start as is allowed
/// and one more character.
pub proof fn truncation_keeps_a_bounded_prefix(s: Seq<char>, max: nat)
    ensures
        truncated(s, max).len() <= max + 1,
        s.len() <= max ==> truncated(s, max) == s,
        s.len() > max ==> truncated(s, max).take(max as int) == s.take(max as int),
{
    if s.len() > max {
        assert(truncated(s, max).take(max as int) =~= s.take(max as int));
    }
}

} // verus!
