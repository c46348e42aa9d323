//! What the wire formats have in common.

use vstd::prelude::*;

use crate::compat::ProviderCompat;
use crate::json::{JsonObject, JsonValue, JsonView};
use crate::text::{concat2, copy_text, remove_patterns, views, without_all};

verus! {

/// A text without the configured patterns.
pub open spec fn stripped_text(text: Seq<char>, compat: ProviderCompat) -> Seq<char> {
    match compat.messages.strip_patterns {
        Some(patterns) => without_all(text, views(patterns@)),
        None => text,
    }
}

/// What an outgoing request says of a deferred tool.
pub open spec fn deferred_description(summary: Seq<char>) -> Seq<char> {
    "(Deferred) "@ + summary + " — Use ToolSearch to load full schema before calling."@
}

/// The schema of an object without properties.
pub open spec fn empty_schema() -> JsonView {
    JsonView::Object(
        Map::<Seq<char>, JsonView>::empty().insert("type"@, JsonView::String("object"@)).insert(
            "properties"@,
            JsonView::Object(Map::empty()),
        ),
    )
}

/// Strip configured patterns from text content
pub fn strip_patterns_from_text(text: &str, compat: &ProviderCompat) -> (r: String)
    ensures
        r@ == stripped_text(text@, *compat),
{
    match &compat.messages.strip_patterns {
        Some(patterns) => remove_patterns(text, patterns),
        None => copy_text(text),
    }
}

/// What an outgoing request says of a deferred tool.
pub fn describe_deferred(summary: &str) -> (r: String)
    ensures
        r@ == deferred_description(summary@),
{
    let mut r = concat2("(Deferred) ", summary);
    r.append(" — Use ToolSearch to load full schema before calling.");
    r
}

/// The schema of an object without properties.
pub fn schema_without_properties() -> (r: JsonValue)
    ensures
        r@ == empty_schema(),
{
    JsonValue::Object(
        JsonObject::new().with("type", JsonValue::string("object")).with(
            "properties",
            JsonValue::empty_object(),
        ),
    )
}

} // verus!
