//! Estimating how many tokens a conversation takes.

use vstd::prelude::*;
use vstd::utf8::encode_utf8;

use crate::json::json_text;
use crate::message::{block_views, message_views, BlockView, ContentBlock, Message, MessageView};
use crate::text::{chars_of, find, find_chars, lemma_find_from, matches_at, starts_with};

verus! {

broadcast use vstd::string::group_string_axioms;

pub const CHARS_PER_TOKEN_TEXT: usize = 4;

pub const CHARS_PER_TOKEN_JSON: usize = 3;

/// Image bytes that make one token.
pub const BYTES_PER_TOKEN_IMAGE: usize = 750;

pub const MIN_IMAGE_TOKENS: usize = 85;

pub const MAX_IMAGE_TOKENS: usize = 2048;

// ---------------------------------------------------------------------------
// Model
// ---------------------------------------------------------------------------

/// The base64 text of a data URI.
pub open spec fn base64_payload(url: Seq<char>) -> Option<Seq<char>> {
    if starts_with(url, "data:"@) {
        match find(url, ";base64,"@) {
            Some(k) => Some(url.skip((k + ";base64,"@.len()) as int)),
            None => None,
        }
    } else {
        None
    }
}

/// A text without the `=` signs at its end.
pub open spec fn unpadded(s: Seq<char>) -> Seq<char>
    decreases s.len(),
{
    if s.len() > 0 && s.last() == '=' {
        unpadded(s.drop_last())
    } else {
        s
    }
}

/// The number of bytes that a base64 text stands for.
pub open spec fn decoded_size(payload: Seq<char>) -> nat {
    unpadded(payload).len() * 3 / 4
}

/// The tokens that an image of some bytes counts for.
pub open spec fn image_tokens(bytes: nat) -> nat {
    let tokens = bytes / (BYTES_PER_TOKEN_IMAGE as nat);
    if tokens < MIN_IMAGE_TOKENS {
        MIN_IMAGE_TOKENS as nat
    } else if tokens > MAX_IMAGE_TOKENS {
        MAX_IMAGE_TOKENS as nat
    } else {
        tokens
    }
}

/// The characters of text that an image counts for: by its size where the URL
/// holds it, and else by the length of the URL.
pub open spec fn image_chars(url: Seq<char>) -> nat {
    match base64_payload(url) {
        Some(payload) => image_tokens(decoded_size(payload)) * (CHARS_PER_TOKEN_TEXT as nat),
        None => encode_utf8(url).len(),
    }
}

/// The bytes of plain text that a block counts for.
pub open spec fn block_text_chars(b: BlockView) -> nat {
    match b {
        BlockView::Text { text } => encode_utf8(text).len(),
        BlockView::Thinking { thinking, .. } => encode_utf8(thinking).len(),
        BlockView::ToolUse { .. } => 0,
        BlockView::ToolResult { content, .. } => encode_utf8(content).len(),
        BlockView::Image { url } => image_chars(url),
    }
}

/// The bytes of JSON that a block counts for.
pub open spec fn block_json_chars(b: BlockView) -> nat {
    match b {
        BlockView::ToolUse { name, input, .. } => encode_utf8(name).len() + encode_utf8(
            json_text(input),
        ).len(),
        _ => 0,
    }
}

/// What some blocks count for.
pub open spec fn blocks_text_chars(blocks: Seq<BlockView>) -> nat
    decreases blocks.len(),
{
    if blocks.len() == 0 {
        0
    } else {
        blocks_text_chars(blocks.drop_last()) + block_text_chars(blocks.last())
    }
}

pub open spec fn blocks_json_chars(blocks: Seq<BlockView>) -> nat
    decreases blocks.len(),
{
    if blocks.len() == 0 {
        0
    } else {
        blocks_json_chars(blocks.drop_last()) + block_json_chars(blocks.last())
    }
}

/// What some messages count for.
pub open spec fn text_chars(messages: Seq<MessageView>) -> nat
    decreases messages.len(),
{
    if messages.len() == 0 {
        0
    } else {
        text_chars(messages.drop_last()) + blocks_text_chars(messages.last().content)
    }
}

pub open spec fn json_chars(messages: Seq<MessageView>) -> nat
    decreases messages.len(),
{
    if messages.len() == 0 {
        0
    } else {
        json_chars(messages.drop_last()) + blocks_json_chars(messages.last().content)
    }
}

/// The tokens that so much text and so much JSON take.
pub open spec fn tokens_of(text: nat, json: nat) -> nat {
    text / (CHARS_PER_TOKEN_TEXT as nat) + json / (CHARS_PER_TOKEN_JSON as nat)
}

/// The estimate for some messages.
pub open spec fn estimated_tokens(messages: Seq<MessageView>) -> nat {
    tokens_of(text_chars(messages), json_chars(messages))
}

/// The lengths can be counted.
pub open spec fn is_countable(messages: Seq<MessageView>) -> bool {
    text_chars(messages) <= usize::MAX && json_chars(messages) <= usize::MAX
}

// ---------------------------------------------------------------------------
// Executable
// ---------------------------------------------------------------------------

fn payload_size(v: &Vec<char>, from: usize) -> (r: usize)
    requires
        from <= v@.len(),
    ensures
        r == unpadded(v@.skip(from as int)).len(),
{
    let mut end: usize = v.len();
    assert(v@.subrange(from as int, end as int) =~= v@.skip(from as int));
    while end > from && v[end - 1] == '='
        invariant
            from <= end <= v@.len(),
            unpadded(v@.subrange(from as int, end as int)) == unpadded(v@.skip(from as int)),
        decreases end,
    {
        assert(v@.subrange(from as int, end as int).drop_last() =~= v@.subrange(
            from as int,
            end - 1,
        ));
        end -= 1;
    }
    end - from
}

fn count_image(url: &str) -> (r: usize)
    ensures
        r == image_chars(url@),
{
    let v = chars_of(url);
    let prefix = chars_of("data:");
    let marker = chars_of(";base64,");
    if matches_at(&v, &prefix, 0) {
        let hit = find_chars(&v, &marker, 0);
        proof {
            lemma_find_from(url@, ";base64,"@, 0);
        }
        if let Some(k) = hit {
            assert(k + marker@.len() <= v.len());
            let size: usize = payload_size(&v, k + marker.len());
            let bytes: u128 = (size as u128) * 3 / 4;
            let tokens: u128 = bytes / 750;
            let clamped: usize = if tokens < 85 {
                85
            } else if tokens > 2048 {
                2048
            } else {
                tokens as usize
            };
            assert(tokens == decoded_size(base64_payload(url@).unwrap()) / 750);
            return clamped * 4;
        }
    }
    url.as_bytes().len()
}

proof fn lemma_text_chars_prefix(messages: Seq<MessageView>, n: int)
    requires
        0 <= n <= messages.len(),
    ensures
        text_chars(messages.take(n)) <= text_chars(messages),
        json_chars(messages.take(n)) <= json_chars(messages),
    decreases messages.len(),
{
    if n < messages.len() {
        lemma_text_chars_prefix(messages.drop_last(), n);
        assert(messages.drop_last().take(n) =~= messages.take(n));
    } else {
        assert(messages.take(n) =~= messages);
    }
}

/// The sum, while there is one.
fn add_to(total: Option<usize>, more: usize) -> (r: Option<usize>)
    ensures
        match total {
            Some(t) => match r {
                Some(s) => s == t + more,
                None => t + more > usize::MAX,
            },
            None => r is None,
        },
{
    match total {
        Some(t) => t.checked_add(more),
        None => None,
    }
}

/// A sum counts exactly as long as it fits.
spec fn counts(total: Option<usize>, sum: nat) -> bool {
    match total {
        Some(t) => t == sum,
        None => sum > usize::MAX,
    }
}

/// What some messages count for; `None` where it cannot be counted.
fn count_chars(messages: &[Message]) -> (r: (Option<usize>, Option<usize>))
    ensures
        counts(r.0, text_chars(message_views(messages@))),
        counts(r.1, json_chars(message_views(messages@))),
{
    let ghost all = message_views(messages@);
    let mut text: Option<usize> = Some(0);
    let mut json: Option<usize> = Some(0);
    for i in 0..messages.len()
        invariant
            all == message_views(messages@),
            counts(text, text_chars(all.take(i as int))),
            counts(json, json_chars(all.take(i as int))),
    {
        let blocks = &messages[i].content;
        let ghost content = all[i as int].content;
        let ghost base_text = text_chars(all.take(i as int));
        let ghost base_json = json_chars(all.take(i as int));
        for j in 0..blocks.len()
            invariant
                content == block_views(blocks@),
                counts(text, base_text + blocks_text_chars(content.take(j as int))),
                counts(json, base_json + blocks_json_chars(content.take(j as int))),
        {
            assert(content.take(j + 1).drop_last() =~= content.take(j as int));
            assert(content.take(j + 1).last() == blocks@[j as int]@);
            match &blocks[j] {
                ContentBlock::Text { text: t } => {
                    text = add_to(text, t.as_str().as_bytes().len());
                },
                ContentBlock::Thinking { thinking, .. } => {
                    text = add_to(text, thinking.as_str().as_bytes().len());
                },
                ContentBlock::ToolUse { name, input, .. } => {
                    let input_text = input.to_text();
                    json = add_to(json, name.as_str().as_bytes().len());
                    json = add_to(json, input_text.as_str().as_bytes().len());
                },
                ContentBlock::ToolResult { content: c, .. } => {
                    text = add_to(text, c.as_str().as_bytes().len());
                },
                ContentBlock::Image { image_url } => {
                    text = add_to(text, count_image(image_url.url.as_str()));
                },
            }
        }
        assert(content.take(content.len() as int) =~= content);
        assert(all.take(i + 1).drop_last() =~= all.take(i as int));
    }
    assert(all.take(all.len() as int) =~= all);
    (text, json)
}

/// The tokens that so much text and so much JSON take.
pub fn tokens_for(text: usize, json: usize) -> (r: u64)
    ensures
        r == tokens_of(text as nat, json as nat),
{
    let text_tokens: usize = text / CHARS_PER_TOKEN_TEXT;
    let json_tokens: usize = json / CHARS_PER_TOKEN_JSON;
    (text_tokens + json_tokens) as u64
}

/// Estimate the total token count for a slice of messages.
///
/// Intentionally conservative (slightly over-estimates) to ensure
/// compaction triggers rather than being skipped.
pub fn estimate_tokens_from_messages(messages: &[Message]) -> (r: u64)
    requires
        is_countable(message_views(messages@)),
    ensures
        r == estimated_tokens(message_views(messages@)),
{
    let (text, json) = count_chars(messages);
    tokens_for(text.unwrap(), json.unwrap())
}

/// The estimate for some messages; `None` where their lengths cannot be counted.
pub fn checked_estimate_tokens_from_messages(messages: &[Message]) -> (r: Option<u64>)
    ensures
        match r {
            Some(n) => is_countable(message_views(messages@)) && n == estimated_tokens(
                message_views(messages@),
            ),
            None => !is_countable(message_views(messages@)),
        },
{
    let (text, json) = count_chars(messages);
    if text.is_some() && json.is_some() {
        Some(estimate_tokens_from_messages(messages))
    } else {
        None
    }
}

// ---------------------------------------------------------------------------
// Laws
// ---------------------------------------------------------------------------

/// A longer conversation is never estimated lower.
pub proof fn longer_conversations_are_not_estimated_lower(messages: Seq<MessageView>, n: int)
    requires
        0 <= n <= messages.len(),
    ensures
        estimated_tokens(messages.take(n)) <= estimated_tokens(messages),
{
    lemma_text_chars_prefix(messages, n);
    let a = text_chars(messages.take(n));
    let b = text_chars(messages);
    let c = json_chars(messages.take(n));
    let d = json_chars(messages);
    assert(a / 4 <= b / 4);
    assert(c / 3 <= d / 3);
}

/// An image counts for no fewer than the least and no more than the most tokens
/// of an image, whatever its size.
pub proof fn images_count_within_bounds(bytes: nat)
    ensures
        MIN_IMAGE_TOKENS <= image_tokens(bytes) <= MAX_IMAGE_TOKENS,
{
}

} // verus!
