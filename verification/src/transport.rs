//! Where requests go, and what refusals mean.

use vstd::prelude::*;

use crate::compat::{setting, ProviderCompat};
use crate::headers::{
    anthropic_headers, bearer_headers, build_anthropic_headers, build_bearer_headers, headers_of,
    is_header_text,
};
use crate::json::JsonValue;
use crate::llm::{ProviderError, ProviderErrorView};
use crate::openai::OpenAIProvider;
use crate::text::{chars_of, concat2, concat3, copy_text, is_empty, opt_view, text_of};

verus! {

broadcast use vstd::string::group_string_axioms;

// ---------------------------------------------------------------------------
// Addresses
// ---------------------------------------------------------------------------

/// A text without the slashes at its end.
pub open spec fn without_end_slashes(s: Seq<char>) -> Seq<char>
    decreases s.len(),
{
    if s.len() > 0 && s.last() == '/' {
        without_end_slashes(s.drop_last())
    } else {
        s
    }
}

/// A text without the slashes at its start.
pub open spec fn without_start_slashes(s: Seq<char>) -> Seq<char>
    decreases s.len(),
{
    if s.len() > 0 && s[0] == '/' {
        without_start_slashes(s.skip(1))
    } else {
        s
    }
}

/// An address and a path with one slash between them.
pub open spec fn joined_url(base_url: Seq<char>, api_path: Seq<char>) -> Seq<char> {
    let base = without_end_slashes(base_url);
    let path = without_start_slashes(api_path);
    if path.len() == 0 {
        base
    } else {
        base + "/"@ + path
    }
}

/// An ASCII letter in lower case, and any other character as it is.
pub open spec fn ascii_lower(c: char) -> char {
    if 'A' <= c <= 'Z' {
        (c as u32 + 32) as char
    } else {
        c
    }
}

/// The same text but for the case of ASCII letters.
pub open spec fn same_ignoring_case(a: Seq<char>, b: Seq<char>) -> bool {
    a.len() == b.len() && forall|i: int|
        0 <= i < a.len() ==> ascii_lower(#[trigger] a[i]) == ascii_lower(b[i])
}

/// OpenAI's own address gets the version that it lacks.
pub open spec fn normalized_base_url(base_url: Seq<char>) -> Seq<char> {
    let short = without_end_slashes(base_url);
    if same_ignoring_case(short, "https://api.openai.com"@) || same_ignoring_case(
        short,
        "http://api.openai.com"@,
    ) {
        short + "/v1"@
    } else {
        base_url
    }
}

fn trim_end_slashes(s: &str) -> (r: String)
    ensures
        r@ == without_end_slashes(s@),
{
    let v = chars_of(s);
    let mut end: usize = v.len();
    assert(s@.take(end as int) =~= s@);
    while end > 0 && v[end - 1] == '/'
        invariant
            v@ == s@,
            end <= v@.len(),
            without_end_slashes(s@.take(end as int)) == without_end_slashes(s@),
        decreases end,
    {
        assert(s@.take(end as int).drop_last() =~= s@.take(end - 1));
        end -= 1;
    }
    let r = text_of(&v, 0, end);
    assert(r@ =~= s@.take(end as int));
    r
}

fn trim_start_slashes(s: &str) -> (r: String)
    ensures
        r@ == without_start_slashes(s@),
{
    let v = chars_of(s);
    let mut i: usize = 0;
    assert(s@.skip(0) =~= s@);
    while i < v.len() && v[i] == '/'
        invariant
            v@ == s@,
            i <= v@.len(),
            without_start_slashes(s@.skip(i as int)) == without_start_slashes(s@),
        decreases v.len() - i,
    {
        assert(s@.skip(i as int).skip(1) =~= s@.skip(i + 1));
        i += 1;
    }
    let r = text_of(&v, i, v.len());
    assert(r@ =~= s@.skip(i as int));
    r
}

fn lower(c: char) -> (r: char)
    ensures
        r == ascii_lower(c),
{
    if 'A' <= c && c <= 'Z' {
        ((c as u8) + 32) as char
    } else {
        c
    }
}

fn eq_ignoring_case(a: &str, b: &str) -> (r: bool)
    ensures
        r == same_ignoring_case(a@, b@),
{
    let x = chars_of(a);
    let y = chars_of(b);
    if x.len() != y.len() {
        return false;
    }
    for i in 0..x.len()
        invariant
            x@ == a@,
            y@ == b@,
            x@.len() == y@.len(),
            forall|j: int| 0 <= j < i ==> ascii_lower(#[trigger] a@[j]) == ascii_lower(b@[j]),
    {
        if lower(x[i]) != lower(y[i]) {
            assert(ascii_lower(a@[i as int]) != ascii_lower(b@[i as int]));
            return false;
        }
    }
    true
}

pub fn join_base_url_and_api_path(base_url: &str, api_path: &str) -> (r: String)
    ensures
        r@ == joined_url(base_url@, api_path@),
{
    let base = trim_end_slashes(base_url);
    let path = trim_start_slashes(api_path);
    if is_empty(path.as_str()) {
        base
    } else {
        concat3(base.as_str(), "/", path.as_str())
    }
}

pub fn normalize_openai_base_url(base_url: &str) -> (r: String)
    ensures
        r@ == normalized_base_url(base_url@),
{
    let short = trim_end_slashes(base_url);
    if eq_ignoring_case(short.as_str(), "https://api.openai.com") || eq_ignoring_case(
        short.as_str(),
        "http://api.openai.com",
    ) {
        return concat2(short.as_str(), "/v1");
    }
    copy_text(base_url)
}

proof fn lemma_end_slashes(s: Seq<char>)
    ensures
        without_end_slashes(s).len() <= s.len(),
        without_end_slashes(s).len() > 0 ==> without_end_slashes(s).last() != '/',
        without_end_slashes(without_end_slashes(s)) == without_end_slashes(s),
    decreases s.len(),
{
    if s.len() > 0 && s.last() == '/' {
        lemma_end_slashes(s.drop_last());
    }
}

proof fn lemma_start_slashes(s: Seq<char>)
    ensures
        without_start_slashes(s).len() > 0 ==> without_start_slashes(s)[0] != '/',
        without_start_slashes(without_start_slashes(s)) == without_start_slashes(s),
    decreases s.len(),
{
    if s.len() > 0 && s[0] == '/' {
        lemma_start_slashes(s.skip(1));
    }
}

/// However many slashes end the address or start the path, one stands between
/// them, and neither side of it is another.
pub proof fn one_slash_joins_address_and_path(base_url: Seq<char>, api_path: Seq<char>)
    requires
        without_start_slashes(api_path).len() > 0,
    ensures
        ({
            let base = without_end_slashes(base_url);
            let url = joined_url(base_url, api_path);
            &&& url[base.len() as int] == '/'
            &&& base.len() > 0 ==> url[base.len() - 1] != '/'
            &&& url[(base.len() + 1) as int] != '/'
            &&& joined_url(base_url + "/"@, "/"@ + api_path) == url
        }),
{
    lemma_end_slashes(base_url);
    lemma_start_slashes(api_path);
    reveal_strlit("/");
    assert((base_url + "/"@).drop_last() =~= base_url);
    assert(("/"@ + api_path).skip(1) =~= api_path);
}

/// Normalizing an address twice changes nothing more.
pub proof fn normalizing_twice_is_normalizing_once(base_url: Seq<char>)
    ensures
        normalized_base_url(normalized_base_url(base_url)) == normalized_base_url(base_url),
{
    let once = normalized_base_url(base_url);
    let short = without_end_slashes(base_url);
    reveal_strlit("https://api.openai.com");
    reveal_strlit("http://api.openai.com");
    reveal_strlit("/v1");
    if same_ignoring_case(short, "https://api.openai.com"@) || same_ignoring_case(
        short,
        "http://api.openai.com"@,
    ) {
        assert(once.last() == '1');
        assert(without_end_slashes(once) == once);
        if same_ignoring_case(once, "https://api.openai.com"@) {
            assert(once.len() == 22);
            assert(short.len() == 22 || short.len() == 21);
        }
        if same_ignoring_case(once, "http://api.openai.com"@) {
            assert(once.len() == 21);
        }
    }
}

// ---------------------------------------------------------------------------
// Requests
// ---------------------------------------------------------------------------

/// A request, ready to be sent. `S` is how its tools are written.
pub struct ProjectedHttpRequest<S> {
    pub url: String,
    pub headers: reqwest::header::HeaderMap<reqwest::header::HeaderValue>,
    pub body: JsonValue,
    pub body_bytes: Option<Vec<u8>>,
    pub tool_wire_shape: S,
}

#[derive(Debug)]
pub struct OpenAiTransport {
    pub api_key: String,
    pub base_url: String,
}

#[derive(Debug)]
pub struct AnthropicTransport {
    pub api_key: String,
    pub base_url: String,
    pub cache_enabled: bool,
}

impl OpenAiTransport {
    pub fn new(api_key: &str, base_url: &str) -> (r: Self)
        ensures
            r.api_key@ == api_key@,
            r.base_url@ == normalized_base_url(base_url@),
    {
        Self { api_key: copy_text(api_key), base_url: normalize_openai_base_url(base_url) }
    }

    pub fn build_projected_request<S>(
        &self,
        body: JsonValue,
        compat: &ProviderCompat,
        tool_wire_shape: S,
    ) -> (r: Result<ProjectedHttpRequest<S>, ProviderError>)
        ensures
            match r {
                Ok(q) => {
                    &&& is_header_text("Bearer "@ + self.api_key@)
                    &&& q.url@ == joined_url(
                        self.base_url@,
                        setting(opt_view(compat.transport.api_path), "/v1/chat/completions"@),
                    )
                    &&& headers_of(q.headers) == bearer_headers(self.api_key@)
                    &&& q.body == body
                    &&& q.body_bytes is None
                    &&& q.tool_wire_shape == tool_wire_shape
                },
                Err(e) => {
                    &&& !is_header_text("Bearer "@ + self.api_key@)
                    &&& e@ == ProviderErrorView::Connection(
                        "Invalid authorization header: "@ + "failed to parse header value"@,
                    )
                },
            },
    {
        match build_bearer_headers(self.api_key.as_str()) {
            Ok(headers) => Ok(
                ProjectedHttpRequest {
                    url: join_base_url_and_api_path(self.base_url.as_str(), compat.api_path()),
                    headers,
                    body,
                    body_bytes: None,
                    tool_wire_shape,
                },
            ),
            Err(e) => Err(
                ProviderError::Connection(concat2("Invalid authorization header: ", e.as_str())),
            ),
        }
    }
}

impl AnthropicTransport {
    pub fn new(api_key: &str, base_url: &str, cache_enabled: bool) -> (r: Self)
        ensures
            r.api_key@ == api_key@,
            r.base_url@ == base_url@,
            r.cache_enabled == cache_enabled,
    {
        Self { api_key: copy_text(api_key), base_url: copy_text(base_url), cache_enabled }
    }

    pub fn build_projected_request<S>(&self, body: JsonValue, tool_wire_shape: S) -> (r: Result<
        ProjectedHttpRequest<S>,
        ProviderError,
    >)
        ensures
            match r {
                Ok(q) => {
                    &&& is_header_text(self.api_key@)
                    &&& q.url@ == self.base_url@ + "/v1/messages"@
                    &&& headers_of(q.headers) == anthropic_headers(
                        self.api_key@,
                        self.cache_enabled,
                    )
                    &&& q.body == body
                    &&& q.body_bytes is None
                    &&& q.tool_wire_shape == tool_wire_shape
                },
                Err(e) => {
                    &&& !is_header_text(self.api_key@)
                    &&& e@ == ProviderErrorView::Connection(
                        "Invalid x-api-key header: "@ + "failed to parse header value"@,
                    )
                },
            },
    {
        match build_anthropic_headers(self.api_key.as_str(), self.cache_enabled) {
            Ok(headers) => Ok(
                ProjectedHttpRequest {
                    url: concat2(self.base_url.as_str(), "/v1/messages"),
                    headers,
                    body,
                    body_bytes: None,
                    tool_wire_shape,
                },
            ),
            Err(e) => Err(
                ProviderError::Connection(concat2("Invalid x-api-key header: ", e.as_str())),
            ),
        }
    }

    /// How a request body is written for Anthropic itself.
    pub fn wire_params(&self) -> (r: WireParams)
        ensures
            r.provider == WireProvider::Anthropic,
            r.anthropic_version is None,
            r.include_model_in_body,
            r.include_stream,
            r.cache_enabled == self.cache_enabled,
            !r.sanitize_schema,
    {
        WireParams {
            provider: WireProvider::Anthropic,
            anthropic_version: None,
            include_model_in_body: true,
            include_stream: true,
            cache_enabled: self.cache_enabled,
            sanitize_schema: false,
        }
    }
}

/// Who takes a request body in the Anthropic format.
#[derive(Debug, Clone, Copy, PartialEq, Eq, Structural)]
pub enum WireProvider {
    Anthropic,
    Vertex,
    Bedrock,
}

/// How a request body in the Anthropic format is written.
#[derive(Debug)]
pub struct WireParams {
    /// Who takes the body, which is the same for all.
    pub provider: WireProvider,
    /// The version that the body names, where it names one.
    pub anthropic_version: Option<String>,
    pub include_model_in_body: bool,
    pub include_stream: bool,
    /// Whether prompts are cached, which a header asks for and not the body.
    pub cache_enabled: bool,
    pub sanitize_schema: bool,
}

impl OpenAIProvider {
    /// The address of a request.
    pub fn url(&self) -> (r: String)
        ensures
            r@ == self.base_url@ + setting(
                opt_view(self.compat.transport.api_path),
                "/v1/chat/completions"@,
            ),
    {
        concat2(self.base_url.as_str(), self.compat.api_path())
    }

    /// The headers of a request.
    pub fn build_headers(&self) -> (r: Result<
        reqwest::header::HeaderMap<reqwest::header::HeaderValue>,
        ProviderError,
    >)
        ensures
            match r {
                Ok(m) => {
                    &&& is_header_text("Bearer "@ + self.api_key@)
                    &&& headers_of(m) == bearer_headers(self.api_key@)
                },
                Err(e) => {
                    &&& !is_header_text("Bearer "@ + self.api_key@)
                    &&& e@ == ProviderErrorView::Connection(
                        "Invalid authorization header: "@ + "failed to parse header value"@,
                    )
                },
            },
    {
        match build_bearer_headers(self.api_key.as_str()) {
            Ok(headers) => Ok(headers),
            Err(e) => Err(
                ProviderError::Connection(concat2("Invalid authorization header: ", e.as_str())),
            ),
        }
    }
}

// ---------------------------------------------------------------------------
// Kinds of providers
// ---------------------------------------------------------------------------

#[derive(Clone, Copy, Debug, PartialEq, Eq, Structural)]
pub enum WireProtocol {
    OpenAiChat,
    AnthropicMessages,
}

#[derive(Clone, Copy, Debug, PartialEq, Eq, Structural)]
pub enum TransportKind {
    OpenAi,
    Anthropic,
    Vertex,
    Bedrock,
}

/// How often a broken stream is tried again, and the switches of the stream
/// runner in its order.
#[derive(Clone, Copy, Debug, PartialEq, Eq)]
pub struct RetryPolicy {
    pub max_retries: u32,
    pub switches: (bool, bool, bool),
}

/// How the bytes of a reply are read.
#[derive(Clone, Copy, Debug, PartialEq, Eq, Structural)]
pub enum StreamDecoder {
    OpenAiSseLine { auto_tool_id: bool },
    AnthropicSseBlock,
    BedrockAwsEventStream,
}

impl TransportKind {
    pub fn wire_protocol(self) -> (r: WireProtocol)
        ensures
            r == (if self == TransportKind::OpenAi {
                WireProtocol::OpenAiChat
            } else {
                WireProtocol::AnthropicMessages
            }),
    {
        match self {
            TransportKind::OpenAi => WireProtocol::OpenAiChat,
            _ => WireProtocol::AnthropicMessages,
        }
    }

    pub fn retry_policy(self, max_stream_retries: u32) -> (r: RetryPolicy)
        ensures
            r == (match self {
                TransportKind::OpenAi => RetryPolicy {
                    max_retries: max_stream_retries,
                    switches: (true, true, true),
                },
                TransportKind::Anthropic | TransportKind::Vertex => RetryPolicy {
                    max_retries: max_stream_retries,
                    switches: (false, true, true),
                },
                TransportKind::Bedrock => RetryPolicy {
                    max_retries: 0,
                    switches: (false, false, true),
                },
            }),
    {
        match self {
            TransportKind::OpenAi => RetryPolicy {
                max_retries: max_stream_retries,
                switches: (true, true, true),
            },
            TransportKind::Anthropic | TransportKind::Vertex => RetryPolicy {
                max_retries: max_stream_retries,
                switches: (false, true, true),
            },
            TransportKind::Bedrock => RetryPolicy { max_retries: 0, switches: (false, false, true) },
        }
    }

    pub fn decoder(self, compat: &ProviderCompat) -> (r: StreamDecoder)
        ensures
            r == (match self {
                TransportKind::OpenAi => StreamDecoder::OpenAiSseLine {
                    auto_tool_id: setting(compat.tools.auto_tool_id, false),
                },
                TransportKind::Anthropic | TransportKind::Vertex =>
                    StreamDecoder::AnthropicSseBlock,
                TransportKind::Bedrock => StreamDecoder::BedrockAwsEventStream,
            }),
    {
        match self {
            TransportKind::OpenAi => StreamDecoder::OpenAiSseLine {
                auto_tool_id: compat.auto_tool_id(),
            },
            TransportKind::Anthropic | TransportKind::Vertex => StreamDecoder::AnthropicSseBlock,
            TransportKind::Bedrock => StreamDecoder::BedrockAwsEventStream,
        }
    }
}

// ---------------------------------------------------------------------------
// Refusals
// ---------------------------------------------------------------------------

/// How long to wait after too many requests.
pub const RATE_LIMIT_RETRY_MS: u64 = 5000;

/// What an unsuccessful status means. `mismatch` says, where it is so, that the
/// body complains of how the tools are written.
pub open spec fn status_error(status: u16, body: Seq<char>, mismatch: Option<Seq<char>>) -> ProviderErrorView {
    if status == 429 {
        ProviderErrorView::RateLimited {
            retry_after_ms: RATE_LIMIT_RETRY_MS,
            body: if body.len() > 0 {
                Some(body)
            } else {
                None
            },
        }
    } else {
        ProviderErrorView::Api { status, message: setting(mismatch, body) }
    }
}

pub fn map_common_status(status: u16, body_text: String, mismatch: Option<String>) -> (r: ProviderError)
    ensures
        r@ == status_error(status, body_text@, opt_view(mismatch)),
{
    if status == 429 {
        let body = if is_empty(body_text.as_str()) {
            None
        } else {
            Some(body_text)
        };
        return ProviderError::RateLimited { retry_after_ms: RATE_LIMIT_RETRY_MS, body };
    }
    match mismatch {
        Some(message) => ProviderError::Api { status, message },
        None => ProviderError::Api { status, message: body_text },
    }
}

/// What an unsuccessful status of an OpenAI-compatible provider means.
pub fn map_openai_status(status: u16, body_text: String) -> (r: ProviderError)
    ensures
        r@ == (if status == 429 {
            ProviderErrorView::RateLimited { retry_after_ms: RATE_LIMIT_RETRY_MS, body: None }
        } else {
            ProviderErrorView::Api { status, message: body_text@ }
        }),
{
    if status == 429 {
        ProviderError::RateLimited { retry_after_ms: RATE_LIMIT_RETRY_MS, body: None }
    } else {
        ProviderError::Api { status, message: body_text }
    }
}

} // verus!
