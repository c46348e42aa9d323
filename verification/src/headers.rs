//! HTTP headers, as `reqwest` takes them.

use vstd::prelude::*;

verus! {

broadcast use vstd::string::group_string_axioms;

/// `HeaderMap`: headers by name, in any case of letters.
#[verifier::external_type_specification]
#[verifier::external_body]
#[verifier::reject_recursive_types(T)]
pub struct ExHeaderMap<T>(reqwest::header::HeaderMap<T>);

/// `HeaderValue`: the value of one header.
#[verifier::external_type_specification]
#[verifier::external_body]
pub struct ExHeaderValue(reqwest::header::HeaderValue);

/// `InvalidHeaderValue`: why a text is no header value. It carries nothing.
#[verifier::external_type_specification]
#[verifier::external_body]
pub struct ExInvalidHeaderValue(reqwest::header::InvalidHeaderValue);

/// The text of a header value.
pub uninterp spec fn header_text(v: reqwest::header::HeaderValue) -> Seq<char>;

/// The headers of a map: under each lower-case name its values, in order.
pub uninterp spec fn headers_of(
    m: reqwest::header::HeaderMap<reqwest::header::HeaderValue>,
) -> Map<Seq<char>, Seq<Seq<char>>>;

/// No headers at all.
pub open spec fn no_headers() -> Map<Seq<char>, Seq<Seq<char>>> {
    Map::empty()
}

/// A text that can be a header value: no control characters but tabs.
pub open spec fn is_header_text(s: Seq<char>) -> bool {
    forall|i: int| 0 <= i < s.len() ==> {
        let c = #[trigger] s[i];
        c == '\t' || (c >= ' ' && c != '\u{7f}')
    }
}

/// A text of visible ASCII characters, spaces and tabs.
pub open spec fn is_visible_ascii(s: Seq<char>) -> bool {
    forall|i: int| 0 <= i < s.len() ==> {
        let c = #[trigger] s[i];
        c == '\t' || (' ' <= c <= '~')
    }
}

/// A short header name in lower case.
pub open spec fn is_header_name(s: Seq<char>) -> bool {
    &&& 0 < s.len() <= 64
    &&& forall|i: int| 0 <= i < s.len() ==> {
        let c = #[trigger] s[i];
        'a' <= c <= 'z' || '0' <= c <= '9' || c == '-'
    }
}

/// `HeaderValue::from_str`: the text as a value, unless it holds a control
/// character other than a tab.
#[verifier::external_body]
fn header_value(s: &str) -> (r: Result<
    reqwest::header::HeaderValue,
    reqwest::header::InvalidHeaderValue,
>)
    ensures
        match r {
            Ok(v) => is_header_text(s@) && header_text(v) == s@,
            Err(_) => !is_header_text(s@),
        },
{
    reqwest::header::HeaderValue::from_str(s)
}

/// `HeaderValue::from_static`: the text as a value. It panics on other than
/// visible ASCII.
#[verifier::external_body]
fn static_header_value(s: &'static str) -> (v: reqwest::header::HeaderValue)
    requires
        is_visible_ascii(s@),
    ensures
        header_text(v) == s@,
{
    reqwest::header::HeaderValue::from_static(s)
}

/// The `Display` form of `InvalidHeaderValue`, which is always the same.
#[verifier::external_body]
fn invalid_value_text(e: &reqwest::header::InvalidHeaderValue) -> (text: String)
    ensures
        text@ == "failed to parse header value"@,
{
    format!("{e}")
}

/// `HeaderMap::new`: no headers.
#[verifier::external_body]
fn empty_headers() -> (m: reqwest::header::HeaderMap<reqwest::header::HeaderValue>)
    ensures
        headers_of(m) == no_headers(),
{
    reqwest::header::HeaderMap::new()
}

/// `HeaderMap::insert`: the value becomes the only one under the name. It panics
/// on a name that is not one, and on a map with tens of thousands of names.
#[verifier::external_body]
fn insert_header(
    m: &mut reqwest::header::HeaderMap<reqwest::header::HeaderValue>,
    name: &'static str,
    value: reqwest::header::HeaderValue,
)
    requires
        is_header_name(name@),
        headers_of(*old(m)).dom().finite(),
        headers_of(*old(m)).dom().len() < 1000,
    ensures
        headers_of(*final(m)) == headers_of(*old(m)).insert(name@, seq![header_text(value)]),
{
    m.insert(name, value);
}

// ---------------------------------------------------------------------------
// Header sets
// ---------------------------------------------------------------------------

/// One header.
pub open spec fn one_header(name: Seq<char>, value: Seq<char>) -> Map<Seq<char>, Seq<Seq<char>>> {
    no_headers().insert(name, seq![value])
}

/// The headers of a request to an OpenAI-compatible provider.
pub open spec fn bearer_headers(api_key: Seq<char>) -> Map<Seq<char>, Seq<Seq<char>>> {
    one_header("authorization"@, "Bearer "@ + api_key).insert(
        "content-type"@,
        seq!["application/json"@],
    )
}

/// The headers of a request to Anthropic.
pub open spec fn anthropic_headers(api_key: Seq<char>, cache_enabled: bool) -> Map<
    Seq<char>,
    Seq<Seq<char>>,
> {
    let base = one_header("x-api-key"@, api_key).insert(
        "anthropic-version"@,
        seq!["2023-06-01"@],
    ).insert("content-type"@, seq!["application/json"@]);
    if cache_enabled {
        base.insert("anthropic-beta"@, seq!["prompt-caching-2024-07-31"@])
    } else {
        base
    }
}

/// The headers of a request to an OpenAI-compatible provider, unless the key
/// cannot stand in one; then what is wrong.
pub fn build_bearer_headers(api_key: &str) -> (r: Result<
    reqwest::header::HeaderMap<reqwest::header::HeaderValue>,
    String,
>)
    ensures
        match r {
            Ok(m) => is_header_text("Bearer "@ + api_key@) && headers_of(m) == bearer_headers(
                api_key@,
            ),
            Err(e) => !is_header_text("Bearer "@ + api_key@) && e@
                == "failed to parse header value"@,
        },
{
    let bearer = crate::text::concat2("Bearer ", api_key);
    let auth = match header_value(bearer.as_str()) {
        Ok(v) => v,
        Err(e) => {
            return Err(invalid_value_text(&e));
        },
    };
    proof {
        reveal_strlit("authorization");
        reveal_strlit("content-type");
        reveal_strlit("application/json");
    }
    let mut m = empty_headers();
    insert_header(&mut m, "authorization", auth);
    insert_header(&mut m, "content-type", static_header_value("application/json"));
    Ok(m)
}

/// The headers of a request to Anthropic, unless the key cannot stand in one;
/// then what is wrong.
pub fn build_anthropic_headers(api_key: &str, cache_enabled: bool) -> (r: Result<
    reqwest::header::HeaderMap<reqwest::header::HeaderValue>,
    String,
>)
    ensures
        match r {
            Ok(m) => is_header_text(api_key@) && headers_of(m) == anthropic_headers(
                api_key@,
                cache_enabled,
            ),
            Err(e) => !is_header_text(api_key@) && e@ == "failed to parse header value"@,
        },
{
    let key = match header_value(api_key) {
        Ok(v) => v,
        Err(e) => {
            return Err(invalid_value_text(&e));
        },
    };
    proof {
        reveal_strlit("x-api-key");
        reveal_strlit("anthropic-version");
        reveal_strlit("2023-06-01");
        reveal_strlit("content-type");
        reveal_strlit("application/json");
        reveal_strlit("anthropic-beta");
        reveal_strlit("prompt-caching-2024-07-31");
    }
    let mut m = empty_headers();
    insert_header(&mut m, "x-api-key", key);
    insert_header(&mut m, "anthropic-version", static_header_value("2023-06-01"));
    insert_header(&mut m, "content-type", static_header_value("application/json"));
    if cache_enabled {
        insert_header(
            &mut m,
            "anthropic-beta",
            static_header_value("prompt-caching-2024-07-31"),
        );
    }
    Ok(m)
}

/// With the same key, the headers for a cached request are those for another and
/// the one that asks for the cache.
pub proof fn caching_adds_one_header(api_key: Seq<char>)
    ensures
        anthropic_headers(api_key, true) == anthropic_headers(api_key, false).insert(
            "anthropic-beta"@,
            seq!["prompt-caching-2024-07-31"@],
        ),
{
}

} // verus!
