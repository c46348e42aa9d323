//! Laws of what stands between the agent and the world: addresses, headers, refusals,
//! commands that are run and lines that are typed.

use vstd::prelude::*;

use crate::body_laws::says;
use crate::commands::{after_word, first_word, parsed_command, word_len, CommandView};
use crate::exec_command::{exec_schema, outcome_result, request_of, ExecOutcome};
use crate::headers::{anthropic_headers, bearer_headers};
use crate::json::{json_text, JsonView, NumberView};
use crate::llm::ProviderErrorView;
use crate::text::{
    blank_texts_trim_to_nothing, decimal, is_blank, is_space, lossy_text, signed_decimal, trim,
};
use crate::text_laws::trimming_leaves_what_is_between;
use crate::tool_call_sanitize::{dropped_line, dropped_text, DroppedToolCallReason};
use crate::transport::{
    joined_url, normalized_base_url, same_ignoring_case, status_error, without_end_slashes,
    without_start_slashes,
};

verus! {

broadcast use vstd::string::group_string_axioms;

// ---------------------------------------------------------------------------
// Addresses
// ---------------------------------------------------------------------------

/// Some slashes.
pub open spec fn slashes(n: nat) -> Seq<char> {
    Seq::new(n, |i: int| '/')
}

proof fn lemma_end_slashes(s: Seq<char>, n: nat)
    requires
        s.len() > 0 ==> s.last() != '/',
    ensures
        without_end_slashes(s + slashes(n)) == s,
    decreases n,
{
    if n == 0 {
        assert(s + slashes(n) =~= s);
    } else {
        assert((s + slashes(n)).drop_last() =~= s + slashes((n - 1) as nat));
        lemma_end_slashes(s, (n - 1) as nat);
    }
}

proof fn lemma_start_slashes(s: Seq<char>, n: nat)
    requires
        s.len() > 0 ==> s[0] != '/',
    ensures
        without_start_slashes(slashes(n) + s) == s,
    decreases n,
{
    if n == 0 {
        assert(slashes(n) + s =~= s);
    } else {
        assert((slashes(n) + s).skip(1) =~= slashes((n - 1) as nat) + s);
        lemma_start_slashes(s, (n - 1) as nat);
    }
}

/// An address and a path are joined by one slash, however many they come with; an
/// address without a path keeps none.
pub proof fn addresses_and_paths_are_joined(base: Seq<char>, path: Seq<char>, m: nat, n: nat)
    requires
        base.len() > 0 ==> base.last() != '/',
        path.len() > 0 ==> path[0] != '/',
    ensures
        path.len() > 0 ==> joined_url(base + slashes(m), slashes(n) + path) == base + seq!['/']
            + path,
        joined_url(base + slashes(m), slashes(n)) == base,
{
    lemma_end_slashes(base, m);
    lemma_start_slashes(path, n);
    lemma_start_slashes(Seq::empty(), n);
    assert(slashes(n) + Seq::<char>::empty() =~= slashes(n));
    reveal_strlit("/");
    assert("/"@ =~= seq!['/']);
}

/// OpenAI's own address, in whatever case and with whatever slashes, gets the version
/// behind it; any other address stays as it is.
pub proof fn only_the_bare_address_gets_a_version(base: Seq<char>, n: nat)
    requires
        base.len() > 0 ==> base.last() != '/',
    ensures
        same_ignoring_case(base, "https://api.openai.com"@) || same_ignoring_case(
            base,
            "http://api.openai.com"@,
        ) ==> normalized_base_url(base + slashes(n)) == base + "/v1"@,
        !same_ignoring_case(base, "https://api.openai.com"@) && !same_ignoring_case(
            base,
            "http://api.openai.com"@,
        ) ==> normalized_base_url(base + slashes(n)) == base + slashes(n),
{
    lemma_end_slashes(base, n);
}

/// Two texts are the same but for case exactly where each pair of characters is equal
/// or one letter in both cases.
pub proof fn only_the_case_of_letters_is_ignored(a: Seq<char>, b: Seq<char>)
    ensures
        same_ignoring_case(a, b) <==> a.len() == b.len() && forall|i: int|
            0 <= i < a.len() ==> {
                ||| #[trigger] a[i] == b[i]
                ||| 'A' <= a[i] <= 'Z' && b[i] as int == a[i] as int + 32
                ||| 'A' <= b[i] <= 'Z' && a[i] as int == b[i] as int + 32
            },
{
}

// ---------------------------------------------------------------------------
// Headers and refusals
// ---------------------------------------------------------------------------

proof fn lemma_header_names()
    ensures
        "authorization"@.len() == 13,
        "content-type"@.len() == 12,
        "x-api-key"@.len() == 9,
        "anthropic-version"@.len() == 17,
        "anthropic-beta"@.len() == 14,
{
    reveal_strlit("authorization");
    reveal_strlit("content-type");
    reveal_strlit("x-api-key");
    reveal_strlit("anthropic-version");
    reveal_strlit("anthropic-beta");
}

/// A request carries the key where its provider looks for it, says that its body is
/// JSON, and has no other headers than these.
pub proof fn headers_carry_the_key(key: Seq<char>, cached: bool)
    ensures
        ({
            let h = bearer_headers(key);
            &&& h.contains_key("authorization"@) && h["authorization"@] == seq!["Bearer "@ + key]
            &&& h.contains_key("content-type"@) && h["content-type"@] == seq!["application/json"@]
            &&& forall|k: Seq<char>| #[trigger]
                h.contains_key(k) ==> k == "authorization"@ || k == "content-type"@
        }),
        ({
            let h = anthropic_headers(key, cached);
            &&& h.contains_key("x-api-key"@) && h["x-api-key"@] == seq![key]
            &&& h.contains_key("anthropic-version"@) && h["anthropic-version"@]
                == seq!["2023-06-01"@]
            &&& h.contains_key("content-type"@) && h["content-type"@] == seq!["application/json"@]
            &&& h.contains_key("anthropic-beta"@) <==> cached
            &&& cached ==> h["anthropic-beta"@] == seq!["prompt-caching-2024-07-31"@]
            &&& forall|k: Seq<char>| #[trigger]
                h.contains_key(k) ==> k == "x-api-key"@ || k == "anthropic-version"@ || k
                    == "content-type"@ || k == "anthropic-beta"@
        }),
{
    lemma_header_names();
}

/// Too many requests may be tried again after five seconds; any other status is
/// handed on as it is, with the complaint about the tools where there is one and
/// otherwise with the body.
pub proof fn statuses_are_handed_on(status: u16, body: Seq<char>, mismatch: Option<Seq<char>>)
    ensures
        status == 429 ==> {
            &&& status_error(status, body, mismatch) matches ProviderErrorView::RateLimited {
                retry_after_ms,
                body: said,
            }
            &&& retry_after_ms == 5000
            &&& said is Some <==> body.len() > 0
            &&& said is Some ==> said == Some(body)
        },
        status != 429 ==> {
            &&& status_error(status, body, mismatch) matches ProviderErrorView::Api {
                status: seen,
                message,
            }
            &&& seen == status
            &&& mismatch is Some ==> message == mismatch->0
            &&& mismatch is None ==> message == body
        },
{
}

// ---------------------------------------------------------------------------
// Commands that are run
// ---------------------------------------------------------------------------

/// The text that an object has for a key.
pub open spec fn text_for(m: Map<Seq<char>, JsonView>, key: Seq<char>) -> Option<Seq<char>> {
    if m.contains_key(key) && m[key] is String {
        Some(m[key]->String_0)
    } else {
        None
    }
}

/// An input asks for the command and the shell that it names; without a command it
/// asks for nothing.
pub proof fn inputs_name_their_command(m: Map<Seq<char>, JsonView>)
    ensures
        request_of(JsonView::Object(m)) is Some <==> text_for(m, "cmd"@) is Some,
        request_of(JsonView::Object(m)) matches Some(q) ==> {
            &&& Some(q.command) == text_for(m, "cmd"@)
            &&& q.shell == text_for(m, "shell"@)
            &&& q.timeout_ms <= 600_000
            &&& !m.contains_key("timeout"@) ==> q.timeout_ms == 120_000
            &&& m.contains_key("timeout"@) ==> (m["timeout"@] matches JsonView::Number(
                NumberView::Unsigned(ms),
            ) ==> q.timeout_ms == if ms < 600_000 {
                ms
            } else {
                600_000
            })
        },
{
}

/// The schema of the tool wants an object with a command, and lets it name a shell and
/// a timeout.
pub proof fn the_schema_wants_a_command()
    ensures
        exec_schema() is Object,
        ({
            let m = exec_schema()->Object_0;
            let p = m["properties"@]->Object_0;
            &&& says(m, "type"@, Some(JsonView::String("object"@)))
            &&& says(m, "required"@, Some(JsonView::Array(seq![JsonView::String("cmd"@)])))
            &&& m.contains_key("properties"@) && m["properties"@] is Object
            &&& forall|k: Seq<char>| #[trigger]
                p.contains_key(k) <==> k == "cmd"@ || k == "shell"@ || k == "timeout"@
            &&& p["cmd"@] is Object && says(
                p["cmd"@]->Object_0,
                "type"@,
                Some(JsonView::String("string"@)),
            )
            &&& p["shell"@] is Object && says(
                p["shell"@]->Object_0,
                "type"@,
                Some(JsonView::String("string"@)),
            )
            &&& p["timeout"@] is Object && says(
                p["timeout"@]->Object_0,
                "type"@,
                Some(JsonView::String("integer"@)),
            )
        }),
{
    reveal_strlit("type");
    reveal_strlit("required");
    reveal_strlit("properties");
    reveal_strlit("description");
    reveal_strlit("cmd");
    reveal_strlit("shell");
    reveal_strlit("timeout");
    assert("type"@.len() == 4 && "required"@.len() == 8 && "properties"@.len() == 10);
    assert("description"@.len() == 11);
    assert("cmd"@.len() == 3 && "shell"@.len() == 5 && "timeout"@.len() == 7);
}

/// A command that ended is told with its exit code and both outputs, as an error
/// unless the code is zero; one that failed or ran out of time is an error that says
/// so.
pub proof fn outputs_are_told(outcome: ExecOutcome, timeout_ms: u64)
    ensures
        outcome matches ExecOutcome::Finished { code, stdout, stderr } ==> {
            let r = outcome_result(outcome, timeout_ms);
            &&& r.content == "Exit code: "@ + signed_decimal(
                match code {
                    Some(c) => c as int,
                    None => -1,
                },
            ) + "\nSTDOUT:\n"@ + lossy_text(stdout@) + "\nSTDERR:\n"@ + lossy_text(stderr@)
            &&& r.is_error <==> code != Some(0i32)
        },
        outcome matches ExecOutcome::Failed(cause) ==> {
            let r = outcome_result(outcome, timeout_ms);
            r.is_error && r.content == "Failed to execute command: "@ + cause@
        },
        outcome is TimedOut ==> {
            let r = outcome_result(outcome, timeout_ms);
            r.is_error && r.content == "Command timed out after "@ + decimal(timeout_ms as nat)
                + "ms"@
        },
{
}

// ---------------------------------------------------------------------------
// Lines that are typed
// ---------------------------------------------------------------------------

proof fn lemma_word(word: Seq<char>, rest: Seq<char>)
    requires
        forall|i: int| 0 <= i < word.len() ==> !is_space(#[trigger] word[i]),
        rest.len() > 0 ==> is_space(rest[0]),
    ensures
        word_len(word + rest) == word.len(),
    decreases word.len(),
{
    if word.len() == 0 {
        assert(word + rest =~= rest);
    } else {
        assert(!is_space(word[0]));
        assert((word + rest)[0] == word[0]);
        assert((word + rest).skip(1) =~= word.skip(1) + rest);
        assert forall|i: int| 0 <= i < word.skip(1).len() implies !is_space(
            #[trigger] word.skip(1)[i],
        ) by {
            assert(!is_space(word[i + 1]));
        }
        lemma_word(word.skip(1), rest);
    }
}

/// A line with a slash in front is the command that follows it, with what stands
/// behind the name as its arguments; white space round them counts for nothing.
pub proof fn slashes_make_commands(
    before: Seq<char>,
    name: Seq<char>,
    gap: Seq<char>,
    args: Seq<char>,
    after: Seq<char>,
)
    requires
        is_blank(before),
        is_blank(gap),
        is_blank(after),
        gap.len() > 0,
        forall|i: int| 0 <= i < name.len() ==> !is_space(#[trigger] name[i]),
        args.len() > 0,
        !is_space(args[0]),
        !is_space(args[args.len() - 1]),
    ensures
        parsed_command(before + (seq!['/'] + name + gap + args) + after) == Some(
            CommandView { display_name: seq!['/'] + name, name, args },
        ),
{
    let line = seq!['/'] + name + gap + args;
    assert(line[0] == '/');
    assert(line[line.len() - 1] == args[args.len() - 1]);
    assert(!is_space('/'));
    trimming_leaves_what_is_between(before, line, after);
    let body = line.skip(1);
    let tail = gap + args;
    assert(body =~= name + tail);
    assert(is_space(gap[0]));
    assert(tail[0] == gap[0]);
    lemma_word(name, tail);
    assert(first_word(body) =~= name);
    let word = seq!['/'] + name;
    assert(line =~= word + tail);
    assert forall|i: int| 0 <= i < word.len() implies !is_space(#[trigger] word[i]) by {
        if i > 0 {
            assert(word[i] == name[i - 1]);
        }
    }
    lemma_word(word, tail);
    assert(first_word(line) =~= word);
    assert(after_word(body) =~= gap.skip(1) + args + Seq::<char>::empty());
    assert forall|i: int| 0 <= i < gap.skip(1).len() implies is_space(#[trigger] gap.skip(1)[i]) by {
        assert(is_space(gap[i + 1]));
    }
    trimming_leaves_what_is_between(gap.skip(1), args, Seq::empty());
}

/// A slash with a name and nothing behind it is a command without arguments, and a
/// line that does not begin with a slash is none.
pub proof fn other_lines_are_no_commands(before: Seq<char>, name: Seq<char>, after: Seq<char>)
    requires
        is_blank(before),
        is_blank(after),
        name.len() > 0,
        forall|i: int| 0 <= i < name.len() ==> !is_space(#[trigger] name[i]),
    ensures
        parsed_command(before + (seq!['/'] + name) + after) == Some(
            CommandView { display_name: seq!['/'] + name, name, args: Seq::empty() },
        ),
        name[0] != '/' ==> parsed_command(before + name + after) is None,
        parsed_command(before) is None,
{
    let word = seq!['/'] + name;
    assert(word[word.len() - 1] == name[name.len() - 1]);
    assert(!is_space('/'));
    trimming_leaves_what_is_between(before, word, after);
    trimming_leaves_what_is_between(before, name, after);
    blank_texts_trim_to_nothing(before);
    assert forall|i: int| 0 <= i < word.len() implies !is_space(#[trigger] word[i]) by {
        if i > 0 {
            assert(word[i] == name[i - 1]);
        }
    }
    lemma_word(word, Seq::empty());
    lemma_word(name, Seq::empty());
    assert(word + Seq::<char>::empty() =~= word);
    assert(name + Seq::<char>::empty() =~= name);
    assert(word.skip(1) =~= name);
    assert(first_word(word) =~= word);
    assert(first_word(name) =~= name);
    blank_texts_trim_to_nothing(Seq::empty());
    assert(trim(Seq::<char>::empty()) =~= Seq::empty());
}

// ---------------------------------------------------------------------------
// Calls that are left out
// ---------------------------------------------------------------------------

/// The line for a call that is left out says what it lacked and what to give it, and
/// quotes up to a hundred characters of its arguments.
pub proof fn dropped_calls_are_quoted(arguments: Seq<char>)
    ensures
        arguments.len() <= 100 ==> dropped_text(DroppedToolCallReason::EmptyName, arguments)
            == "[tool call skipped: malformed ("@ + "empty function name"@ + "). arguments="@
            + arguments + ". This call was not executed; re-issue with a valid "@ + "name"@
            + " if still needed.]"@,
        arguments.len() <= 100 ==> dropped_text(DroppedToolCallReason::EmptyId, arguments)
            == "[tool call skipped: malformed ("@ + "empty tool call id"@ + "). arguments="@
            + arguments + ". This call was not executed; re-issue with a valid "@ + "id"@
            + " if still needed.]"@,
        arguments.len() > 100 ==> dropped_text(DroppedToolCallReason::EmptyName, arguments)
            == "[tool call skipped: malformed ("@ + "empty function name"@ + "). arguments="@ + (
        arguments.subrange(0, 100) + seq!['…'])
            + ". This call was not executed; re-issue with a valid "@ + "name"@
            + " if still needed.]"@,
        arguments.len() > 100 ==> dropped_text(DroppedToolCallReason::EmptyId, arguments)
            == "[tool call skipped: malformed ("@ + "empty tool call id"@ + "). arguments="@ + (
        arguments.subrange(0, 100) + seq!['…'])
            + ". This call was not executed; re-issue with a valid "@ + "id"@
            + " if still needed.]"@,
{
    if arguments.len() > 100 {
        assert(arguments.take(100) =~= arguments.subrange(0, 100));
    }
}

/// The arguments that are quoted of a call that is left out are its input as JSON text.
pub proof fn dropped_calls_quote_their_input(reason: DroppedToolCallReason, input: JsonView)
    ensures
        dropped_line(reason, input) == dropped_text(reason, json_text(input)),
{
}

} // verus!
