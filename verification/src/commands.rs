//! Slash commands.

use vstd::prelude::*;

use crate::engine::AgentResult;
use crate::error::AgentError;
use crate::message::{no_usage, StopReason, TokenUsage};
use crate::text::{chars_of, is_space, is_whitespace, text_of, trim, trimmed};

verus! {

broadcast use vstd::string::group_string_axioms;

/// A command line taken apart.
#[derive(Debug)]
pub struct ParsedSlashCommand {
    pub display_name: String,
    pub name: String,
    pub args: String,
}

#[verifier::ext_equal]
pub struct CommandView {
    pub display_name: Seq<char>,
    pub name: Seq<char>,
    pub args: Seq<char>,
}

impl ParsedSlashCommand {
    pub open spec fn view(&self) -> CommandView {
        CommandView { display_name: self.display_name@, name: self.name@, args: self.args@ }
    }
}

// ---------------------------------------------------------------------------
// Model
// ---------------------------------------------------------------------------

/// The length of a text up to its first white space.
pub open spec fn word_len(s: Seq<char>) -> nat
    decreases s.len(),
{
    if s.len() == 0 || is_space(s[0]) {
        0
    } else {
        1 + word_len(s.skip(1))
    }
}

/// A text up to its first white space.
pub open spec fn first_word(s: Seq<char>) -> Seq<char> {
    s.take(word_len(s) as int)
}

/// What follows the first white space of a text.
pub open spec fn after_word(s: Seq<char>) -> Seq<char> {
    if word_len(s) < s.len() {
        s.skip((word_len(s) + 1) as int)
    } else {
        Seq::empty()
    }
}

/// A line is a command when it starts with a slash, white space aside.
pub open spec fn parsed_command(input: Seq<char>) -> Option<CommandView> {
    let line = trim(input);
    if line.len() > 0 && line[0] == '/' {
        let body = line.skip(1);
        Some(
            CommandView {
                display_name: first_word(line),
                name: first_word(body),
                args: trim(after_word(body)),
            },
        )
    } else {
        None
    }
}

proof fn lemma_word_len(s: Seq<char>)
    ensures
        word_len(s) <= s.len(),
        forall|i: int| 0 <= i < word_len(s) ==> !is_space(#[trigger] s[i]),
        word_len(s) < s.len() ==> is_space(s[word_len(s) as int]),
    decreases s.len(),
{
    if s.len() > 0 && !is_space(s[0]) {
        let rest = s.skip(1);
        lemma_word_len(rest);
        assert forall|i: int| 0 <= i < word_len(s) implies !is_space(#[trigger] s[i]) by {
            if i > 0 {
                assert(rest[i - 1] == s[i]);
            }
        }
    }
}

proof fn lemma_word_len_is(s: Seq<char>, n: int)
    requires
        0 <= n <= s.len(),
        forall|i: int| 0 <= i < n ==> !is_space(#[trigger] s[i]),
        n < s.len() ==> is_space(s[n]),
    ensures
        word_len(s) == n,
{
    lemma_word_len(s);
    if word_len(s) < n {
        assert(is_space(s[word_len(s) as int]));
    } else if word_len(s) > n {
        assert(!is_space(s[n]));
    }
}

/// The name shown for a command is a slash and its name, and the name has no
/// white space in it.
pub proof fn commands_are_shown_with_their_slash(input: Seq<char>)
    ensures
        parsed_command(input) matches Some(c) ==> {
            &&& c.display_name == seq!['/'] + c.name
            &&& forall|i: int| 0 <= i < c.name.len() ==> !is_space(#[trigger] c.name[i])
        },
{
    let line = trim(input);
    if line.len() > 0 && line[0] == '/' {
        let body = line.skip(1);
        lemma_word_len(line);
        lemma_word_len(body);
        assert(word_len(line) == 1 + word_len(body));
        assert(first_word(line) =~= seq!['/'] + first_word(body));
        assert forall|i: int| 0 <= i < first_word(body).len() implies !is_space(
            #[trigger] first_word(body)[i],
        ) by {
            assert(!is_space(body[i]));
        }
    }
}

// ---------------------------------------------------------------------------
// Executable
// ---------------------------------------------------------------------------

/// Where the first word from `from` on ends.
fn word_end(v: &Vec<char>, from: usize) -> (r: usize)
    requires
        from <= v@.len(),
    ensures
        from <= r <= v@.len(),
        word_len(v@.skip(from as int)) == r - from,
{
    let mut i: usize = from;
    let ghost s = v@.skip(from as int);
    while i < v.len() && !is_whitespace(v[i])
        invariant
            s == v@.skip(from as int),
            from <= i <= v@.len(),
            forall|j: int| 0 <= j < i - from ==> !is_space(#[trigger] s[j]),
        decreases v.len() - i,
    {
        i += 1;
    }
    proof {
        lemma_word_len_is(s, i - from);
    }
    i
}

pub fn parse_command_input(input: &str) -> (r: Option<ParsedSlashCommand>)
    ensures
        match r {
            Some(c) => parsed_command(input@) == Some(c@),
            None => parsed_command(input@) is None,
        },
{
    let line = trimmed(input);
    let v = chars_of(line.as_str());
    if v.len() == 0 || v[0] != '/' {
        return None;
    }
    let ghost body = v@.skip(1);
    let whole_end: usize = word_end(&v, 0);
    assert(v@.skip(0) =~= v@);
    let name_end: usize = word_end(&v, 1);
    let display_name = text_of(&v, 0, whole_end);
    let name = text_of(&v, 1, name_end);
    assert(display_name@ =~= first_word(v@));
    assert(name@ =~= first_word(body));
    let args = if name_end < v.len() {
        let rest = text_of(&v, name_end + 1, v.len());
        assert(rest@ =~= after_word(body));
        trimmed(rest.as_str())
    } else {
        let none = String::new();
        assert(after_word(body) =~= Seq::empty());
        assert(none@ =~= Seq::empty());
        trimmed(none.as_str())
    };
    Some(ParsedSlashCommand { display_name, name, args })
}

/// How a command ended.
#[derive(Debug)]
pub enum CommandOutcome {
    /// There is no command of that name.
    Unknown,
    Continue,
    Exit,
    Failed(String),
}

/// What a command makes of the run: nothing where there is no such command, an
/// empty result, or the end.
pub fn command_result(outcome: CommandOutcome) -> (r: Result<Option<AgentResult>, AgentError>)
    ensures
        match outcome {
            CommandOutcome::Unknown => r == Ok::<Option<AgentResult>, AgentError>(None),
            CommandOutcome::Continue => {
                &&& r matches Ok(Some(result))
                &&& result.text@ == Seq::<char>::empty()
                &&& result.stop_reason == StopReason::EndTurn
                &&& result.usage == no_usage()
                &&& result.turns == 0
            },
            CommandOutcome::Exit => r matches Err(AgentError::UserAborted),
            CommandOutcome::Failed(e) => r == Err::<Option<AgentResult>, AgentError>(
                AgentError::ApiError(e),
            ),
        },
{
    match outcome {
        CommandOutcome::Unknown => Ok(None),
        CommandOutcome::Continue => Ok(
            Some(
                AgentResult {
                    text: String::new(),
                    stop_reason: StopReason::EndTurn,
                    usage: TokenUsage::default(),
                    turns: 0,
                },
            ),
        ),
        CommandOutcome::Exit => Err(AgentError::UserAborted),
        CommandOutcome::Failed(e) => Err(AgentError::ApiError(e)),
    }
}

} // verus!
