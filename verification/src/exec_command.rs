//! The tool that runs shell commands.

use vstd::prelude::*;

use crate::json::{at, member, text_at, text_value, u64_at, u64_value, JsonObject, JsonValue, JsonView};
use crate::compat::setting;
use crate::text::{
    concat2, concat3, copy_text, decimal, decode_lossy, format_i32, format_u64, lossy_text,
    opt_view, signed_decimal,
};

verus! {

broadcast use vstd::string::group_string_axioms;

/// `std::path::PathBuf`: a path, which is handed on unread.
#[verifier::external_type_specification]
#[verifier::external_body]
pub struct ExPathBuf(std::path::PathBuf);

pub const DEFAULT_TIMEOUT_MS: u64 = 120_000;

pub const MAX_TIMEOUT_MS: u64 = 600_000;

/// How much of a command is shown when it is announced.
pub const DESCRIBED_COMMAND_LEN: usize = 80;

/// What a tool hands back.
#[derive(Debug)]
pub struct ToolResult {
    pub content: String,
    pub is_error: bool,
}

#[verifier::ext_equal]
pub struct ToolResultView {
    pub content: Seq<char>,
    pub is_error: bool,
}

impl ToolResult {
    pub open spec fn view(&self) -> ToolResultView {
        ToolResultView { content: self.content@, is_error: self.is_error }
    }
}

#[derive(Debug)]
pub struct ExecCommandTool {
    pub cwd: std::path::PathBuf,
}

/// A command to run.
#[derive(Debug)]
pub struct ExecRequest {
    pub command: String,
    /// The shell that was asked for.
    pub shell: Option<String>,
    pub timeout_ms: u64,
}

#[verifier::ext_equal]
pub struct ExecRequestView {
    pub command: Seq<char>,
    pub shell: Option<Seq<char>>,
    pub timeout_ms: u64,
}

impl ExecRequest {
    pub open spec fn view(&self) -> ExecRequestView {
        ExecRequestView {
            command: self.command@,
            shell: opt_view(self.shell),
            timeout_ms: self.timeout_ms,
        }
    }
}

/// How running a command ended.
#[derive(Debug)]
pub enum ExecOutcome {
    Finished { code: Option<i32>, stdout: Vec<u8>, stderr: Vec<u8> },
    Failed(String),
    TimedOut,
}

// ---------------------------------------------------------------------------
// Model
// ---------------------------------------------------------------------------

/// The time that a command may take.
pub open spec fn timeout_of(asked: Option<u64>) -> u64 {
    let ms = setting(asked, DEFAULT_TIMEOUT_MS);
    if ms <= MAX_TIMEOUT_MS {
        ms
    } else {
        MAX_TIMEOUT_MS
    }
}

/// The command that an input asks for.
pub open spec fn request_of(input: JsonView) -> Option<ExecRequestView> {
    match text_at(at(Some(input), "cmd"@)) {
        Some(command) => Some(
            ExecRequestView {
                command,
                shell: text_at(at(Some(input), "shell"@)),
                timeout_ms: timeout_of(u64_at(at(Some(input), "timeout"@))),
            },
        ),
        None => None,
    }
}

pub open spec fn error_result(content: Seq<char>) -> ToolResultView {
    ToolResultView { content, is_error: true }
}

/// What a command that ran to its end is told with.
pub open spec fn output_result(exit_code: i32, stdout: Seq<char>, stderr: Seq<char>) -> ToolResultView {
    ToolResultView {
        content: "Exit code: "@ + signed_decimal(exit_code as int) + "\nSTDOUT:\n"@ + stdout
            + "\nSTDERR:\n"@ + stderr,
        is_error: exit_code != 0,
    }
}

/// What the end of a command is told with.
pub open spec fn outcome_result(outcome: ExecOutcome, timeout_ms: u64) -> ToolResultView {
    match outcome {
        ExecOutcome::Finished { code, stdout, stderr } => output_result(
            setting(code, -1i32),
            lossy_text(stdout@),
            lossy_text(stderr@),
        ),
        ExecOutcome::Failed(e) => error_result("Failed to execute command: "@ + e@),
        ExecOutcome::TimedOut => error_result(
            "Command timed out after "@ + decimal(timeout_ms as nat) + "ms"@,
        ),
    }
}

pub open spec fn property_schema(kind: Seq<char>, description: Seq<char>) -> JsonView {
    JsonView::Object(
        Map::<Seq<char>, JsonView>::empty().insert("type"@, JsonView::String(kind)).insert(
            "description"@,
            JsonView::String(description),
        ),
    )
}

pub open spec fn exec_schema() -> JsonView {
    JsonView::Object(
        Map::<Seq<char>, JsonView>::empty().insert("type"@, JsonView::String("object"@)).insert(
            "properties"@,
            JsonView::Object(
                Map::<Seq<char>, JsonView>::empty().insert(
                    "cmd"@,
                    property_schema("string"@, "The command to execute"@),
                ).insert(
                    "shell"@,
                    property_schema(
                        "string"@,
                        "Optional shell override: auto, powershell, pwsh, cmd, bash, zsh, sh, or an executable path"@,
                    ),
                ).insert(
                    "timeout"@,
                    property_schema(
                        "integer"@,
                        "Timeout in milliseconds (default 120000, max 600000)"@,
                    ),
                ),
            ),
        ).insert("required"@, JsonView::Array(seq![JsonView::String("cmd"@)])),
    )
}

// ---------------------------------------------------------------------------
// Executable
// ---------------------------------------------------------------------------

fn property(kind: &str, description: &str) -> (r: JsonValue)
    ensures
        r@ == property_schema(kind@, description@),
{
    JsonValue::Object(
        JsonObject::new().with("type", JsonValue::string(kind)).with(
            "description",
            JsonValue::string(description),
        ),
    )
}

impl ExecCommandTool {
    pub fn new(cwd: std::path::PathBuf) -> (r: Self)
        ensures
            r.cwd == cwd,
    {
        Self { cwd }
    }

    pub fn name(&self) -> (r: &'static str)
        ensures
            r@ == "ExecCommand"@,
    {
        "ExecCommand"
    }

    pub fn description(&self) -> (r: &'static str)
        ensures
            r@ == "Executes a shell command and returns its output.\n\nIMPORTANT: Do NOT use ExecCommand when a dedicated tool is available:\n- File search: use Glob (not find or ls)\n- Content search: use Grep (not grep or rg)\n- Read files: use Read (not cat, head, or tail)\n- Edit files: use Edit (not sed or awk)\n- Write files: use Write (not echo or cat with heredoc)\n\n# Instructions\n- Use absolute paths to avoid working directory confusion.\n- When issuing multiple independent commands, make parallel tool calls instead of chaining them. Use `&&` only when commands depend on each other.\n- You may specify an optional timeout in milliseconds (default 120000, max 600000).\n\n# Git safety\n- Never force push, reset --hard, or use --no-verify unless explicitly asked.\n- Prefer creating new commits over amending existing ones."@,
    {
        "Executes a shell command and returns its output.\n\nIMPORTANT: Do NOT use ExecCommand when a dedicated tool is available:\n- File search: use Glob (not find or ls)\n- Content search: use Grep (not grep or rg)\n- Read files: use Read (not cat, head, or tail)\n- Edit files: use Edit (not sed or awk)\n- Write files: use Write (not echo or cat with heredoc)\n\n# Instructions\n- Use absolute paths to avoid working directory confusion.\n- When issuing multiple independent commands, make parallel tool calls instead of chaining them. Use `&&` only when commands depend on each other.\n- You may specify an optional timeout in milliseconds (default 120000, max 600000).\n\n# Git safety\n- Never force push, reset --hard, or use --no-verify unless explicitly asked.\n- Prefer creating new commits over amending existing ones."
    }

    pub fn input_schema(&self) -> (r: JsonValue)
        ensures
            r@ == exec_schema(),
    {
        let properties = JsonObject::new().with(
            "cmd",
            property("string", "The command to execute"),
        ).with(
            "shell",
            property(
                "string",
                "Optional shell override: auto, powershell, pwsh, cmd, bash, zsh, sh, or an executable path",
            ),
        ).with(
            "timeout",
            property("integer", "Timeout in milliseconds (default 120000, max 600000)"),
        );
        let mut required: Vec<JsonValue> = Vec::new();
        required.push(JsonValue::string("cmd"));
        let required = JsonValue::Array(required);
        assert(required@->Array_0 =~= seq![JsonView::String("cmd"@)]);
        JsonValue::Object(
            JsonObject::new().with("type", JsonValue::string("object")).with(
                "properties",
                JsonValue::Object(properties),
            ).with("required", required),
        )
    }

    pub fn is_concurrency_safe(&self, _input: &JsonValue) -> (r: bool)
        ensures
            !r,
    {
        false
    }

    /// The command that an input asks for, or what to answer where it asks for
    /// none.
    pub fn prepare(&self, input: &JsonValue) -> (r: Result<ExecRequest, ToolResult>)
        ensures
            match r {
                Ok(q) => request_of(input@) == Some(q@),
                Err(e) => request_of(input@) is None && e@ == error_result(
                    "Missing required parameter: cmd"@,
                ),
            },
    {
        let command = match text_value(member(Some(input), "cmd")) {
            Some(s) => copy_text(s),
            None => {
                return Err(
                    ToolResult {
                        content: copy_text("Missing required parameter: cmd"),
                        is_error: true,
                    },
                );
            },
        };
        let shell = match text_value(member(Some(input), "shell")) {
            Some(s) => Some(copy_text(s)),
            None => None,
        };
        let asked: u64 = match u64_value(member(Some(input), "timeout")) {
            Some(ms) => ms,
            None => DEFAULT_TIMEOUT_MS,
        };
        let timeout_ms: u64 = if asked <= MAX_TIMEOUT_MS {
            asked
        } else {
            MAX_TIMEOUT_MS
        };
        Ok(ExecRequest { command, shell, timeout_ms })
    }

    /// What to answer to a shell that cannot be used.
    pub fn invalid_shell(&self, error: &str) -> (r: ToolResult)
        ensures
            r@ == error_result("Invalid shell: "@ + error@),
    {
        ToolResult { content: concat2("Invalid shell: ", error), is_error: true }
    }

    /// What to answer when a command is done with.
    pub fn finish(&self, outcome: &ExecOutcome, timeout_ms: u64) -> (r: ToolResult)
        ensures
            r@ == outcome_result(*outcome, timeout_ms),
    {
        match outcome {
            ExecOutcome::Finished { code, stdout, stderr } => {
                let exit_code: i32 = match code {
                    Some(c) => *c,
                    None => -1,
                };
                let out = decode_lossy(stdout.as_slice());
                let err = decode_lossy(stderr.as_slice());
                format_output(exit_code, out.as_str(), err.as_str())
            },
            ExecOutcome::Failed(e) => ToolResult {
                content: concat2("Failed to execute command: ", e.as_str()),
                is_error: true,
            },
            ExecOutcome::TimedOut => ToolResult {
                content: concat3(
                    "Command timed out after ",
                    format_u64(timeout_ms).as_str(),
                    "ms",
                ),
                is_error: true,
            },
        }
    }

    /// The command that an input asks for, where there is one, to be shortened to
    /// [`DESCRIBED_COMMAND_LEN`] for display.
    pub fn command_of<'a>(&self, input: &'a JsonValue) -> (r: &'a str)
        ensures
            r@ == setting(text_at(at(Some(input@), "cmd"@)), ""@),
    {
        match text_value(member(Some(input), "cmd")) {
            Some(s) => s,
            None => "",
        }
    }

    /// How a call is announced, with the command shortened to
    /// [`DESCRIBED_COMMAND_LEN`].
    pub fn describe(&self, shortened_command: &str) -> (r: String)
        ensures
            r@ == "Execute: "@ + shortened_command@,
    {
        concat2("Execute: ", shortened_command)
    }
}

/// What a command that ran to its end is told with.
pub fn format_output(exit_code: i32, stdout: &str, stderr: &str) -> (r: ToolResult)
    ensures
        r@ == output_result(exit_code, stdout@, stderr@),
{
    let code = format_i32(exit_code);
    let mut content = concat3("Exit code: ", code.as_str(), "\nSTDOUT:\n");
    content.append(stdout);
    content.append("\nSTDERR:\n");
    content.append(stderr);
    ToolResult { content, is_error: exit_code != 0 }
}

/// No command runs longer than the longest time allowed, and one that asks for
/// less gets what it asks for.
pub proof fn timeouts_are_bounded(asked: Option<u64>)
    ensures
        timeout_of(asked) <= MAX_TIMEOUT_MS,
        asked matches Some(ms) && ms <= MAX_TIMEOUT_MS ==> timeout_of(asked) == asked.unwrap(),
        asked is None ==> timeout_of(asked) == DEFAULT_TIMEOUT_MS,
{
}

} // verus!
