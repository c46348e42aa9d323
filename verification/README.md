# aion

The core of a coding agent, written in Verus: what is sent to a model, how its
replies are read, and how a run of turns is steered. Everything under `src/` is
verified; what talks to the network, the disk or the terminal is under `app/`.

## Layout

- `message`, `llm`, `error`, `wire`, `clock`: the data that the rest speaks of.
- `text`, `json`, `headers`: strings, JSON values and HTTP headers. `json` rests
  on `serde_json` and `headers` on `reqwest`.
- `compat`, `schema`, `tool_ids`, `tool_call_sanitize`: what providers differ in.
- `openai`, `anthropic_shared`, `request_body`, `transport`: requests.
- `framing`, `openai_stream`, `sse`, `anthropic_stream`, `stream`: replies.
- `tool_call`, `turn`, `rounds`, `run`: turns, tool rounds, breakers and the run
  as a state machine.
- `engine`, `settings`, `compaction`, `estimate`, `commands`, `exec_command`: the
  agent, its settings, its context window, its commands and its shell tool.
- `openai_laws`, `anthropic_laws`: what holds of every request. Laws about one
  module stand at its end.

Each function states what it returns over mathematical views of its arguments.
The functions marked `external_body` and the `assume_specification` items are what
is believed of outside crates; a comment above each says what that is.

`app/` holds the program: command line, configuration, HTTP, sessions on disk, and
the loop that performs the actions which `run` asks for.
