//! Provider-neutral core of a coding agent: messages, wire formats, streams,
//! turn bookkeeping.

pub mod anthropic_laws;
pub mod anthropic_shared;
pub mod anthropic_stream;
pub mod body_laws;
pub mod chat_laws;
pub mod clock;
pub mod commands;
pub mod compaction;
pub mod compaction_laws;
pub mod compat;
pub mod compat_laws;
pub mod edge_laws;
pub mod engine;
pub mod error;
pub mod estimate;
pub mod exec_command;
pub mod framing;
pub mod framing_laws;
pub mod headers;
pub mod json;
pub mod ledger_laws;
pub mod llm;
pub mod message;
pub mod openai;
pub mod openai_laws;
pub mod openai_stream;
pub mod reply_laws;
pub mod request_body;
pub mod rounds;
pub mod run;
pub mod run_laws;
pub mod schema;
pub mod schema_laws;
pub mod sequences;
pub mod settings;
pub mod settings_laws;
pub mod sse;
pub mod stream;
pub mod stream_laws;
pub mod text;
pub mod text_laws;
pub mod tool_call;
pub mod tool_call_sanitize;
pub mod tool_ids;
pub mod transport;
pub mod turn;
pub mod view_laws;
pub mod wire;
pub mod wire_laws;
