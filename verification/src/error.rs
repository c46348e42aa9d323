//! Why a run of the agent ends without a result.

use vstd::prelude::*;

use crate::llm::ProviderError;

verus! {

#[derive(Debug)]
pub enum AgentError {
    Provider(ProviderError),
    ApiError(String),
    UserAborted,
    /// Malformed tool calls came again and again.
    ToolCallMalformed { count: usize, limit: usize },
    /// The same tool calls failed again and again.
    ToolCallFailures { count: usize, limit: usize },
    ContextTooLong { input_tokens: u64, limit: usize },
}

} // verus!
