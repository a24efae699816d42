//! Standard metadata keys for events.
use vstd::prelude::*;

verus! {

/// ID of the emitting agent.
pub const AGENT_ID: &'static str = "agent_id";

/// Trace ID grouping the events of one cycle.
pub const TRACE_ID: &'static str = "trace_id";

/// Recipient agent ID for targeted messages.
pub const TO_AGENT_ID: &'static str = "to_agent_id";

/// Duration of a cycle in milliseconds.
pub const ELAPSED_MS: &'static str = "elapsed_ms";

/// Prompt tokens consumed in the last model interaction.
pub const LLM_INPUT_TOKENS: &'static str = "llm_input_tokens";

/// Completion tokens generated in the last model interaction.
pub const LLM_OUTPUT_TOKENS: &'static str = "llm_output_tokens";

/// Prompt tokens served from the provider's cache.
pub const LLM_CACHED_INPUT_TOKENS: &'static str = "llm_cached_input_tokens";

/// Estimated prompt tokens of the request that produced the message.
pub const LLM_ESTIMATED_INPUT_TOKENS: &'static str = "llm_estimated_input_tokens";

/// Marks an event that was only ever broadcast.
pub const EPHEMERAL: &'static str = "ephemeral";

} // verus!
