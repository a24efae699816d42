//! Predefined event kinds used throughout the framework.
use vstd::prelude::*;

verus! {

pub const USER_MESSAGE: &'static str = "user.message";

pub const ASSISTANT_MESSAGE: &'static str = "assistant.message";

pub const TOOL_CALL_PROPOSED: &'static str = "tool.call.proposed";

pub const TOOL_RESULT: &'static str = "tool.result";

pub const SYSTEM_HEARTBEAT: &'static str = "system.heartbeat";

/// Message from system infrastructure, not from a human user or another agent.
pub const SYSTEM_MESSAGE: &'static str = "system.message";

pub const AGENT_CYCLE_START: &'static str = "agent.cycle.start";

pub const AGENT_CYCLE_END: &'static str = "agent.cycle.end";

/// Marks a safe rollback point.
pub const CHECKPOINT: &'static str = "system.checkpoint";

/// A branch was rejected. Broadcast only; `SYSTEM_ROLLBACK` is the durable record.
pub const BRANCH_SEALED: &'static str = "system.branch_sealed";

/// Durable tombstone of a rollback: records the branch topology, so that a
/// persisted log can be restored faithfully.
pub const SYSTEM_ROLLBACK: &'static str = "system.rollback";

/// Evicted branches were removed from memory.
pub const SYSTEM_PRUNED: &'static str = "system.pruned";

/// Directed message to an agent, or to all where no recipient is named.
pub const AGENT_MESSAGE: &'static str = "agent.message";

pub const AGENT_SPAWNED: &'static str = "agent.spawned";

pub const AGENT_COMPLETED: &'static str = "agent.completed";

/// The agent repeats the same actions or errors.
pub const AGENT_STUCK: &'static str = "agent.stuck";

/// Old conversation history was summarized.
pub const AGENT_CONTEXT_SUMMARIZED: &'static str = "agent.context.summarized";

/// Incremental completion text. Broadcast only.
pub const ASSISTANT_DELTA: &'static str = "assistant.delta";

/// A tool call needs approval.
pub const PERMISSION_REQUEST: &'static str = "permission.request";

/// Verdict on a pending permission request.
pub const PERMISSION_DECISION: &'static str = "permission.decision";

/// Token usage crossed the warn threshold.
pub const BUDGET_WARNING: &'static str = "budget.warning";

/// The token budget is exhausted; the cycle is aborted.
pub const BUDGET_EXHAUSTED: &'static str = "budget.exhausted";

/// An MCP server asked the user for structured input.
pub const MCP_ELICITATION_REQUEST: &'static str = "mcp.elicitation.request";

/// Answer to an elicitation request.
pub const MCP_ELICITATION_RESPONSE: &'static str = "mcp.elicitation.response";

/// An MCP server announced that its tool list changed.
pub const MCP_TOOLS_CHANGED: &'static str = "mcp.tools.changed";

/// A resume reconciled tool calls that a restart had interrupted.
pub const SYSTEM_RECOVERED: &'static str = "system.recovered";

/// A speculative best-of-N round completed.
pub const SPECULATION_COMPLETED: &'static str = "speculation.completed";

/// What remains of an evicted branch: one sentence about it.
pub const SYSTEM_EPITAPH: &'static str = "system.epitaph";

/// Records what a model request was made of.
pub const CONTEXT_ASSEMBLED: &'static str = "agent.context.assembled";

} // verus!
