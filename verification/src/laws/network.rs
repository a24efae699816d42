//! Laws of what crosses the edge: bridges, nodes, spans, sets of agents, hooks and errors.
use crate::agent::hook;
use crate::agent::hook::HookAction;
use crate::agent::multi;
use crate::agent::worker;
use crate::agent::worker::WorkerError;
use crate::bridge;
use crate::component;
use crate::component::ComponentError;
use crate::distributed;
use crate::distributed::{NodeView, TransportError};
use crate::error as bus_error;
use crate::error::BusError;
use crate::event;
use crate::event::EventView;
use crate::json::JsonView;
use crate::llm::error;
use crate::llm::error::LlmErrorView;
use crate::mcp::error as mcp_error;
use crate::mcp::error::McpErrorView;
use crate::observability;
use crate::observability::{ObsError, SpanView};
use crate::text;
use vstd::prelude::*;

verus! {

/// What crosses a bridge is the event with one more hop, and nothing crosses that has
/// made all its hops.
pub proof fn law_bridge_counts_the_hops(e: EventView, n: u64, max_hops: u64)
    requires
        (e.meta("bridge_hops"@) is None && n == 0) || (e.meta("bridge_hops"@) is Some && e.meta(
            "bridge_hops"@,
        )->0.as_u64() == Some(n)),
    ensures
        bridge::handed_on(e, max_hops) is Some <==> n < max_hops,
        bridge::handed_on(e, max_hops) matches Some(f) ==> {
            &&& f.id == e.id
            &&& f.kind == e.kind
            &&& f.payload == e.payload
            &&& f.timestamp == e.timestamp
            &&& f.parent_event_id == e.parent_event_id
            &&& f.meta("bridge_hops"@) == Some(JsonView::Int(n + 1))
            &&& forall|k: Seq<char>| k != "bridge_hops"@ ==> #[trigger] f.meta(k) == e.meta(k)
        },
{
}

/// What a node sends: an event of a kind that it sends, that did not come from another
/// node, and that it has not seen.
pub proof fn law_what_a_node_sends(n: NodeView, e: EventView)
    ensures
        distributed::sends(n, e) <==> {
            &&& n.filter.len() == 0 || n.filter.contains(e.kind)
            &&& e.meta_text("origin_node"@) is None || e.meta_text("origin_node"@) == Some(
                n.node_id,
            )
            &&& !n.seen.contains(e.id)
        },
{
}

/// What a node has seen it remembers, and forgets nothing.
pub proof fn law_node_remembers(n: NodeView, e: EventView)
    ensures
        distributed::after_inbound(n, e).seen == n.seen.insert(e.id),
        distributed::sends(n, e) ==> distributed::after_outbound(n, e).seen.contains(e.id),
        n.seen.subset_of(distributed::after_outbound(n, e).seen),
        distributed::after_outbound(n, e).node_id == n.node_id,
        distributed::after_outbound(n, e).filter == n.filter,
{
}

/// The span of an event: a cycle and a tool call open and close, a reply counts its
/// tokens, and nothing else is traced.
pub proof fn law_event_has_its_span(e: EventView, trace: Seq<char>, agent: Seq<char>)
    requires
        e.meta_text("trace_id"@) == Some(trace),
        e.meta_text("agent_id"@) == Some(agent),
    ensures
        e.kind == "agent.cycle.start"@ ==> observability::span_of(e) == (SpanView::OpenCycle {
            trace_id: trace,
            agent_id: agent,
        }),
        e.kind == "agent.cycle.end"@ ==> (observability::span_of(e) matches SpanView::CloseCycle {
            trace_id,
            elapsed_ms,
        } && trace_id == trace && (e.meta("elapsed_ms"@) is Some ==> elapsed_ms == e.meta(
            "elapsed_ms"@,
        )->0.as_u64())),
        e.kind == "tool.call.proposed"@ && e.payload.text_at("tool_call_id"@) is Some
            && e.payload.text_at("name"@) is Some ==> observability::span_of(e) == (
        SpanView::OpenTool {
            call_id: e.payload.text_at("tool_call_id"@)->0,
            span_name: "tool."@ + e.payload.text_at("name"@)->0,
            trace_id: trace,
        }),
        e.kind == "tool.result"@ && e.payload.text_at("tool_call_id"@) is Some
            ==> observability::span_of(e) == (SpanView::CloseTool {
            call_id: e.payload.text_at("tool_call_id"@)->0,
            is_error: e.payload.get("error"@) is Some,
        }),
        e.kind != "agent.cycle.start"@ && e.kind != "agent.cycle.end"@ && e.kind
            != "assistant.message"@ && e.kind != "tool.call.proposed"@ && e.kind != "tool.result"@
            ==> observability::span_of(e) is Nothing,
{
    lemma_span_kinds();
}

/// A reply counts the tokens that it reports.
pub proof fn law_reply_counts_its_tokens(
    e: EventView,
    agent: Seq<char>,
    input: u64,
    output: u64,
    cached: u64,
)
    requires
        e.kind == "assistant.message"@,
        e.meta_text("agent_id"@) == Some(agent),
        e.meta("llm_input_tokens"@) is Some,
        e.meta("llm_input_tokens"@)->0.as_u64() == Some(input),
        e.meta("llm_output_tokens"@) is Some,
        e.meta("llm_output_tokens"@)->0.as_u64() == Some(output),
        e.meta("llm_cached_input_tokens"@) is Some,
        e.meta("llm_cached_input_tokens"@)->0.as_u64() == Some(cached),
    ensures
        observability::span_of(e) == (SpanView::Count { agent_id: agent, input, output, cached }),
{
    lemma_span_kinds();
}

proof fn lemma_span_kinds()
    ensures
        "agent.cycle.start"@ != "agent.cycle.end"@,
        "agent.cycle.start"@ != "assistant.message"@,
        "agent.cycle.start"@ != "tool.call.proposed"@,
        "agent.cycle.start"@ != "tool.result"@,
        "agent.cycle.end"@ != "assistant.message"@,
        "agent.cycle.end"@ != "tool.call.proposed"@,
        "agent.cycle.end"@ != "tool.result"@,
        "assistant.message"@ != "tool.call.proposed"@,
        "assistant.message"@ != "tool.result"@,
        "tool.call.proposed"@ != "tool.result"@,
{
    reveal_strlit("agent.cycle.start");
    reveal_strlit("agent.cycle.end");
    reveal_strlit("assistant.message");
    reveal_strlit("tool.call.proposed");
    reveal_strlit("tool.result");
    assert("agent.cycle.start"@.len() == 17 && "agent.cycle.end"@.len() == 15
        && "assistant.message"@.len() == 17 && "tool.call.proposed"@.len() == 18
        && "tool.result"@.len() == 11 && "agent.cycle.start"@[1] == 'g' && "assistant.message"@[1]
        == 's');
}

/// Who wakes in a set: all agents by a user and the heartbeat, one by what is addressed to
/// it or to nobody.
pub proof fn law_who_wakes_in_a_set(e: EventView, agent_id: Seq<char>)
    ensures
        multi::wakes_in_set(e, agent_id) <==> (e.kind == "user.message"@ || e.kind
            == "system.heartbeat"@ || (e.kind == "agent.message"@ && (e.meta_text(
            "to_agent_id"@,
        ) is None || e.meta_text("to_agent_id"@) == Some(agent_id)))),
{
}

/// The first hook that does not let things go on decides.
pub proof fn law_first_veto_decides(answers: Seq<HookAction>, i: int)
    requires
        0 <= i < answers.len(),
        !(answers[i] is Continue),
        forall|k: int| 0 <= k < i ==> #[trigger] answers[k] is Continue,
    ensures
        hook::chain_answer(answers) == answers[i],
    decreases answers.len(),
{
    if i > 0 {
        assert(answers[0] is Continue);
        let rest = answers.skip(1);
        assert(rest[i - 1] == answers[i]);
        assert forall|k: int| 0 <= k < i - 1 implies #[trigger] rest[k] is Continue by {
            assert(rest[k] == answers[k + 1]);
        }
        law_first_veto_decides(rest, i - 1);
    }
}

/// The text of an error tells what it carries.
pub proof fn law_error_tells_what_it_carries(e: LlmErrorView)
    ensures
        e matches LlmErrorView::Http { message, timeout, connect, request }
            ==> message.is_suffix_of(error::llm_error_text(e)),
        e matches LlmErrorView::Api { status, body } ==> body.is_suffix_of(
            error::llm_error_text(e),
        ) && text::contains(error::llm_error_text(e), text::decimal(status as nat)),
        e matches LlmErrorView::Serde(t) ==> t.is_suffix_of(error::llm_error_text(e)),
        e matches LlmErrorView::Structured(t) ==> t.is_suffix_of(error::llm_error_text(e)),
{
    if let LlmErrorView::Api { status, body } = e {
        let t = error::llm_error_text(e);
        let d = text::decimal(status as nat);
        let n = "API error "@.len() as int;
        assert(t.subrange(n, n + d.len()) =~= d);
        assert(text::occurs_at(t, d, n));
    }
}

/// The texts of the other errors tell what they carry.
pub proof fn law_other_errors_tell_what_they_carry(
    c: ComponentError,
    t: TransportError,
    o: ObsError,
    w: WorkerError,
    m: McpErrorView,
    b: BusError,
)
    ensures
        c matches ComponentError::Duplicate(n) ==> text::contains(
            component::component_error_text(c),
            n@,
        ),
        c matches ComponentError::Unknown(n) ==> text::contains(
            component::component_error_text(c),
            n@,
        ),
        c matches ComponentError::Start(n) ==> n@.is_suffix_of(component::component_error_text(c)),
        t matches TransportError::Io(n) ==> n@.is_suffix_of(distributed::transport_error_text(t)),
        t matches TransportError::Serde(n) ==> n@.is_suffix_of(
            distributed::transport_error_text(t),
        ),
        o matches ObsError::Io(n) ==> n@.is_suffix_of(observability::obs_error_text(o)),
        o matches ObsError::Serde(n) ==> n@.is_suffix_of(observability::obs_error_text(o)),
        o matches ObsError::Other(n) ==> observability::obs_error_text(o) == n@,
        w matches WorkerError::Worker(n) ==> n@.is_suffix_of(worker::worker_error_text(w)),
        w matches WorkerError::Bus(e) ==> bus_error::bus_error_text(e).is_suffix_of(
            worker::worker_error_text(w),
        ),
        m matches McpErrorView::Http(n) ==> n.is_suffix_of(mcp_error::mcp_error_text(m)),
        m matches McpErrorView::Json(n) ==> n.is_suffix_of(mcp_error::mcp_error_text(m)),
        m matches McpErrorView::Protocol { code, message } ==> message.is_suffix_of(
            mcp_error::mcp_error_text(m),
        ) && text::contains(mcp_error::mcp_error_text(m), text::signed_decimal(code as int)),
        m matches McpErrorView::Tool(n) ==> n.is_suffix_of(mcp_error::mcp_error_text(m)),
        m matches McpErrorView::Transport(n) ==> n.is_suffix_of(mcp_error::mcp_error_text(m)),
        b matches BusError::CheckpointNotFound(id) ==> text::contains(
            bus_error::bus_error_text(b),
            event::uuid_text(id),
        ),
{
    if let ComponentError::Duplicate(n) = c {
        let k = "component '"@.len() as int;
        assert(component::component_error_text(c).subrange(k, k + n@.len()) =~= n@);
        assert(text::occurs_at(component::component_error_text(c), n@, k));
    }
    if let ComponentError::Unknown(n) = c {
        let k = "unknown component '"@.len() as int;
        assert(component::component_error_text(c).subrange(k, k + n@.len()) =~= n@);
        assert(text::occurs_at(component::component_error_text(c), n@, k));
    }
    if let McpErrorView::Protocol { code, message } = m {
        let d = text::signed_decimal(code as int);
        let k = "MCP protocol error (code="@.len() as int;
        assert(mcp_error::mcp_error_text(m).subrange(k, k + d.len()) =~= d);
        assert(text::occurs_at(mcp_error::mcp_error_text(m), d, k));
    }
    if let BusError::CheckpointNotFound(id) = b {
        let u = event::uuid_text(id);
        let k = "Checkpoint event "@.len() as int;
        assert(bus_error::bus_error_text(b).subrange(k, k + u.len()) =~= u);
        assert(text::occurs_at(bus_error::bus_error_text(b), u, k));
    }
}

} // verus!
