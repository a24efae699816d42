//! What is observed of a bus: spans and counters, and failures of the pipeline.
//!
//! A cycle of an agent is a span, and the tool calls of the cycle are spans inside
//! it. The token usage of replies is counted.
use crate::event::{Event, EventView};
use crate::kinds;
use crate::meta_keys;
use crate::text::same;
use vstd::prelude::*;

verus! {

/// Failures within the observability pipeline.
#[derive(Debug)]
pub enum ObsError {
    Io(String),
    Serde(String),
    ChannelClosed,
    Other(String),
}

/// The message of an error.
pub open spec fn obs_error_text(e: ObsError) -> Seq<char> {
    match e {
        ObsError::Io(m) => "I/O error: "@ + m@,
        ObsError::Serde(m) => "Serialization error: "@ + m@,
        ObsError::ChannelClosed => "Channel closed"@,
        ObsError::Other(m) => m@,
    }
}

impl ObsError {
    /// The message of this error.
    pub fn to_text(&self) -> (r: String)
        ensures
            r@ == obs_error_text(*self),
    {
        match self {
            ObsError::Io(m) => {
                let mut out = "I/O error: ".to_owned();
                out.push_str(m.as_str());
                out
            },
            ObsError::Serde(m) => {
                let mut out = "Serialization error: ".to_owned();
                out.push_str(m.as_str());
                out
            },
            ObsError::ChannelClosed => "Channel closed".to_owned(),
            ObsError::Other(m) => m.clone(),
        }
    }
}

/// What an event does to the spans and counters.
pub enum SpanMove {
    /// Open the span of a cycle.
    OpenCycle { trace_id: String, agent_id: String },
    /// Close the span of a cycle, with its duration if known.
    CloseCycle { trace_id: String, elapsed_ms: Option<u64> },
    /// Count the tokens of a reply.
    Count { agent_id: String, input: u64, output: u64, cached: u64 },
    /// Open the span of a tool call, inside the cycle's if that is open.
    OpenTool { call_id: String, span_name: String, trace_id: String },
    /// Close the span of a tool call.
    CloseTool { call_id: String, is_error: bool },
    Nothing,
}

pub enum SpanView {
    OpenCycle { trace_id: Seq<char>, agent_id: Seq<char> },
    CloseCycle { trace_id: Seq<char>, elapsed_ms: Option<u64> },
    Count { agent_id: Seq<char>, input: u64, output: u64, cached: u64 },
    OpenTool { call_id: Seq<char>, span_name: Seq<char>, trace_id: Seq<char> },
    CloseTool { call_id: Seq<char>, is_error: bool },
    Nothing,
}

impl View for SpanMove {
    type V = SpanView;

    open spec fn view(&self) -> SpanView {
        match self {
            SpanMove::OpenCycle { trace_id, agent_id } => SpanView::OpenCycle {
                trace_id: trace_id@,
                agent_id: agent_id@,
            },
            SpanMove::CloseCycle { trace_id, elapsed_ms } => SpanView::CloseCycle {
                trace_id: trace_id@,
                elapsed_ms: *elapsed_ms,
            },
            SpanMove::Count { agent_id, input, output, cached } => SpanView::Count {
                agent_id: agent_id@,
                input: *input,
                output: *output,
                cached: *cached,
            },
            SpanMove::OpenTool { call_id, span_name, trace_id } => SpanView::OpenTool {
                call_id: call_id@,
                span_name: span_name@,
                trace_id: trace_id@,
            },
            SpanMove::CloseTool { call_id, is_error } => SpanView::CloseTool {
                call_id: call_id@,
                is_error: *is_error,
            },
            SpanMove::Nothing => SpanView::Nothing,
        }
    }
}

/// A text, or `unknown`.
pub open spec fn or_unknown(t: Option<Seq<char>>) -> Seq<char> {
    match t {
        Some(s) => s,
        None => "unknown"@,
    }
}

/// The number in the metadata at `key`.
pub open spec fn meta_count(e: EventView, key: Seq<char>) -> Option<u64> {
    match e.meta(key) {
        Some(v) => v.as_u64(),
        None => None,
    }
}

/// A number, or zero.
pub open spec fn or_zero(n: Option<u64>) -> u64 {
    match n {
        Some(k) => k,
        None => 0,
    }
}

/// What an event does to the spans and counters.
pub open spec fn span_of(e: EventView) -> SpanView {
    let trace_id = or_unknown(e.meta_text(meta_keys::TRACE_ID@));
    let agent_id = or_unknown(e.meta_text(meta_keys::AGENT_ID@));
    let call_id = or_unknown(e.payload.text_at("tool_call_id"@));
    if e.kind == kinds::AGENT_CYCLE_START@ {
        SpanView::OpenCycle { trace_id, agent_id }
    } else if e.kind == kinds::AGENT_CYCLE_END@ {
        SpanView::CloseCycle { trace_id, elapsed_ms: meta_count(e, meta_keys::ELAPSED_MS@) }
    } else if e.kind == kinds::ASSISTANT_MESSAGE@ {
        SpanView::Count {
            agent_id,
            input: or_zero(meta_count(e, meta_keys::LLM_INPUT_TOKENS@)),
            output: or_zero(meta_count(e, meta_keys::LLM_OUTPUT_TOKENS@)),
            cached: or_zero(meta_count(e, meta_keys::LLM_CACHED_INPUT_TOKENS@)),
        }
    } else if e.kind == kinds::TOOL_CALL_PROPOSED@ {
        SpanView::OpenTool {
            call_id,
            span_name: "tool."@ + or_unknown(e.payload.text_at("name"@)),
            trace_id,
        }
    } else if e.kind == kinds::TOOL_RESULT@ {
        SpanView::CloseTool { call_id, is_error: e.payload.get("error"@) is Some }
    } else {
        SpanView::Nothing
    }
}

fn known(t: Option<&str>) -> (r: String)
    ensures
        r@ == or_unknown(crate::json::opt_str(t)),
{
    match t {
        Some(s) => s.to_owned(),
        None => "unknown".to_owned(),
    }
}

fn count_in(event: &Event, key: &str) -> (r: Option<u64>)
    ensures
        r == meta_count(event@, key@),
{
    match event.metadata.get(key) {
        Some(v) => v.as_u64(),
        None => None,
    }
}

fn count_or_zero(event: &Event, key: &str) -> (r: u64)
    ensures
        r == or_zero(meta_count(event@, key@)),
{
    match count_in(event, key) {
        Some(n) => n,
        None => 0,
    }
}

/// What an event does to the spans and counters.
pub fn span_move(event: &Event) -> (r: SpanMove)
    ensures
        r@ == span_of(event@),
{
    let kind = event.kind.as_str();
    let trace_id = known(event.meta_text(meta_keys::TRACE_ID));
    let agent_id = known(event.meta_text(meta_keys::AGENT_ID));
    let call_id = known(event.payload.text_at("tool_call_id"));
    if same(kind, kinds::AGENT_CYCLE_START) {
        SpanMove::OpenCycle { trace_id, agent_id }
    } else if same(kind, kinds::AGENT_CYCLE_END) {
        SpanMove::CloseCycle { trace_id, elapsed_ms: count_in(event, meta_keys::ELAPSED_MS) }
    } else if same(kind, kinds::ASSISTANT_MESSAGE) {
        SpanMove::Count {
            agent_id,
            input: count_or_zero(event, meta_keys::LLM_INPUT_TOKENS),
            output: count_or_zero(event, meta_keys::LLM_OUTPUT_TOKENS),
            cached: count_or_zero(event, meta_keys::LLM_CACHED_INPUT_TOKENS),
        }
    } else if same(kind, kinds::TOOL_CALL_PROPOSED) {
        let name = known(event.payload.text_at("name"));
        let mut span_name = "tool.".to_owned();
        span_name.push_str(name.as_str());
        SpanMove::OpenTool { call_id, span_name, trace_id }
    } else if same(kind, kinds::TOOL_RESULT) {
        SpanMove::CloseTool { call_id, is_error: event.payload.get("error").is_some() }
    } else {
        SpanMove::Nothing
    }
}

/// How many exports failed: counted by a pipeline that does not stop for them.
pub fn count_failure(failures: usize, failed: bool) -> (r: usize)
    ensures
        r == (if failed && failures < usize::MAX {
            failures + 1
        } else {
            failures as int
        }),
{
    if failed && failures < usize::MAX {
        failures + 1
    } else {
        failures
    }
}

/// A tool result closes the span that its proposal opened.
pub proof fn law_result_closes_its_call(proposed: EventView, result: EventView)
    requires
        proposed.kind == kinds::TOOL_CALL_PROPOSED@,
        result.kind == kinds::TOOL_RESULT@,
        result.payload.text_at("tool_call_id"@) == proposed.payload.text_at("tool_call_id"@),
    ensures
        match (span_of(proposed), span_of(result)) {
            (
                SpanView::OpenTool { call_id: a, .. },
                SpanView::CloseTool { call_id: b, .. },
            ) => a == b,
            _ => false,
        },
{
    reveal_strlit("agent.cycle.start");
    reveal_strlit("agent.cycle.end");
    reveal_strlit("assistant.message");
    reveal_strlit("tool.call.proposed");
    reveal_strlit("tool.result");
    assert("tool.call.proposed"@.len() == 18 && "tool.result"@.len() == 11);
    assert("agent.cycle.start"@.len() == 17 && "agent.cycle.end"@.len() == 15);
    assert("assistant.message"@.len() == 17);
}

} // verus!
