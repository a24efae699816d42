//! Laws of JSON values and of the metadata of events: what is written is read.
use crate::bridge;
use crate::component;
use crate::distributed;
use crate::event;
use crate::event::{EventId, EventView, Timestamp};
use crate::json;
use crate::json::{Json, JsonMap, JsonView};
use crate::kinds;
use crate::meta_keys;
use crate::table;
use crate::text;
use vstd::prelude::*;

verus! {

/// A field that an object was given is read as it was given, and the other fields stay.
pub proof fn law_field_is_read(
    m: Map<Seq<char>, JsonView>,
    key: Seq<char>,
    value: JsonView,
    other: Seq<char>,
)
    ensures
        JsonView::Object(m.insert(key, value)).get(key) == Some(value),
        other != key ==> JsonView::Object(m.insert(key, value)).get(other) == JsonView::Object(
            m,
        ).get(other),
        JsonView::Object(m).get(key) is Some <==> m.contains_key(key),
        JsonView::Object(m).get(key) matches Some(v) ==> v == m[key],
{
}

/// Only an object has fields.
pub proof fn law_only_objects_have_fields(j: JsonView, key: Seq<char>)
    requires
        !(j is Object),
    ensures
        j.get(key) is None,
        j.text_at(key) is None,
        j.array_at(key) is None,
        j.u64_at(key) is None,
{
}

/// A field is read by its type: a text as a text, an array as an array, a number that fits
/// as a number, and nothing else in their place.
pub proof fn law_field_is_read_by_its_type(m: Map<Seq<char>, JsonView>, key: Seq<char>)
    requires
        m.contains_key(key),
    ensures
        ({
            let j = JsonView::Object(m);
            &&& m[key] matches JsonView::Text(t) ==> j.text_at(key) == Some(t)
            &&& !(m[key] is Text) ==> j.text_at(key) is None
            &&& m[key] matches JsonView::Array(a) ==> j.array_at(key) == Some(a)
            &&& !(m[key] is Array) ==> j.array_at(key) is None
            &&& m[key] matches JsonView::Int(n) ==> (0 <= n <= u64::MAX ==> j.u64_at(key) == Some(
                n as u64,
            ))
            &&& m[key] matches JsonView::Int(n) ==> (n < 0 || n > u64::MAX ==> j.u64_at(key) is None)
            &&& !(m[key] is Int) ==> j.u64_at(key) is None
        }),
{
}

/// A truth value is read as it is, and no other value is one.
pub proof fn law_truth_is_read(j: JsonView)
    ensures
        j.as_bool() == Some(true) <==> j == JsonView::Bool(true),
        j.as_bool() == Some(false) <==> j == JsonView::Bool(false),
{
}

/// The items of an array stand for its values, one for one and in order.
pub proof fn law_items_keep_their_order(s: Seq<Json>, i: int)
    requires
        0 <= i < s.len(),
    ensures
        json::items_view(s).len() == s.len(),
        json::items_view(s)[i] == s[i]@,
    decreases s.len(),
{
    let front = s.drop_last();
    if i < front.len() {
        law_items_keep_their_order(front, i);
        assert(front[i] == s[i]);
    } else if front.len() > 0 {
        law_items_keep_their_order(front, 0);
    } else {
        assert(json::items_view(front).len() == 0);
    }
}

/// The last entry under a name counts.
pub proof fn law_last_field_counts(s: Seq<(String, Json)>, i: int)
    requires
        0 <= i < s.len(),
        forall|k: int| i < k < s.len() ==> (#[trigger] s[k]).0@ != s[i].0@,
    ensures
        json::entries_view(s).contains_key(s[i].0@),
        json::entries_view(s)[s[i].0@] == s[i].1@,
    decreases s.len(),
{
    let front = s.drop_last();
    if i < front.len() {
        assert(front[i] == s[i]);
        assert forall|k: int| i < k < front.len() implies (#[trigger] front[k]).0@
            != front[i].0@ by {
            assert(s[k].0@ != s[i].0@);
        }
        law_last_field_counts(front, i);
        assert(s[s.len() - 1].0@ != s[i].0@);
    }
}

/// A name without an entry is no field.
pub proof fn law_unknown_field_is_none(m: JsonMap, key: Seq<char>)
    requires
        forall|k: int| 0 <= k < m.entries@.len() ==> (#[trigger] m.entries@[k]).0@ != key,
    ensures
        !m@.contains_key(key),
{
    lemma_unknown_field(m.entries@, key);
}

proof fn lemma_unknown_field(s: Seq<(String, Json)>, key: Seq<char>)
    requires
        forall|k: int| 0 <= k < s.len() ==> (#[trigger] s[k]).0@ != key,
    ensures
        !json::entries_view(s).contains_key(key),
    decreases s.len(),
{
    if s.len() > 0 {
        let front = s.drop_last();
        assert forall|k: int| 0 <= k < front.len() implies (#[trigger] front[k]).0@ != key by {
            assert(s[k].0@ != key);
        }
        lemma_unknown_field(front, key);
        assert(s[s.len() - 1].0@ != key);
    }
}

/// The last entry of a table under a name counts.
pub proof fn law_last_entry_counts<V>(s: Seq<(String, V)>, i: int)
    requires
        0 <= i < s.len(),
        forall|k: int| i < k < s.len() ==> (#[trigger] s[k]).0@ != s[i].0@,
    ensures
        table::entries_map(s).contains_key(s[i].0@),
        table::entries_map(s)[s[i].0@] == s[i].1,
    decreases s.len(),
{
    let front = s.drop_last();
    if i < front.len() {
        assert(front[i] == s[i]);
        assert forall|k: int| i < k < front.len() implies (#[trigger] front[k]).0@
            != front[i].0@ by {
            assert(s[k].0@ != s[i].0@);
        }
        law_last_entry_counts(front, i);
        assert(s[s.len() - 1].0@ != s[i].0@);
    }
}

/// A new event has what it was made with, no parent and no metadata.
pub proof fn law_new_event_is_plain(
    id: EventId,
    time: Timestamp,
    kind: Seq<char>,
    payload: JsonView,
    key: Seq<char>,
)
    ensures
        ({
            let e = event::plain_event(id, time, kind, payload);
            &&& e.id == id
            &&& e.timestamp == time
            &&& e.kind == kind
            &&& e.payload == payload
            &&& e.parent_event_id is None
            &&& e.meta(key) is None
            &&& e.meta_text(key) is None
        }),
{
}

/// Metadata that an event is given is read under its key; the rest of the event stays.
pub proof fn law_metadata_is_read(e: EventView, key: Seq<char>, value: JsonView, other: Seq<char>)
    ensures
        ({
            let r = e.with_meta(key, value);
            &&& r.meta(key) == Some(value)
            &&& value matches JsonView::Text(t) ==> r.meta_text(key) == Some(t)
            &&& !(value is Text) ==> r.meta_text(key) is None
            &&& other != key ==> r.meta(other) == e.meta(other)
            &&& r.id == e.id
            &&& r.timestamp == e.timestamp
            &&& r.kind == e.kind
            &&& r.payload == e.payload
            &&& r.parent_event_id == e.parent_event_id
        }),
{
}

/// Every kind of event goes by its name on the wire.
pub proof fn law_kinds_have_their_names()
    ensures
        kinds::USER_MESSAGE@ == "user.message"@,
        kinds::ASSISTANT_MESSAGE@ == "assistant.message"@,
        kinds::TOOL_CALL_PROPOSED@ == "tool.call.proposed"@,
        kinds::TOOL_RESULT@ == "tool.result"@,
        kinds::SYSTEM_HEARTBEAT@ == "system.heartbeat"@,
        kinds::SYSTEM_MESSAGE@ == "system.message"@,
        kinds::AGENT_CYCLE_START@ == "agent.cycle.start"@,
        kinds::AGENT_CYCLE_END@ == "agent.cycle.end"@,
        kinds::CHECKPOINT@ == "system.checkpoint"@,
        kinds::BRANCH_SEALED@ == "system.branch_sealed"@,
        kinds::SYSTEM_ROLLBACK@ == "system.rollback"@,
        kinds::SYSTEM_PRUNED@ == "system.pruned"@,
        kinds::AGENT_MESSAGE@ == "agent.message"@,
        kinds::AGENT_SPAWNED@ == "agent.spawned"@,
        kinds::AGENT_COMPLETED@ == "agent.completed"@,
        kinds::AGENT_STUCK@ == "agent.stuck"@,
        kinds::AGENT_CONTEXT_SUMMARIZED@ == "agent.context.summarized"@,
        kinds::ASSISTANT_DELTA@ == "assistant.delta"@,
        kinds::PERMISSION_REQUEST@ == "permission.request"@,
        kinds::PERMISSION_DECISION@ == "permission.decision"@,
        kinds::BUDGET_WARNING@ == "budget.warning"@,
        kinds::BUDGET_EXHAUSTED@ == "budget.exhausted"@,
        kinds::MCP_ELICITATION_REQUEST@ == "mcp.elicitation.request"@,
        kinds::MCP_ELICITATION_RESPONSE@ == "mcp.elicitation.response"@,
        kinds::MCP_TOOLS_CHANGED@ == "mcp.tools.changed"@,
        kinds::SYSTEM_RECOVERED@ == "system.recovered"@,
        kinds::SPECULATION_COMPLETED@ == "speculation.completed"@,
        kinds::SYSTEM_EPITAPH@ == "system.epitaph"@,
        kinds::CONTEXT_ASSEMBLED@ == "agent.context.assembled"@,
        component::COMPONENT_LOADED@ == "component.loaded"@,
        component::COMPONENT_UNLOADED@ == "component.unloaded"@,
        component::COMPONENT_PENDING@ == "component.pending"@,
{
}

/// Every key of metadata goes by its name on the wire.
pub proof fn law_keys_have_their_names()
    ensures
        meta_keys::AGENT_ID@ == "agent_id"@,
        meta_keys::TRACE_ID@ == "trace_id"@,
        meta_keys::TO_AGENT_ID@ == "to_agent_id"@,
        meta_keys::ELAPSED_MS@ == "elapsed_ms"@,
        meta_keys::LLM_INPUT_TOKENS@ == "llm_input_tokens"@,
        meta_keys::LLM_OUTPUT_TOKENS@ == "llm_output_tokens"@,
        meta_keys::LLM_CACHED_INPUT_TOKENS@ == "llm_cached_input_tokens"@,
        meta_keys::LLM_ESTIMATED_INPUT_TOKENS@ == "llm_estimated_input_tokens"@,
        meta_keys::EPHEMERAL@ == "ephemeral"@,
        distributed::ORIGIN_NODE_KEY@ == "origin_node"@,
        bridge::BRIDGE_HOPS_KEY@ == "bridge_hops"@,
{
}

/// Names in order ascend: each stands before every later one, and none stands twice.
pub proof fn law_ordered_names_ascend(names: Set<Seq<char>>, i: int, j: int)
    requires
        names.finite(),
        0 <= i < j < table::ordered(names).len(),
    ensures
        text::text_before(table::ordered(names)[i], table::ordered(names)[j]),
        names.contains(table::ordered(names)[i]),
        forall|k: Seq<char>| #[trigger] names.contains(k) ==> table::ordered(names).contains(k),
{
    table::law_every_set_has_an_order(names);
    assert(table::ordered(names).contains(table::ordered(names)[i]));
}

} // verus!
