//! Laws of tool calls: what becomes of each call of a batch.
use crate::agent::hook::HookAction;
use crate::agent::strategy;
use crate::agent::strategy::{
    LoopMove, PlanView, Preflight, ReactStrategy, StepEvent, StepOutcome, StepPhase, ToolOutcome,
    VetoView,
};
use crate::event::{EventId, EventView};
use crate::json;
use crate::json::JsonView;
use crate::laws::texts;
use crate::llm::types::{DeltaView, ResponseView, Role, ToolCallView};
use crate::text;
use vstd::prelude::*;

verus! {

proof fn lemma_result_keys()
    ensures
        "tool_call_id"@ != "name"@,
        "tool_call_id"@ != "result"@,
        "tool_call_id"@ != "error"@,
        "name"@ != "result"@,
        "name"@ != "error"@,
        "result"@ != "error"@,
{
    reveal_strlit("tool_call_id");
    reveal_strlit("name");
    reveal_strlit("result");
    reveal_strlit("error");
    assert("tool_call_id"@.len() == 12 && "name"@.len() == 4 && "result"@.len() == 6
        && "error"@.len() == 5);
}

proof fn lemma_outcome_at(done: Seq<(usize, JsonView)>, k: int)
    requires
        0 <= k < done.len(),
        forall|j: int| k < j < done.len() ==> (#[trigger] done[j]).0 != done[k].0,
    ensures
        strategy::outcome_at(done, done[k].0 as int) == Some(done[k].1),
    decreases done.len(),
{
    if k < done.len() - 1 {
        assert(done[done.len() - 1].0 != done[k].0);
        let front = done.drop_last();
        assert forall|j: int| k < j < front.len() implies (#[trigger] front[j]).0 != front[k].0 by {
            assert(done[j].0 != done[k].0);
        }
        lemma_outcome_at(front, k);
    }
}

proof fn lemma_no_outcome(done: Seq<(usize, JsonView)>, index: int)
    requires
        forall|j: int| 0 <= j < done.len() ==> (#[trigger] done[j]).0 != index,
    ensures
        strategy::outcome_at(done, index) is None,
    decreases done.len(),
{
    if done.len() > 0 {
        assert(done[done.len() - 1].0 != index);
        let front = done.drop_last();
        assert forall|j: int| 0 <= j < front.len() implies (#[trigger] front[j]).0 != index by {
            assert(done[j].0 != index);
        }
        lemma_no_outcome(front, index);
    }
}

/// A call that nothing vetoed is answered with exactly the payload of its outcome. Only
/// one without an outcome is reported as panicked.
pub proof fn law_outcome_is_the_answer(
    plan: Seq<PlanView>,
    done: Seq<(usize, JsonView)>,
    i: int,
)
    requires
        0 <= i < plan.len(),
        plan[i].veto is None,
    ensures
        forall|k: int|
            0 <= k < done.len() && (#[trigger] done[k]).0 == i && (forall|j: int|
                k < j < done.len() ==> (#[trigger] done[j]).0 != i) ==> strategy::batch_results(
                plan,
                done,
            )[i].payload == done[k].1,
        (forall|j: int| 0 <= j < done.len() ==> (#[trigger] done[j]).0 != i) ==> {
            let p = strategy::batch_results(plan, done)[i].payload;
            &&& p.text_at("tool_call_id"@) == Some(plan[i].id)
            &&& p.text_at("name"@) == Some(plan[i].name)
            &&& p.text_at("error"@) == Some("tool execution panicked and produced no result"@)
            &&& p.get("result"@) is None
        },
{
    lemma_result_keys();
    assert forall|k: int|
        0 <= k < done.len() && (#[trigger] done[k]).0 == i && (forall|j: int|
            k < j < done.len() ==> (#[trigger] done[j]).0 != i) implies strategy::batch_results(
        plan,
        done,
    )[i].payload == done[k].1 by {
        lemma_outcome_at(done, k);
    }
    if forall|j: int| 0 <= j < done.len() ==> (#[trigger] done[j]).0 != i {
        lemma_no_outcome(done, i);
    }
}

/// What is written of an outcome: whose it is, and the value of a tool that finished,
/// the error of one that failed, or that there is no such tool.
pub proof fn law_outcome_is_written(
    id: Seq<char>,
    name: Seq<char>,
    outcome: ToolOutcome,
    max: Option<usize>,
)
    ensures
        ({
            let p = strategy::outcome_payload(id, name, outcome, max);
            &&& p.text_at("tool_call_id"@) == Some(id)
            &&& p.text_at("name"@) == Some(name)
            &&& match outcome {
                ToolOutcome::Finished(v) => {
                    &&& p.get("error"@) is None
                    &&& (max matches Some(n) ==> text::byte_len(json::json_text(v@)) <= n)
                        ==> p.get("result"@) == Some(v@)
                },
                ToolOutcome::Failed(e) => p.get("result"@) is None && p.text_at("error"@) == Some(
                    e@,
                ),
                ToolOutcome::NotRegistered => p.get("result"@) is None && p.text_at("error"@)
                    == Some("tool '"@ + name + "' not registered"@),
            }
        }),
{
    lemma_result_keys();
}

/// An executed call is answered with what its execution gave: the value of a tool that
/// finished, within the size limit, and the error of one that failed.
pub proof fn law_executed_call_gets_its_outcome(
    plan: Seq<PlanView>,
    outcomes: Seq<(usize, ToolOutcome)>,
    max: Option<usize>,
    i: int,
    k: int,
)
    requires
        0 <= i < plan.len(),
        plan[i].veto is None,
        0 <= k < outcomes.len(),
        outcomes[k].0 == i,
        forall|j: int| k < j < outcomes.len() ==> (#[trigger] outcomes[j]).0 != i,
    ensures
        ({
            let done = outcomes.map_values(
                |o: (usize, ToolOutcome)|
                    (
                        o.0,
                        strategy::outcome_payload(
                            plan[o.0 as int].id,
                            plan[o.0 as int].name,
                            o.1,
                            max,
                        ),
                    ),
            );
            let p = strategy::batch_results(plan, done)[i].payload;
            &&& p.text_at("tool_call_id"@) == Some(plan[i].id)
            &&& p.text_at("name"@) == Some(plan[i].name)
            &&& outcomes[k].1 matches ToolOutcome::Finished(v) ==> p.get("error"@) is None && ((max
                matches Some(n) ==> text::byte_len(json::json_text(v@)) <= n) ==> p.get("result"@)
                == Some(v@))
            &&& outcomes[k].1 matches ToolOutcome::Failed(e) ==> p.text_at("error"@) == Some(e@)
                && p.get("result"@) is None
        }),
{
    let done = outcomes.map_values(
        |o: (usize, ToolOutcome)|
            (
                o.0,
                strategy::outcome_payload(plan[o.0 as int].id, plan[o.0 as int].name, o.1, max),
            ),
    );
    assert(done[k].0 == i);
    assert forall|j: int| k < j < done.len() implies (#[trigger] done[j]).0 != i by {
        assert(outcomes[j].0 != i);
    }
    law_outcome_is_the_answer(plan, done, i);
    law_outcome_is_written(plan[i].id, plan[i].name, outcomes[k].1, max);
}

/// A text that is cut in the middle keeps its beginning and its end, at most seven tenths
/// before the cut, and tells how much of how much is left out.
pub proof fn law_cut_tells_what_is_left_out(s: Seq<char>, max: int)
    requires
        0 <= max < text::byte_len(s),
    ensures
        exists|p: int, q: int|
            {
                &&& 0 <= p <= q <= s.len()
                &&& 10 * text::byte_len(#[trigger] s.take(p)) <= 7 * max
                &&& text::byte_len(s.take(p)) + text::byte_len(s.skip(q)) <= max
                &&& s.take(p).is_prefix_of(strategy::middle_truncated(s, max))
                &&& (#[trigger] s.skip(q)).is_suffix_of(strategy::middle_truncated(s, max))
                &&& text::contains(
                    strategy::middle_truncated(s, max),
                    text::decimal((text::byte_len(s.take(q)) - text::byte_len(s.take(p))) as nat)
                        + " of "@ + text::decimal(text::byte_len(s)),
                )
            },
{
    strategy::law_truncation_keeps_ends(s, max);
    let p = strategy::head_end(s, max);
    let q = strategy::tail_start(s, max);
    let kept = strategy::kept_bytes(text::byte_len(s), max);
    texts::law_as_much_as_fits(s, strategy::head_share(kept));
    let e = (text::byte_len(s.take(q)) - text::byte_len(s.take(p))) as nat;
    let word = text::decimal(e) + " of "@ + text::decimal(text::byte_len(s));
    let mark = strategy::elision_mark(e, text::byte_len(s));
    let n = "\n…["@.len() as int;
    assert(mark.subrange(n, n + word.len()) =~= word);
    assert(text::occurs_at(mark, word, n));
    texts::law_contained_in_a_part(s.take(p), mark, word);
    texts::law_contained_in_a_part(s.take(p) + mark, s.skip(q), word);
    assert(10 * text::byte_len(s.take(p)) <= 7 * max);
}

/// A value that is too large is kept as a text of at most the limit, from a limit of
/// 1000 on: it starts and ends as the value's text does.
pub proof fn law_large_value_is_cut(v: JsonView, n: usize)
    requires
        text::byte_len(json::json_text(v)) > n,
        n >= 1000,
        v matches JsonView::Text(t) ==> text::byte_len(t) <= u64::MAX,
        text::byte_len(json::json_text(v)) <= u64::MAX,
    ensures
        strategy::capped(v, Some(n)) is Text,
        text::byte_len(strategy::capped(v, Some(n))->Text_0) <= n,
{
    match v {
        JsonView::Text(t) => {
            strategy::law_truncation_is_bounded(t, n as int);
        },
        _ => {
            strategy::law_truncation_is_bounded(json::json_text(v), n as int);
        },
    }
}

/// A vetoed call is told why, and what the tool would have given is not.
pub proof fn law_veto_is_told(plan: Seq<PlanView>, done: Seq<(usize, JsonView)>, i: int)
    requires
        0 <= i < plan.len(),
        plan[i].veto is Some,
    ensures
        ({
            let p = strategy::batch_results(plan, done)[i].payload;
            &&& p.text_at("tool_call_id"@) == Some(plan[i].id)
            &&& p.text_at("name"@) == Some(plan[i].name)
            &&& match plan[i].veto->0 {
                VetoView::Skipped => {
                    &&& p.get("error"@) is None
                    &&& p.get("result"@) is Some
                    &&& p.get("result"@)->0.get("skipped"@) == Some(JsonView::Bool(true))
                    &&& p.get("result"@)->0.text_at("reason"@) == Some("vetoed by hook"@)
                },
                VetoView::Denied(reason) => {
                    &&& p.get("error"@) is None
                    &&& p.get("result"@) is Some
                    &&& p.get("result"@)->0.get("denied"@) == Some(JsonView::Bool(true))
                    &&& p.get("result"@)->0.text_at("reason"@) == Some(reason)
                },
                VetoView::BadArgs(error) => {
                    &&& p.get("result"@) is None
                    &&& p.text_at("error"@) == Some(error)
                },
            }
        }),
{
    lemma_result_keys();
    reveal_strlit("skipped");
    reveal_strlit("denied");
    reveal_strlit("reason");
    assert("skipped"@.len() == 7 && "denied"@.len() == 6 && "reason"@.len() == 6 && "denied"@[0]
        == 'd' && "reason"@[0] == 'r');
}

/// The hooks see the result field of what is published, or all of it where there is
/// none, and each result answers the proposal of its own call.
pub proof fn law_hooks_see_the_result(plan: Seq<PlanView>, done: Seq<(usize, JsonView)>, i: int)
    requires
        0 <= i < plan.len(),
    ensures
        strategy::batch_results(plan, done).len() == plan.len(),
        strategy::batch_results(plan, done)[i].parent == plan[i].proposed_event_id,
        ({
            let r = strategy::batch_results(plan, done)[i];
            match r.payload.get("result"@) {
                Some(v) => r.shown == v,
                None => r.shown == r.payload,
            }
        }),
{
}

/// A call is executed exactly where the hooks let it go on; a denial carries its reason,
/// and a call that is not executed ends no cycle.
pub proof fn law_hooks_decide(
    c: ToolCallView,
    proposed: EventId,
    args: JsonView,
    answer: HookAction,
    terminal: bool,
)
    ensures
        ({
            let p = strategy::answered_call(c, proposed, args, answer, terminal);
            &&& p.id == c.id
            &&& p.name == c.name
            &&& p.args == args
            &&& p.proposed_event_id == proposed
            &&& p.veto is None <==> answer is Continue
            &&& answer matches HookAction::Deny(reason) ==> p.veto == Some(
                VetoView::Denied(reason@),
            )
            &&& p.veto is Some ==> !p.is_terminal
            &&& p.veto is None ==> p.is_terminal == terminal
        }),
{
}

/// Arguments that are no JSON never reach the hooks: the call is planned with an error
/// that says what is wrong. Any others go on as they were read.
pub proof fn law_bad_arguments_end_a_call(
    r: Preflight,
    c: ToolCallView,
    proposed: EventId,
    parsed: Result<JsonView, Seq<char>>,
    checks: bool,
)
    requires
        strategy::begins(r, c, proposed, parsed, checks),
    ensures
        match parsed {
            Err(e) => {
                &&& r is Planned
                &&& r->Planned_0@.id == c.id
                &&& r->Planned_0@.name == c.name
                &&& r->Planned_0@.proposed_event_id == proposed
                &&& !r->Planned_0@.is_terminal
                &&& r->Planned_0@.veto is Some
                &&& r->Planned_0@.veto->0 is BadArgs
                &&& text::contains(r->Planned_0@.veto->0->BadArgs_0, e)
            },
            Ok(args) => if checks {
                r is CheckSchema && r->CheckSchema_0@ == args
            } else {
                r is AskHooks && r->AskHooks_0@ == args
            },
        },
{
    if let Err(e) = parsed {
        let t = strategy::bad_json_error(e);
        let n = "invalid JSON in tool arguments: "@.len() as int;
        assert(t.subrange(n, n + e.len()) =~= e);
        assert(text::occurs_at(t, e, n));
    }
}

/// A violation of the schema is told to the model.
pub proof fn law_violation_is_told(violation: Seq<char>)
    ensures
        violation.is_prefix_of(strategy::schema_error(violation)),
        strategy::schema_error(violation).len() > violation.len(),
{
    reveal_strlit(". Re-issue the call with corrected arguments.");
}

/// A proposal names the call, the tool and the arguments.
pub proof fn law_proposal_names_the_call(c: ToolCallView)
    ensures
        strategy::proposal(c).text_at("tool_call_id"@) == Some(c.id),
        strategy::proposal(c).text_at("name"@) == Some(c.name),
        strategy::proposal(c).text_at("arguments"@) == Some(c.arguments),
{
    lemma_result_keys();
    reveal_strlit("tool_call_id");
    reveal_strlit("name");
    reveal_strlit("arguments");
    assert("tool_call_id"@.len() == 12 && "name"@.len() == 4 && "arguments"@.len() == 9);
}

/// Every event of a cycle carries the agent and the trace, and is otherwise as it was.
pub proof fn law_events_are_tagged(e: EventView, agent_id: Seq<char>, trace_id: Seq<char>)
    ensures
        ({
            let r = strategy::tagged(e, agent_id, trace_id);
            &&& r.meta_text("agent_id"@) == Some(agent_id)
            &&& r.meta_text("trace_id"@) == Some(trace_id)
            &&& r.id == e.id
            &&& r.timestamp == e.timestamp
            &&& r.kind == e.kind
            &&& r.payload == e.payload
            &&& r.parent_event_id == e.parent_event_id
            &&& forall|k: Seq<char>|
                k != "agent_id"@ && k != "trace_id"@ ==> #[trigger] r.meta(k) == e.meta(k)
        }),
{
    reveal_strlit("agent_id");
    reveal_strlit("trace_id");
    assert("agent_id"@[0] == 'a' && "trace_id"@[0] == 't');
}

/// A streamed piece is written with what it brings and nothing else.
pub proof fn law_piece_is_written(d: DeltaView)
    ensures
        strategy::delta_payload(d).text_at("content"@) == d.content,
        strategy::delta_payload(d).text_at("reasoning_content"@) == d.reasoning_content,
{
    reveal_strlit("content");
    reveal_strlit("reasoning_content");
    assert("content"@.len() == 7 && "reasoning_content"@.len() == 17);
}

/// A reply is written with its text, its calls in order, its reasoning and the blocks of
/// its provider.
pub proof fn law_reply_is_written(response: ResponseView)
    ensures
        ({
            let p = strategy::assistant_payload(response, None);
            &&& p.text_at("content"@) == response.content
            &&& p.text_at("reasoning_content"@) == response.reasoning_content
            &&& p.get("provider_extra"@) == response.provider_extra
            &&& p.array_at("tool_calls"@) is Some
            &&& p.array_at("tool_calls"@)->0.len() == response.tool_calls.len()
            &&& forall|i: int|
                0 <= i < response.tool_calls.len() ==> (#[trigger] p.array_at(
                    "tool_calls"@,
                )->0[i]).text_at("id"@) == Some(response.tool_calls[i].id)
        }),
{
    reveal_strlit("content");
    reveal_strlit("reasoning_content");
    reveal_strlit("provider_extra");
    reveal_strlit("tool_calls");
    reveal_strlit("id");
    reveal_strlit("type");
    reveal_strlit("function");
    reveal_strlit("extra_content");
    assert("content"@.len() == 7 && "reasoning_content"@.len() == 17 && "provider_extra"@.len()
        == 14 && "tool_calls"@.len() == 10 && "id"@.len() == 2 && "type"@.len() == 4
        && "function"@.len() == 8 && "extra_content"@.len() == 13);
}

/// The usage of a reply stands in the metadata of its event; what was not reported counts
/// as nothing.
pub proof fn law_usage_is_recorded(e: EventView, response: ResponseView, estimated: int)
    ensures
        ({
            let r = strategy::with_usage(e, response, estimated);
            &&& r.payload == e.payload
            &&& r.kind == e.kind
            &&& r.id == e.id
            &&& r.meta("llm_input_tokens"@) == Some(
                JsonView::Int(
                    match response.input_tokens {
                        Some(n) => n as int,
                        None => 0,
                    },
                ),
            )
            &&& r.meta("llm_output_tokens"@) == Some(
                JsonView::Int(
                    match response.output_tokens {
                        Some(n) => n as int,
                        None => 0,
                    },
                ),
            )
            &&& r.meta("llm_estimated_input_tokens"@) == Some(JsonView::Int(estimated))
            &&& response.cached_input_tokens matches Some(n) ==> r.meta(
                "llm_cached_input_tokens"@,
            ) == Some(JsonView::Int(n as int))
        }),
{
    reveal_strlit("llm_input_tokens");
    reveal_strlit("llm_output_tokens");
    reveal_strlit("llm_estimated_input_tokens");
    reveal_strlit("llm_cached_input_tokens");
    assert("llm_input_tokens"@.len() == 16 && "llm_output_tokens"@.len() == 17
        && "llm_estimated_input_tokens"@.len() == 26 && "llm_cached_input_tokens"@.len() == 23);
}

/// A step goes from the hooks to the context, to the hooks again, to the model and to the
/// tools, each only where what came before lets it.
pub proof fn law_step_goes_in_order(event: StepEvent)
    ensures
        strategy::next_phase(event) == StepPhase::Assemble <==> event == (StepEvent::StepHooks(
            HookAction::Continue,
        )),
        strategy::next_phase(event) == StepPhase::AskLlmHooks <==> (event matches StepEvent::Assembled {
            messages,
        } && messages > 0),
        strategy::next_phase(event) == StepPhase::CallLlm <==> event == (StepEvent::LlmHooks(
            HookAction::Continue,
        )),
        strategy::next_phase(event) == StepPhase::ExecuteTools <==> (event matches StepEvent::Replied {
            tool_calls,
        } && tool_calls > 0),
{
}

/// The nudge to wrap up is a user message of the harness with the library's text.
pub proof fn law_nudge_is_the_librarys(library: Map<Seq<char>, Seq<char>>, text: Seq<char>)
    requires
        library.contains_key("loop.wrap_up"@),
        library["loop.wrap_up"@] == text,
    ensures
        strategy::wrap_up(library).role == Role::User,
        strategy::wrap_up(library).content == Some(text),
        strategy::wrap_up(library).name == Some("harness"@),
        strategy::wrap_up(library).tool_calls is None,
{
}

/// A cycle goes on until a step is the last or the steps are used up; then the model is
/// asked for a last answer where that is wanted, and the cycle fails where it is not.
pub proof fn law_cycle_ends(s: ReactStrategy, done: usize, last: StepOutcome)
    ensures
        s.next_move(0, last) == if s.max_steps > 0 {
            LoopMove::Step(1)
        } else if s.finalize_on_max_steps {
            LoopMove::Finalize
        } else {
            LoopMove::GiveUp(0)
        },
        done > 0 && last == StepOutcome::Done ==> s.next_move(done, last) is Finish,
        s.next_move(done, last) is Finish ==> done > 0 && last == StepOutcome::Done,
        0 < done < s.max_steps && last == StepOutcome::Continue ==> s.next_move(done, last)
            == LoopMove::Step((done + 1) as usize),
        s.next_move(done, last) is Finalize ==> s.finalize_on_max_steps && done >= s.max_steps,
        s.next_move(done, last) is GiveUp ==> !s.finalize_on_max_steps && done >= s.max_steps
            && s.next_move(done, last)->GiveUp_0 == s.max_steps,
{
}

} // verus!
