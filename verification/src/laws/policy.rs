//! Laws of the hooks: permissions, loops and budgets.
use crate::agent::budget;
use crate::agent::budget::BudgetScope;
use crate::agent::permission;
use crate::agent::permission::{VerdictView, Waited};
use crate::agent::stuck;
use crate::agent::stuck::StuckKind;
use crate::event::EventView;
use crate::json::JsonView;
use crate::llm::types::Role;
use crate::seqs;
use crate::text;
use vstd::prelude::*;

verus! {

/// A pattern that ends in a literal fits what ends in it.
pub proof fn law_suffix_pattern(suffix: Seq<char>, t: Seq<char>)
    requires
        !suffix.contains('*'),
    ensures
        permission::glob(seq!['*'] + suffix, t) <==> suffix.is_suffix_of(t),
    decreases t.len(),
{
    let p = seq!['*'] + suffix;
    assert(p.skip(1) =~= suffix);
    permission::law_literal_matches_itself(suffix, t);
    if t.len() > 0 {
        law_suffix_pattern(suffix, t.skip(1));
        if suffix.is_suffix_of(t.skip(1)) {
            assert(suffix =~= t.skip(1).subrange(t.len() - 1 - suffix.len(), t.len() - 1));
            assert(t.subrange(t.len() - suffix.len(), t.len() as int) =~= suffix);
        }
        if suffix.is_suffix_of(t) {
            if suffix.len() == t.len() {
                assert(suffix =~= t);
            } else {
                assert(t.skip(1).subrange(t.len() - 1 - suffix.len(), t.len() - 1) =~= t.subrange(
                    t.len() - suffix.len(),
                    t.len() as int,
                ));
            }
        }
        if suffix == t {
            assert(suffix.is_suffix_of(t));
        }
    } else {
        if suffix.is_suffix_of(t) {
            assert(suffix =~= t);
        }
    }
}

/// A literal before a pattern has to stand before what the pattern fits.
pub proof fn law_literal_before_a_pattern(c: char, pattern: Seq<char>, t: Seq<char>)
    requires
        c != '*',
    ensures
        permission::glob(seq![c] + pattern, t) <==> t.len() > 0 && t[0] == c && permission::glob(
            pattern,
            t.skip(1),
        ),
{
    assert((seq![c] + pattern).skip(1) =~= pattern);
}

/// A star before a pattern fits any text before what the pattern fits.
pub proof fn law_star_before_a_pattern(pattern: Seq<char>, t: Seq<char>)
    ensures
        permission::glob(seq!['*'] + pattern, t) <==> exists|i: int|
            0 <= i <= t.len() && permission::glob(pattern, #[trigger] t.skip(i)),
    decreases t.len(),
{
    let p = seq!['*'] + pattern;
    assert(p.skip(1) =~= pattern);
    assert(t.skip(0) =~= t);
    if t.len() > 0 {
        law_star_before_a_pattern(pattern, t.skip(1));
        if permission::glob(p, t.skip(1)) {
            let i = choose|i: int|
                0 <= i <= t.skip(1).len() && permission::glob(pattern, #[trigger] t.skip(1).skip(i));
            assert(t.skip(1).skip(i) =~= t.skip(i + 1));
            assert(permission::glob(pattern, t.skip(i + 1)));
        }
        if exists|i: int| 0 <= i <= t.len() && permission::glob(pattern, #[trigger] t.skip(i)) {
            let i = choose|i: int|
                0 <= i <= t.len() && permission::glob(pattern, #[trigger] t.skip(i));
            if i > 0 {
                assert(t.skip(1).skip(i - 1) =~= t.skip(i));
                assert(permission::glob(pattern, t.skip(1).skip(i - 1)));
            }
        }
    }
}

/// The first rule that fits a tool decides; where none fits, the default does.
pub proof fn law_first_rule_decides(
    rules: Seq<(Seq<char>, VerdictView)>,
    default_verdict: VerdictView,
    tool: Seq<char>,
    i: int,
)
    requires
        0 <= i <= rules.len(),
        forall|k: int| 0 <= k < i ==> !permission::glob((#[trigger] rules[k]).0, tool),
        i < rules.len() ==> permission::glob(rules[i].0, tool),
    ensures
        permission::verdict(rules, default_verdict, tool) == (if i < rules.len() {
            rules[i].1
        } else {
            default_verdict
        }),
    decreases rules.len(),
{
    if rules.len() > 0 && i > 0 {
        assert(!permission::glob(rules[0].0, tool));
        let rest = rules.skip(1);
        assert forall|k: int| 0 <= k < i - 1 implies !permission::glob(
            (#[trigger] rest[k]).0,
            tool,
        ) by {
            assert(rest[k] == rules[k + 1]);
        }
        if i < rules.len() {
            assert(rest[i - 1] == rules[i]);
        }
        law_first_rule_decides(rest, default_verdict, tool, i - 1);
    }
}

/// A request for approval names itself, the tool, the arguments and the agent.
pub proof fn law_request_names_the_call(
    request_id: Seq<char>,
    tool: Seq<char>,
    args: JsonView,
    agent_id: Seq<char>,
)
    ensures
        ({
            let r = permission::request_json(request_id, tool, args, agent_id);
            &&& r.text_at("request_id"@) == Some(request_id)
            &&& r.text_at("tool"@) == Some(tool)
            &&& r.get("arguments"@) == Some(args)
            &&& r.text_at("agent_id"@) == Some(agent_id)
        }),
{
    reveal_strlit("request_id");
    reveal_strlit("tool");
    reveal_strlit("arguments");
    reveal_strlit("agent_id");
    assert("request_id"@.len() == 10 && "tool"@.len() == 4 && "arguments"@.len() == 9
        && "agent_id"@.len() == 8);
}

/// Only a decision on the same request ends the wait: an approval lets the call go on, a
/// refusal gives the approver's reason. A wait that ends otherwise refuses.
pub proof fn law_wait_ends_with_the_decision(
    waited: Waited,
    request_id: Seq<char>,
    tool: Seq<char>,
    timeout_ms: int,
)
    ensures
        ({
            let a = permission::answer(waited, request_id, tool, timeout_ms);
            match waited {
                Waited::Received(e) => if e@.kind == "permission.decision"@ && e@.payload.text_at(
                    "request_id"@,
                ) == Some(request_id) {
                    &&& a is Some
                    &&& a->0 is None <==> e@.payload.get("approve"@) == Some(JsonView::Bool(true))
                    &&& e@.payload.get("approve"@) != Some(JsonView::Bool(true)) ==> (
                    e@.payload.text_at("reason"@) matches Some(t) ==> a == Some(Some(t)))
                } else {
                    a is None
                },
                Waited::TimedOut => a is Some && a->0 is Some && text::contains(a->0->0, tool)
                    && text::contains(a->0->0, text::decimal((timeout_ms / 1000) as nat)),
                Waited::Closed => a is Some && a->0 is Some,
                Waited::Unpublished(e) => a is Some && a->0 is Some && e@.is_suffix_of(a->0->0),
            }
        }),
{
    let x = "approval for '"@;
    let y = "' timed out after "@;
    let d = text::decimal((timeout_ms / 1000) as nat);
    let t = x + tool + y + d + "s; proceed without this tool or ask the user to respond"@;
    let n = x.len() as int;
    assert(t.subrange(n, n + tool.len()) =~= tool);
    assert(text::occurs_at(t, tool, n));
    let k = (x.len() + tool.len() + y.len()) as int;
    assert(t.subrange(k, k + d.len()) =~= d);
    assert(text::occurs_at(t, d, k));
}

/// A run at the end is as long as it is: its items are equal, and the one before is not.
pub proof fn law_run_is_counted<A>(s: Seq<A>, x: A)
    ensures
        ({
            let n = stuck::trailing(s, x) as int;
            &&& 0 <= n <= s.len()
            &&& forall|i: int| s.len() - n <= i < s.len() ==> #[trigger] s[i] == x
            &&& n < s.len() ==> s[s.len() - n - 1] != x
        }),
    decreases s.len(),
{
    if s.len() > 0 && s.last() == x {
        let front = s.drop_last();
        law_run_is_counted(front, x);
        let n = stuck::trailing(s, x) as int;
        assert forall|i: int| s.len() - n <= i < s.len() implies #[trigger] s[i] == x by {
            if i < front.len() {
                assert(front[i] == s[i]);
            }
        }
        if n < s.len() {
            assert(front[s.len() - n - 1] == s[s.len() - n - 1]);
        }
    }
}

/// What a log holds is read event by event: a proposal with its name and arguments, a
/// result with its error; nothing of other kinds.
pub proof fn law_attempts_are_read(a: Seq<EventView>, e: EventView)
    ensures
        e.kind == "tool.call.proposed"@ && e.payload.text_at("name"@) is Some && e.payload.text_at(
            "arguments"@,
        ) is Some ==> stuck::proposals(a.push(e)) == stuck::proposals(a).push(
            Some((e.payload.text_at("name"@)->0, e.payload.text_at("arguments"@)->0)),
        ),
        e.kind != "tool.call.proposed"@ ==> stuck::proposals(a.push(e)) == stuck::proposals(a),
        e.kind == "tool.result"@ ==> stuck::result_errors(a.push(e)) == stuck::result_errors(
            a,
        ).push(e.payload.text_at("error"@)),
        e.kind != "tool.result"@ ==> stuck::result_errors(a.push(e)) == stuck::result_errors(a),
{
    seqs::lemma_filter_map_push(a, |e: EventView| stuck::proposal_of(e), e);
    seqs::lemma_filter_map_push(a, |e: EventView| stuck::result_of(e), e);
}

/// The same proposal three times in a row is a loop, unless the context is full.
pub proof fn law_repeated_action_is_a_loop(
    tail: Seq<EventView>,
    name: Seq<char>,
    args: Seq<char>,
)
    requires
        stuck::proposals(tail).len() >= 3,
        forall|i: int|
            stuck::proposals(tail).len() - 3 <= i < stuck::proposals(tail).len() ==> #[trigger] stuck::proposals(
                tail,
            )[i] == Some((name, args)),
        stuck::context_errors(tail) < 2,
    ensures
        stuck::diagnosis(tail) is Some,
        (stuck::diagnosis(tail)->0).0 == StuckKind::RepeatingAction,
        (stuck::diagnosis(tail)->0).1 >= 3,
{
    let s = stuck::proposals(tail);
    assert(s[s.len() - 1] == Some((name, args)));
    law_run_is_counted(s, Some((name, args)));
    let n = stuck::trailing(s, Some((name, args))) as int;
    if n < 3 {
        assert(s[s.len() - n - 1] == Some((name, args)));
    }
}

/// The same error three times in a row is a loop, where no action repeats.
pub proof fn law_repeated_error_is_a_loop(tail: Seq<EventView>, error: Seq<char>)
    requires
        stuck::result_errors(tail).len() >= 3,
        forall|i: int|
            stuck::result_errors(tail).len() - 3 <= i < stuck::result_errors(tail).len()
                ==> #[trigger] stuck::result_errors(tail)[i] == Some(error),
        stuck::context_errors(tail) < 2,
    ensures
        stuck::diagnosis(tail) is Some,
        (stuck::diagnosis(tail)->0).0 == StuckKind::RepeatingError || (stuck::diagnosis(tail)->0).0
            == StuckKind::RepeatingAction,
        (stuck::diagnosis(tail)->0).1 >= 3,
{
    let s = stuck::result_errors(tail);
    assert(s[s.len() - 1] == Some(error));
    law_run_is_counted(s, Some(error));
    let n = stuck::trailing(s, Some(error)) as int;
    if n < 3 {
        assert(s[s.len() - n - 1] == Some(error));
    }
}

/// A context that was full twice is a loop, whatever else repeats.
pub proof fn law_full_context_is_a_loop(tail: Seq<EventView>, e: EventView)
    ensures
        stuck::context_errors(tail) >= 2 ==> stuck::diagnosis(tail) == Some(
            (StuckKind::ContextWindowLoop, stuck::context_errors(tail)),
        ),
        stuck::context_errors(Seq::empty()) == 0,
        stuck::context_errors(tail.push(e)) == stuck::context_errors(tail) + (if e.kind
            == "tool.result"@ && e.payload.text_at("error"@) is Some && ({
            let lower = text::lowercase(e.payload.text_at("error"@)->0);
            text::contains(lower, "context length"@) || text::contains(lower, "context window"@)
                || text::contains(lower, "token limit"@) || text::contains(
                lower,
                "maximum context"@,
            )
        }) {
            1nat
        } else {
            0nat
        }),
{
    assert(tail.push(e).drop_last() =~= tail);
}

/// Four replies in a row without a tool call are a loop where nothing else is; three are
/// not.
pub proof fn law_monologue_is_a_loop(tail: Seq<EventView>)
    requires
        forall|i: int|
            0 <= i < tail.len() ==> (#[trigger] tail[i]).kind == "assistant.message"@
                && tail[i].payload.array_at("tool_calls"@) is None,
    ensures
        tail.len() >= 4 ==> stuck::diagnosis(tail) is Some && (stuck::diagnosis(tail)->0).0
            == StuckKind::Monologue,
        tail.len() < 4 ==> stuck::diagnosis(tail) is None,
{
    lemma_only_talk(tail);
}

proof fn lemma_only_talk(tail: Seq<EventView>)
    requires
        forall|i: int|
            0 <= i < tail.len() ==> (#[trigger] tail[i]).kind == "assistant.message"@,
    ensures
        stuck::context_errors(tail) == 0,
        stuck::proposals(tail).len() == 0,
        stuck::result_errors(tail).len() == 0,
    decreases tail.len(),
{
    reveal_strlit("assistant.message");
    reveal_strlit("tool.call.proposed");
    reveal_strlit("tool.result");
    assert("assistant.message"@.len() == 17 && "tool.call.proposed"@.len() == 18
        && "tool.result"@.len() == 11);
    if tail.len() > 0 {
        let front = tail.drop_last();
        let last = tail[tail.len() - 1];
        assert forall|i: int| 0 <= i < front.len() implies (#[trigger] front[i]).kind
            == "assistant.message"@ by {
            assert(front[i] == tail[i]);
        }
        lemma_only_talk(front);
        law_full_context_is_a_loop(front, last);
        law_attempts_are_read(front, last);
        assert(tail =~= front.push(last));
    }
}

/// The usage of a log is that of its events: input and output tokens of each one that
/// counts.
pub proof fn law_usage_is_summed(
    log: Seq<EventView>,
    e: EventView,
    agent_id: Seq<char>,
    input: u64,
    output: u64,
)
    requires
        e.meta("llm_input_tokens"@) is Some,
        e.meta("llm_input_tokens"@)->0.as_u64() == Some(input),
        e.meta("llm_output_tokens"@) is Some,
        e.meta("llm_output_tokens"@)->0.as_u64() == Some(output),
    ensures
        budget::used(Seq::empty(), BudgetScope::Session, agent_id) == 0,
        budget::used(log.push(e), BudgetScope::Session, agent_id) == budget::used(
            log,
            BudgetScope::Session,
            agent_id,
        ) + input + output,
        budget::used(log.push(e), BudgetScope::Agent, agent_id) == budget::used(
            log,
            BudgetScope::Agent,
            agent_id,
        ) + (if e.meta_text("agent_id"@) == Some(agent_id) {
            input + output
        } else {
            0
        }),
{
    assert(log.push(e).drop_last() =~= log);
}

/// An event without usage adds nothing.
pub proof fn law_other_events_use_nothing(
    log: Seq<EventView>,
    e: EventView,
    scope: BudgetScope,
    agent_id: Seq<char>,
)
    requires
        e.meta("llm_input_tokens"@) is None,
        e.meta("llm_output_tokens"@) is None,
    ensures
        budget::used(log.push(e), scope, agent_id) == budget::used(log, scope, agent_id),
{
    assert(log.push(e).drop_last() =~= log);
}

/// The report of a budget gives what was used and what there is; the note tells the model
/// both.
pub proof fn law_budget_is_reported(spent: nat, max: nat)
    ensures
        budget::budget_json(spent as int, max as int).get("used_tokens"@) == Some(
            JsonView::Int(spent as int),
        ),
        budget::budget_json(spent as int, max as int).get("max_tokens"@) == Some(
            JsonView::Int(max as int),
        ),
        budget::budget_note(spent, max).role == Role::User,
        budget::budget_note(spent, max).name == Some("harness"@),
        budget::budget_note(spent, max).content is Some,
        text::contains(budget::budget_note(spent, max).content->0, text::decimal(spent)),
        text::contains(budget::budget_note(spent, max).content->0, text::decimal(max)),
{
    reveal_strlit("used_tokens");
    reveal_strlit("max_tokens");
    assert("used_tokens"@.len() == 11 && "max_tokens"@.len() == 10);
    let x = "[harness] Token budget nearly exhausted ("@;
    let y = " of "@;
    let a = text::decimal(spent);
    let b = text::decimal(max);
    let t = budget::budget_note(spent, max).content->0;
    let n = x.len() as int;
    assert(t.subrange(n, n + a.len()) =~= a);
    assert(text::occurs_at(t, a, n));
    let k = (x.len() + a.len() + y.len()) as int;
    assert(t.subrange(k, k + b.len()) =~= b);
    assert(text::occurs_at(t, b, k));
}

/// What is spent is all that was used, up to the largest number.
pub proof fn law_spent_is_what_was_used(
    log: Seq<EventView>,
    scope: BudgetScope,
    agent_id: Seq<char>,
)
    ensures
        budget::used(log, scope, agent_id) <= u64::MAX ==> budget::used_capped(log, scope, agent_id)
            == budget::used(log, scope, agent_id),
        budget::used(log, scope, agent_id) > u64::MAX ==> budget::used_capped(log, scope, agent_id)
            == u64::MAX,
{
}

} // verus!
