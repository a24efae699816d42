//! Laws of recovery: which calls were interrupted, and how each is settled.
use crate::agent::permission;
use crate::agent::recovery;
use crate::agent::recovery::{OrphanView, RecoveryReport, RecoveryView, Resume, ResumePolicy};
use crate::event::EventView;
use crate::json::JsonView;
use crate::laws::anthropic as blocks;
use crate::seqs;
use crate::text;
use vstd::prelude::*;

verus! {

proof fn lemma_filter_has<A, B>(s: Seq<A>, f: spec_fn(A) -> Option<B>, i: int)
    requires
        0 <= i < s.len(),
        f(s[i]) is Some,
    ensures
        seqs::filter_map(s, f).contains(f(s[i])->0),
    decreases s.len(),
{
    let front = s.drop_last();
    let r = seqs::filter_map(s, f);
    if i < front.len() {
        assert(front[i] == s[i]);
        lemma_filter_has(front, f, i);
        let before = seqs::filter_map(front, f);
        let k = choose|k: int| 0 <= k < before.len() && before[k] == f(s[i])->0;
        assert(r[k] == f(s[i])->0);
    } else {
        assert(r[r.len() - 1] == f(s[i])->0);
    }
}

proof fn lemma_filter_from<A, B>(s: Seq<A>, f: spec_fn(A) -> Option<B>, k: int)
    requires
        0 <= k < seqs::filter_map(s, f).len(),
    ensures
        exists|i: int|
            0 <= i < s.len() && f(#[trigger] s[i]) == Some(seqs::filter_map(s, f)[k]),
    decreases s.len(),
{
    let front = s.drop_last();
    let before = seqs::filter_map(front, f);
    if k < before.len() {
        lemma_filter_from(front, f, k);
        let i = choose|i: int| 0 <= i < front.len() && f(#[trigger] front[i]) == Some(before[k]);
        assert(front[i] == s[i]);
    } else {
        assert(f(s[s.len() - 1]) == Some(seqs::filter_map(s, f)[k]));
    }
}

/// Every call that was proposed and never answered is found, with its ID, its name and its
/// arguments.
pub proof fn law_unanswered_call_is_found(log: Seq<EventView>, i: int, id: Seq<char>)
    requires
        0 <= i < log.len(),
        log[i].kind == "tool.call.proposed"@,
        log[i].payload.text_at("tool_call_id"@) == Some(id),
        forall|k: int|
            0 <= k < log.len() && (#[trigger] log[k]).kind == "tool.result"@
                ==> log[k].payload.text_at("tool_call_id"@) != Some(id),
    ensures
        exists|k: int|
            {
                &&& 0 <= k < recovery::orphans(log).len()
                &&& (#[trigger] recovery::orphans(log)[k]).tool_call_id == id
                &&& recovery::orphans(log)[k].name == blocks::text_in(
                    log[i].payload.text_at("name"@),
                )
                &&& log[i].payload.text_at("arguments"@) matches Some(t) ==> recovery::orphans(
                    log,
                )[k].arguments == t
                &&& log[i].payload.text_at("arguments"@) is None ==> recovery::orphans(
                    log,
                )[k].arguments == "{}"@
            },
{
    let f = |e: EventView| recovery::orphan_of(log, e);
    assert(!recovery::answered(log, id));
    lemma_filter_has(log, f, i);
    let o = f(log[i])->0;
    let k = choose|k: int| 0 <= k < recovery::orphans(log).len() && recovery::orphans(log)[k] == o;
    assert(recovery::orphans(log)[k].tool_call_id == id);
}

/// Nothing else is found: each is a proposal of the log that no result answers.
pub proof fn law_only_unanswered_calls_are_found(log: Seq<EventView>, k: int)
    requires
        0 <= k < recovery::orphans(log).len(),
    ensures
        exists|i: int|
            0 <= i < log.len() && (#[trigger] log[i]).kind == "tool.call.proposed"@
                && log[i].payload.text_at("tool_call_id"@) == Some(
                recovery::orphans(log)[k].tool_call_id,
            ),
        forall|j: int|
            0 <= j < log.len() && (#[trigger] log[j]).kind == "tool.result"@
                ==> log[j].payload.text_at("tool_call_id"@) != Some(
                recovery::orphans(log)[k].tool_call_id,
            ),
{
    let f = |e: EventView| recovery::orphan_of(log, e);
    lemma_filter_from(log, f, k);
    let i = choose|i: int|
        0 <= i < log.len() && f(#[trigger] log[i]) == Some(recovery::orphans(log)[k]);
    let id = recovery::orphans(log)[k].tool_call_id;
    assert(log[i].kind == "tool.call.proposed"@);
    assert forall|j: int| 0 <= j < log.len() && (#[trigger] log[j]).kind
        == "tool.result"@ implies log[j].payload.text_at("tool_call_id"@) != Some(id) by {
        assert(!recovery::answered(log, id));
        assert(recovery::answers(log[j]) != Some(id));
    }
}

/// The first rule that fits a tool decides; where none fits, the default does.
pub proof fn law_first_rule_decides(
    rules: Seq<(Seq<char>, ResumePolicy)>,
    default_policy: ResumePolicy,
    tool: Seq<char>,
    i: int,
)
    requires
        0 <= i <= rules.len(),
        forall|k: int| 0 <= k < i ==> !permission::glob((#[trigger] rules[k]).0, tool),
        i < rules.len() ==> permission::glob(rules[i].0, tool),
    ensures
        recovery::policy(rules, default_policy, tool) == (if i < rules.len() {
            rules[i].1
        } else {
            default_policy
        }),
    decreases rules.len(),
{
    if rules.len() > 0 && i > 0 {
        assert(!permission::glob(rules[0].0, tool));
        let rest = rules.skip(1);
        assert forall|k: int| 0 <= k < i - 1 implies !permission::glob(
            (#[trigger] rest[k]).0,
            tool,
        ) by {
            assert(rest[k] == rules[k + 1]);
        }
        if i < rules.len() {
            assert(rest[i - 1] == rules[i]);
        }
        law_first_rule_decides(rest, default_policy, tool, i - 1);
    }
}

/// What is done follows the policy: a refusal names the call, a replay takes the arguments
/// of the call, and what cannot be replayed is reported.
pub proof fn law_policy_is_followed(
    r: Resume,
    rules: RecoveryView,
    call: OrphanView,
    registered: bool,
    parsed: Result<JsonView, Seq<char>>,
)
    requires
        recovery::decided(r, rules, call, registered, parsed),
    ensures
        ({
            let p = recovery::policy(rules.rules, rules.default_policy, call.name);
            &&& r is Refuse <==> p == ResumePolicy::Fail
            &&& r is Replay <==> p == ResumePolicy::Replay && registered
            &&& r is Report <==> p == ResumePolicy::ReportInterrupted || (p == ResumePolicy::Replay
                && !registered)
            &&& r matches Resume::Refuse(t) ==> text::contains(t@, call.name) && text::contains(
                t@,
                call.tool_call_id,
            )
            &&& r matches Resume::Replay(args) ==> (parsed matches Ok(j) ==> args@ == j)
            &&& r matches Resume::Replay(args) ==> (parsed is Err ==> args@ == JsonView::Object(
                Map::empty(),
            ))
        }),
{
    let a = "refusing to resume: tool '"@;
    let b = "' (call "@;
    let t = recovery::refusal(call);
    let n = a.len() as int;
    assert(t.subrange(n, n + call.name.len()) =~= call.name);
    assert(text::occurs_at(t, call.name, n));
    let k = (a.len() + call.name.len() + b.len()) as int;
    assert(t.subrange(k, k + call.tool_call_id.len()) =~= call.tool_call_id);
    assert(text::occurs_at(t, call.tool_call_id, k));
}

/// A replayed call is answered with its outcome, an interrupted one with an error that
/// names the tool; both answer the call and say how they came about.
pub proof fn law_settled_call_is_answered(
    call: OrphanView,
    outcome: Option<Result<JsonView, Seq<char>>>,
)
    ensures
        ({
            let p = recovery::settled_json(call, outcome);
            &&& p.text_at("tool_call_id"@) == Some(call.tool_call_id)
            &&& p.text_at("name"@) == Some(call.name)
            &&& match outcome {
                Some(Ok(v)) => p.get("result"@) == Some(v) && p.get("error"@) is None && p.text_at(
                    "recovered"@,
                ) == Some("replayed"@),
                Some(Err(e)) => p.text_at("error"@) == Some(e) && p.get("result"@) is None
                    && p.text_at("recovered"@) == Some("replayed"@),
                None => p.get("result"@) is None && p.text_at("error"@) is Some && text::contains(
                    p.text_at("error"@)->0,
                    call.name,
                ) && p.text_at("recovered"@) == Some("interrupted"@),
            }
        }),
{
    reveal_strlit("tool_call_id");
    reveal_strlit("name");
    reveal_strlit("result");
    reveal_strlit("error");
    reveal_strlit("recovered");
    assert("tool_call_id"@.len() == 12 && "name"@.len() == 4 && "result"@.len() == 6
        && "error"@.len() == 5 && "recovered"@.len() == 9);
    if outcome is None {
        let p = recovery::settled_json(call, outcome);
        let t = p.text_at("error"@)->0;
        let n = "tool '"@.len() as int;
        assert(t.subrange(n, n + call.name.len()) =~= call.name);
        assert(text::occurs_at(t, call.name, n));
    }
}

/// The report counts the calls of both kinds.
pub proof fn law_report_counts(report: RecoveryReport)
    ensures
        ({
            let p = recovery::report_json(report);
            &&& p.get("interrupted_tool_calls"@) == Some(
                JsonView::Int(report.replayed + report.reported),
            )
            &&& p.get("replayed"@) == Some(JsonView::Int(report.replayed as int))
            &&& p.get("reported"@) == Some(JsonView::Int(report.reported as int))
        }),
{
    reveal_strlit("interrupted_tool_calls");
    reveal_strlit("replayed");
    reveal_strlit("reported");
    assert("interrupted_tool_calls"@.len() == 22 && "replayed"@.len() == 8 && "reported"@.len() == 8
        && "replayed"@[3] == 'l' && "reported"@[3] == 'o');
}

/// The calls without a result stand in the order of the log: one stands behind those of
/// the events before it and before those of the events behind it.
pub proof fn law_unanswered_calls_keep_their_order(
    a: Seq<EventView>,
    e: EventView,
    b: Seq<EventView>,
    id: Seq<char>,
)
    requires
        e.kind == "tool.call.proposed"@,
        e.payload.text_at("tool_call_id"@) == Some(id),
        forall|j: int|
            0 <= j < (a + seq![e] + b).len() && (#[trigger] (a + seq![e] + b)[j]).kind
                == "tool.result"@ ==> (a + seq![e] + b)[j].payload.text_at("tool_call_id"@) != Some(
                id,
            ),
    ensures
        ({
            let log = a + seq![e] + b;
            let f = |x: EventView| recovery::orphan_of(log, x);
            let n = seqs::filter_map(a, f).len() as int;
            &&& recovery::orphans(log).len() == n + 1 + seqs::filter_map(b, f).len()
            &&& recovery::orphans(log).take(n) == seqs::filter_map(a, f)
            &&& recovery::orphans(log)[n].tool_call_id == id
            &&& recovery::orphans(log).skip(n + 1) == seqs::filter_map(b, f)
        }),
{
    let log = a + seq![e] + b;
    let f = |x: EventView| recovery::orphan_of(log, x);
    assert(!recovery::answered(log, id)) by {
        if recovery::answered(log, id) {
            let j = choose|j: int|
                0 <= j < log.len() && recovery::answers(#[trigger] log[j]) == Some(id);
            assert(log[j].kind == "tool.result"@);
        }
    }
    seqs::lemma_filter_map_concat(a + seq![e], b, f);
    seqs::lemma_filter_map_concat(a, seq![e], f);
    blocks::lemma_filter_one(e, f);
    let n = seqs::filter_map(a, f).len() as int;
    assert(recovery::orphans(log).take(n) =~= seqs::filter_map(a, f));
    assert(recovery::orphans(log).skip(n + 1) =~= seqs::filter_map(b, f));
}

} // verus!
