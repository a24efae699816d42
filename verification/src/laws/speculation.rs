//! Laws of speculation: how candidates are judged, and what becomes of them.
use crate::agent::speculate;
use crate::agent::speculate::{Rating, RunView, SpeculationOutcome};
use crate::dag;
use crate::dag::{BranchId, DagView};
use crate::event::{Event, EventView};
use crate::json::JsonView;
use crate::text;
use vstd::prelude::*;

verus! {

/// The judge reads what happened in order.
pub proof fn law_judge_reads_in_order(a: Seq<EventView>, b: Seq<EventView>)
    ensures
        speculate::transcript(a + b) == speculate::transcript(a) + speculate::transcript(b),
    decreases b.len(),
{
    if b.len() == 0 {
        assert(a + b =~= a);
        assert(speculate::transcript(a) + Seq::<char>::empty() =~= speculate::transcript(a));
    } else {
        assert((a + b).drop_last() =~= a + b.drop_last());
        assert((a + b).last() == b.last());
        law_judge_reads_in_order(a, b.drop_last());
        assert(speculate::transcript(a) + (speculate::transcript(b.drop_last())
            + speculate::judged_line(b.last())) =~= speculate::transcript(a)
            + speculate::transcript(b.drop_last()) + speculate::judged_line(b.last()));
    }
}

/// What the judge reads of one event: what was said, the tool that was called, and the
/// error that came back.
pub proof fn law_judge_reads_the_event(e: EventView)
    ensures
        ({
            let line = speculate::transcript(seq![e]);
            &&& e.kind == "assistant.message"@ ==> match e.payload.text_at("content"@) {
                Some(t) => if t.len() > 0 {
                    line == "Assistant: "@ + t + "\n"@
                } else {
                    line.len() == 0
                },
                None => line.len() == 0,
            }
            &&& e.kind == "tool.call.proposed"@ ==> (e.payload.text_at("name"@) matches Some(t)
                ==> line == "Tool call: "@ + t + "\n"@)
            &&& e.kind == "tool.result"@ ==> (e.payload.text_at("error"@) matches Some(t) ==> line
                == "Tool error: "@ + t + "\n"@)
            &&& e.kind != "assistant.message"@ && e.kind != "tool.call.proposed"@ && e.kind
                != "tool.result"@ ==> line.len() == 0
        }),
{
    assert(seq![e].drop_last() =~= Seq::<EventView>::empty());
    assert(speculate::transcript(Seq::<EventView>::empty()) =~= Seq::<char>::empty());
    let line = speculate::transcript(seq![e]);
    assert(line =~= speculate::judged_line(e));
    reveal_strlit("assistant.message");
    reveal_strlit("tool.call.proposed");
    reveal_strlit("tool.result");
    assert("assistant.message"@.len() == 17 && "tool.call.proposed"@.len() == 18
        && "tool.result"@.len() == 11);
}

/// The judge is told the criteria and the whole trajectory.
pub proof fn law_judge_is_told(criteria: Seq<char>, events: Seq<EventView>)
    ensures
        text::contains(speculate::judge_prompt(criteria, events), criteria),
        text::contains(
            speculate::judge_prompt(criteria, events),
            speculate::transcript(events),
        ),
{
    let a = "You are grading one candidate solution produced by an AI agent.\nCriteria: "@;
    let b = "\n\nCandidate trajectory:\n"@;
    let t = speculate::judge_prompt(criteria, events);
    let body = speculate::transcript(events);
    let n = a.len() as int;
    assert(t.subrange(n, n + criteria.len()) =~= criteria);
    assert(text::occurs_at(t, criteria, n));
    let k = (a.len() + criteria.len() + b.len()) as int;
    assert(t.subrange(k, k + body.len()) =~= body);
    assert(text::occurs_at(t, body, k));
}

proof fn lemma_digit_from(s: Seq<char>, i: int, k: int)
    requires
        0 <= i <= k <= s.len(),
        forall|j: int| i <= j < k ==> !('0' <= #[trigger] s[j] && s[j] <= '9'),
        k < s.len() ==> '0' <= s[k] && s[k] <= '9',
    ensures
        speculate::digit_from(s, i) == k,
    decreases k - i,
{
    if i < k {
        assert(!('0' <= s[i] && s[i] <= '9'));
        lemma_digit_from(s, i + 1, k);
    }
}

proof fn lemma_run_end(s: Seq<char>, i: int, k: int)
    requires
        0 <= i <= k <= s.len(),
        forall|j: int|
            i <= j < k ==> ('0' <= #[trigger] s[j] && s[j] <= '9') || s[j] == '.',
        k < s.len() ==> !('0' <= s[k] && s[k] <= '9') && s[k] != '.',
    ensures
        speculate::run_end(s, i) == k,
    decreases k - i,
{
    if i < k {
        assert(('0' <= s[i] && s[i] <= '9') || s[i] == '.');
        lemma_run_end(s, i + 1, k);
    }
}

proof fn lemma_no_points(s: Seq<char>)
    requires
        forall|j: int| 0 <= j < s.len() ==> #[trigger] s[j] != '.',
    ensures
        speculate::points(s) == 0,
    decreases s.len(),
{
    if s.len() > 0 {
        let front = s.drop_last();
        assert forall|j: int| 0 <= j < front.len() implies #[trigger] front[j] != '.' by {
            assert(front[j] == s[j]);
        }
        lemma_no_points(front);
        assert(s[s.len() - 1] != '.');
    }
}

/// The score is the first number of the judge's answer, whatever stands around it.
pub proof fn law_score_is_the_first_number(before: Seq<char>, n: Seq<char>, after: Seq<char>)
    requires
        n.len() > 0,
        forall|j: int| 0 <= j < before.len() ==> !('0' <= #[trigger] before[j] && before[j] <= '9'),
        forall|j: int| 0 <= j < n.len() ==> '0' <= #[trigger] n[j] && n[j] <= '9',
        after.len() > 0 ==> !('0' <= after[0] && after[0] <= '9') && after[0] != '.',
    ensures
        speculate::number_in(before + n + after) == Some(n),
{
    let s = before + n + after;
    let k = before.len() as int;
    let e = (before.len() + n.len()) as int;
    assert forall|j: int| 0 <= j < k implies !('0' <= #[trigger] s[j] && s[j] <= '9') by {
        assert(s[j] == before[j]);
    }
    assert(s[k] == n[0]);
    lemma_digit_from(s, 0, k);
    assert forall|j: int| k <= j < e implies ('0' <= #[trigger] s[j] && s[j] <= '9') || s[j]
        == '.' by {
        assert(s[j] == n[j - k]);
    }
    if e < s.len() {
        assert(s[e] == after[0]);
    }
    lemma_run_end(s, k, e);
    assert(s.subrange(k, e) =~= n);
    lemma_no_points(n);
}

/// An answer without a digit has no score.
pub proof fn law_no_digit_no_score(s: Seq<char>)
    requires
        forall|j: int| 0 <= j < s.len() ==> !('0' <= #[trigger] s[j] && s[j] <= '9'),
    ensures
        speculate::number_in(s) is None,
{
    lemma_digit_from(s, 0, s.len() as int);
}

/// A candidate that ended has what it ended with; one that did not is no finisher and has
/// nothing to show.
pub proof fn law_run_has_its_end(name: Seq<char>, end: Option<(Vec<Event>, Rating)>)
    ensures
        speculate::run_of(name, end).name == name,
        speculate::run_of(name, end).finished <==> end is Some,
        end matches Some((events, rating)) ==> {
            let r = speculate::run_of(name, end);
            &&& r.events.len() == events@.len()
            &&& forall|i: int| 0 <= i < events@.len() ==> #[trigger] r.events[i] == events@[i]@
            &&& r.rank == rating.rank
            &&& r.score == rating.score@
        },
        end is None ==> speculate::run_of(name, end).events.len() == 0 && speculate::run_of(
            name,
            end,
        ).rank == Some(i64::MIN),
{
}

/// The events of the winner stand on the active branch as they came, behind what was
/// there.
pub proof fn law_events_are_spliced(d: DagView, events: Seq<EventView>)
    requires
        forall|i: int, j: int|
            0 <= i < j < events.len() ==> (#[trigger] events[i]).id != (#[trigger] events[j]).id,
    ensures
        ({
            let r = speculate::all_published(d, events);
            &&& r.path.len() == d.path.len() + events.len()
            &&& d.path.is_prefix_of(r.path)
            &&& r.branches == d.branches
            &&& forall|i: int|
                0 <= i < events.len() ==> {
                    let e = #[trigger] events[i];
                    &&& r.path[d.path.len() + i] == e.id
                    &&& r.nodes.contains_key(e.id)
                    &&& r.nodes[e.id].kind == e.kind
                    &&& r.nodes[e.id].payload == e.payload
                    &&& r.nodes[e.id].metadata == e.metadata
                    &&& r.nodes[e.id].timestamp == e.timestamp
                    &&& e.parent_event_id is Some ==> r.nodes[e.id].parent_event_id
                        == e.parent_event_id
                }
        }),
    decreases events.len(),
{
    if events.len() > 0 {
        let front = events.drop_last();
        let last = events[events.len() - 1];
        assert forall|i: int, j: int| 0 <= i < j < front.len() implies (#[trigger] front[i]).id
            != (#[trigger] front[j]).id by {
            assert(events[i].id != events[j].id);
        }
        law_events_are_spliced(d, front);
        let b = speculate::all_published(d, front);
        let r = speculate::all_published(d, events);
        assert(r == dag::published(b, last));
        assert(d.path.is_prefix_of(r.path));
        assert forall|i: int| 0 <= i < events.len() implies {
            let e = #[trigger] events[i];
            &&& r.path[d.path.len() + i] == e.id
            &&& r.nodes.contains_key(e.id)
            &&& r.nodes[e.id].kind == e.kind
            &&& r.nodes[e.id].payload == e.payload
            &&& r.nodes[e.id].metadata == e.metadata
            &&& r.nodes[e.id].timestamp == e.timestamp
            &&& e.parent_event_id is Some ==> r.nodes[e.id].parent_event_id == e.parent_event_id
        } by {
            if i < front.len() {
                assert(front[i] == events[i]);
                assert(events[i].id != events[events.len() - 1].id);
            }
        }
    }
}

/// A branch is reported exactly for each loser with events, and never for the winner.
pub proof fn law_losers_are_reported(
    runs: Seq<RunView>,
    winner: int,
    ids: Seq<BranchId>,
    n: int,
    i: int,
)
    requires
        0 <= i < n <= runs.len(),
    ensures
        i != winner && runs[i].events.len() > 0 ==> speculate::loser_ids(
            runs,
            winner,
            ids,
            n,
        ).contains(ids[i]),
        forall|k: int|
            0 <= k < speculate::loser_ids(runs, winner, ids, n).len() ==> exists|j: int|
                0 <= j < n && j != winner && runs[j].events.len() > 0 && #[trigger] ids[j]
                    == #[trigger] speculate::loser_ids(runs, winner, ids, n)[k],
    decreases n,
{
    let r = speculate::loser_ids(runs, winner, ids, n);
    let before = speculate::loser_ids(runs, winner, ids, n - 1);
    if n - 1 > 0 {
        law_losers_are_reported(runs, winner, ids, n - 1, if i < n - 1 {
            i
        } else {
            0
        });
    } else {
        assert(before =~= Seq::<BranchId>::empty());
    }
    assert forall|k: int| 0 <= k < r.len() implies exists|j: int|
        0 <= j < n && j != winner && runs[j].events.len() > 0 && #[trigger] ids[j]
            == #[trigger] r[k] by {
        if k < before.len() {
            assert(r[k] == before[k]);
        } else {
            assert(ids[n - 1] == r[k]);
        }
    }
    if i != winner && runs[i].events.len() > 0 {
        if i < n - 1 {
            let k = choose|k: int| 0 <= k < before.len() && before[k] == ids[i];
            assert(r[k] == ids[i]);
        } else {
            assert(r[r.len() - 1] == ids[i]);
        }
    }
}

/// The record of a round says who won, the scores in order and the rejected branches.
pub proof fn law_round_is_recorded(
    winner: int,
    name: Seq<char>,
    scores: Seq<JsonView>,
    rejected: Seq<BranchId>,
)
    ensures
        ({
            let r = speculate::completed_json(winner, name, scores, rejected);
            &&& r.get("winner_index"@) == Some(JsonView::Int(winner))
            &&& r.text_at("winner_name"@) == Some(name)
            &&& r.array_at("scores"@) == Some(scores)
            &&& r.array_at("rejected_branches"@) is Some
            &&& r.array_at("rejected_branches"@)->0.len() == rejected.len()
            &&& forall|i: int|
                0 <= i < rejected.len() ==> #[trigger] r.array_at("rejected_branches"@)->0[i]
                    == JsonView::Text(crate::event::uuid_text(rejected[i]))
        }),
{
    reveal_strlit("winner_index");
    reveal_strlit("winner_name");
    reveal_strlit("scores");
    reveal_strlit("rejected_branches");
    assert("winner_index"@.len() == 12 && "winner_name"@.len() == 11 && "scores"@.len() == 6
        && "rejected_branches"@.len() == 17);
}

/// A round without candidates, or in which none ended, fails and says so.
pub proof fn law_round_fails_without_an_end(candidates: int, finished: int)
    requires
        0 <= finished <= candidates,
    ensures
        speculate::round_failure(candidates, finished) is None <==> finished > 0,
        candidates == 0 ==> speculate::round_failure(candidates, finished) == Some(
            "best_of_n: no candidates supplied"@,
        ),
        candidates > 0 && finished == 0 ==> speculate::round_failure(candidates, finished) == Some(
            "best_of_n: all candidate tasks panicked"@,
        ),
{
}

/// Of two candidates the one that finished wins, and of two that did the one with the
/// higher score; where neither is higher, the later.
pub proof fn law_better_of_two_wins(a: RunView, b: RunView)
    ensures
        ({
            let w = speculate::winner_of(seq![a, b]);
            &&& w == 0 || w == 1
            &&& a.finished && !b.finished ==> w == 0
            &&& !a.finished ==> w == 1
            &&& a.finished && b.finished && a.rank is Some && b.rank is Some ==> (w == 0
                <==> a.rank->0 > b.rank->0)
            &&& a.finished && b.finished && (a.rank is None || b.rank is None) ==> w == 1
        }),
{
    let s = seq![a, b];
    assert(s.drop_last() =~= seq![a]);
    assert(speculate::winner_of(seq![a]) == 0);
    assert(s.last() == b);
    assert(s[0] == a);
}

/// The reported branches stand in the order of the candidates.
pub proof fn law_losers_are_reported_in_order(
    runs: Seq<RunView>,
    winner: int,
    ids: Seq<BranchId>,
    n: int,
)
    requires
        0 < n <= runs.len(),
    ensures
        speculate::loser_ids(runs, winner, ids, 0).len() == 0,
        n - 1 != winner && runs[n - 1].events.len() > 0 ==> speculate::loser_ids(
            runs,
            winner,
            ids,
            n,
        ) == speculate::loser_ids(runs, winner, ids, n - 1).push(ids[n - 1]),
        n - 1 == winner || runs[n - 1].events.len() == 0 ==> speculate::loser_ids(
            runs,
            winner,
            ids,
            n,
        ) == speculate::loser_ids(runs, winner, ids, n - 1),
{
}

/// The outcome of a round is the winner's: its place, its name and how many events it
/// brought; and each candidate's score stands at the candidate's place.
pub proof fn law_outcome_is_the_winners(
    o: SpeculationOutcome,
    runs: Seq<RunView>,
    ids: Seq<BranchId>,
    i: int,
)
    requires
        speculate::settles(o, runs, ids),
        0 <= i < runs.len(),
    ensures
        o.winner == speculate::winner_of(runs),
        o.winner_name@ == runs[o.winner as int].name,
        o.winner_event_count == runs[o.winner as int].events.len(),
        o.scores@.len() == runs.len(),
        o.scores@[i].rank == runs[i].rank,
        o.scores@[i].score@ == runs[i].score,
{
    assert(text::views(o.scores@).len() == runs.len());
    assert(text::views(o.scores@)[i] == o.scores@[i]@);
}

/// Every candidate that finished is counted, and no other.
pub proof fn law_finished_are_counted(runs: Seq<RunView>, run: RunView)
    ensures
        speculate::finished_count(Seq::empty()) == 0,
        speculate::finished_count(runs.push(run)) == speculate::finished_count(runs) + if run.finished {
            1int
        } else {
            0
        },
{
    assert(runs.push(run).drop_last() =~= runs);
}

} // verus!
