//! Speculative best-of-N execution over the event graph.
//!
//! An agent explores several candidate trajectories on forks of the bus, keeps
//! the best one, and preserves every losing trajectory as a sealed rejected branch
//! that future context assembly can learn from. The winner's events are spliced
//! onto the main bus; a durable event records names, scores and the winner.
use crate::text;
use crate::seqs;
use crate::llm::wire;
use crate::json;
use crate::event;
use crate::dag;
use crate::bus;
use crate::bus::EventBus;
use crate::dag::{BranchId, BranchView, DagView};
use crate::event::{uuid_string, Event, EventId, EventView, Timestamp};
use crate::json::{Json, JsonMap, JsonView};
use crate::kinds;
use crate::text::{chars_of, same, string_of};
use vstd::prelude::*;

verus! {

// ── Scoring ────────────────────────────────────────────────────────────────

/// Wraps a plain function as a scorer.
pub struct FnScorer<F>(pub F);

impl<F> FnScorer<F> {
    pub fn new(f: F) -> (r: FnScorer<F>)
        ensures
            r.0 == f,
    {
        FnScorer(f)
    }
}

/// Scores trajectories with a model as the judge, from 0 to 10.
pub struct LlmJudgeScorer {
    /// What "good" means here, e.g. "correct, concise, cites sources".
    pub criteria: String,
}

/// What the judge reads of an event.
pub open spec fn judged_line(e: EventView) -> Seq<char> {
    if e.kind == kinds::ASSISTANT_MESSAGE@ {
        match e.payload.text_at("content"@) {
            Some(t) => if t.len() > 0 {
                "Assistant: "@ + t + "\n"@
            } else {
                Seq::empty()
            },
            None => Seq::empty(),
        }
    } else if e.kind == kinds::TOOL_CALL_PROPOSED@ {
        match e.payload.text_at("name"@) {
            Some(t) => "Tool call: "@ + t + "\n"@,
            None => Seq::empty(),
        }
    } else if e.kind == kinds::TOOL_RESULT@ {
        match e.payload.text_at("error"@) {
            Some(t) => "Tool error: "@ + t + "\n"@,
            None => Seq::empty(),
        }
    } else {
        Seq::empty()
    }
}

/// What the judge reads of a trajectory.
pub open spec fn transcript(events: Seq<EventView>) -> Seq<char>
    decreases events.len(),
{
    if events.len() == 0 {
        Seq::empty()
    } else {
        transcript(events.drop_last()) + judged_line(events.last())
    }
}

fn line_of(e: &Event) -> (r: String)
    ensures
        r@ == judged_line(e@),
{
    let mut out = String::new();
    let kind = e.kind.as_str();
    if same(kind, kinds::ASSISTANT_MESSAGE) {
        if let Some(t) = e.payload.text_at("content") {
            if !t.is_empty() {
                out.push_str("Assistant: ");
                out.push_str(t);
                out.push_str("\n");
                assert(out@ =~= judged_line(e@));
            }
        }
    } else if same(kind, kinds::TOOL_CALL_PROPOSED) {
        if let Some(t) = e.payload.text_at("name") {
            out.push_str("Tool call: ");
            out.push_str(t);
            out.push_str("\n");
            assert(out@ =~= judged_line(e@));
        }
    } else if same(kind, kinds::TOOL_RESULT) {
        if let Some(t) = e.payload.text_at("error") {
            out.push_str("Tool error: ");
            out.push_str(t);
            out.push_str("\n");
            assert(out@ =~= judged_line(e@));
        }
    }
    out
}

/// The question to the judge.
pub open spec fn judge_prompt(criteria: Seq<char>, events: Seq<EventView>) -> Seq<char> {
    "You are grading one candidate solution produced by an AI agent.\nCriteria: "@ + criteria
        + "\n\nCandidate trajectory:\n"@ + transcript(events)
        + "\n\nReply with ONLY a number from 0 to 10."@
}

impl LlmJudgeScorer {
    pub fn new(criteria: &str) -> (r: LlmJudgeScorer)
        ensures
            r.criteria@ == criteria@,
    {
        LlmJudgeScorer { criteria: criteria.to_owned() }
    }

    /// What the judge reads of a trajectory.
    pub fn render(events: &Vec<Event>) -> (r: String)
        ensures
            r@ == transcript(text::views(events@)),
    {
        let ghost es = text::views(events@);
        let mut out = String::new();
        let mut i: usize = 0;
        while i < events.len()
            invariant
                i <= events@.len(),
                es == text::views(events@),
                out@ == transcript(es.take(i as int)),
            decreases events@.len() - i,
        {
            let line = line_of(&events[i]);
            out.push_str(line.as_str());
            assert(es.take(i + 1).drop_last() =~= es.take(i as int));
            i += 1;
        }
        assert(es.take(i as int) =~= es);
        out
    }

    /// The question to the judge about a trajectory.
    pub fn prompt(&self, events: &Vec<Event>) -> (r: String)
        ensures
            r@ == judge_prompt(self.criteria@, text::views(events@)),
    {
        let mut out =
            "You are grading one candidate solution produced by an AI agent.\nCriteria: ".to_owned();
        out.push_str(self.criteria.as_str());
        out.push_str("\n\nCandidate trajectory:\n");
        let body = Self::render(events);
        out.push_str(body.as_str());
        out.push_str("\n\nReply with ONLY a number from 0 to 10.");
        out
    }
}

/// Whether a character is an ASCII digit.
pub open spec fn is_digit(c: char) -> bool {
    '0' <= c && c <= '9'
}

/// The place of the first digit at or after `i`, or the end.
pub open spec fn digit_from(s: Seq<char>, i: int) -> int
    decreases s.len() - i,
{
    if i < 0 || i >= s.len() || is_digit(s[i]) {
        i
    } else {
        digit_from(s, i + 1)
    }
}

/// Where the run of digits and points that `i` stands in ends.
pub open spec fn run_end(s: Seq<char>, i: int) -> int
    decreases s.len() - i,
{
    if i < 0 || i >= s.len() || !(is_digit(s[i]) || s[i] == '.') {
        i
    } else {
        run_end(s, i + 1)
    }
}

/// How many points a text has.
pub open spec fn points(s: Seq<char>) -> nat
    decreases s.len(),
{
    if s.len() == 0 {
        0
    } else {
        points(s.drop_last()) + (if s.last() == '.' {
            1nat
        } else {
            0nat
        })
    }
}

/// The first number that a text writes: digits and points from its first digit on,
/// with at most one point among them.
pub open spec fn number_in(s: Seq<char>) -> Option<Seq<char>> {
    let start = digit_from(s, 0);
    let literal = s.subrange(start, run_end(s, start));
    if start >= s.len() || points(literal) > 1 {
        None
    } else {
        Some(literal)
    }
}

/// The first number that a text writes, as it is written.
pub fn first_number(text: &str) -> (r: Option<String>)
    ensures
        match r {
            Some(t) => number_in(text@) == Some(t@),
            None => number_in(text@) is None,
        },
{
    let v = chars_of(text);
    let mut start: usize = 0;
    while start < v.len() && !('0' <= v[start] && v[start] <= '9')
        invariant
            start <= v@.len(),
            v@ == text@,
            digit_from(text@, 0) == digit_from(text@, start as int),
        decreases v@.len() - start,
    {
        start += 1;
    }
    if start >= v.len() {
        return None;
    }
    let mut end: usize = start;
    let mut dots: usize = 0;
    assert(text@.subrange(start as int, start as int) =~= Seq::empty());
    while end < v.len() && (('0' <= v[end] && v[end] <= '9') || v[end] == '.')
        invariant
            start <= end <= v@.len(),
            v@ == text@,
            run_end(text@, start as int) == run_end(text@, end as int),
            dots == points(text@.subrange(start as int, end as int)),
            dots <= end - start,
        decreases v@.len() - end,
    {
        assert(text@.subrange(start as int, end + 1).drop_last() =~= text@.subrange(
            start as int,
            end as int,
        ));
        if v[end] == '.' {
            dots += 1;
        }
        end += 1;
    }
    if dots > 1 {
        None
    } else {
        Some(string_of(&v, start, end))
    }
}

// ── The round ──────────────────────────────────────────────────────────────

/// The score of a candidate: the number for the record, and its place in the order
/// of numbers. The lowest place, `i64::MIN`, is that of negative infinity. A score
/// without a place, such as one that is not a number, counts as equal to every
/// other.
pub struct Rating {
    pub rank: Option<i64>,
    pub score: Json,
}

impl View for Rating {
    type V = (Option<i64>, JsonView);

    open spec fn view(&self) -> (Option<i64>, JsonView) {
        (self.rank, self.score@)
    }
}

/// What became of a candidate: its name, its new events, and its score. One whose
/// task panicked did not finish.
pub struct CandidateRun {
    pub name: String,
    pub finished: bool,
    pub events: Vec<Event>,
    pub rating: Rating,
}

#[verifier::ext_equal]
pub struct RunView {
    pub name: Seq<char>,
    pub finished: bool,
    pub events: Seq<EventView>,
    pub rank: Option<i64>,
    pub score: JsonView,
}

impl View for CandidateRun {
    type V = RunView;

    open spec fn view(&self) -> RunView {
        RunView {
            name: self.name@,
            finished: self.finished,
            events: text::views(self.events@),
            rank: self.rating.rank,
            score: self.rating.score@,
        }
    }
}

/// The rating of a candidate whose cycle failed: negative infinity, which a record
/// cannot write.
pub open spec fn failed_rating() -> (Option<i64>, JsonView) {
    (Some(i64::MIN), JsonView::Null)
}

impl Rating {
    /// The rating of a candidate whose cycle failed: negative infinity.
    pub fn failed() -> (r: Rating)
        ensures
            r@ == failed_rating(),
    {
        Rating { rank: Some(i64::MIN), score: Json::Null }
    }

    /// Whether the score is negative infinity.
    pub fn is_negative_infinity(&self) -> (r: bool)
        ensures
            r == (self.rank == Some(i64::MIN)),
    {
        match self.rank {
            Some(n) => n == i64::MIN,
            None => false,
        }
    }
}

/// Whether `a` is better than `b`.
pub open spec fn beats(a: Option<i64>, b: Option<i64>) -> bool {
    match (a, b) {
        (Some(x), Some(y)) => x > y,
        _ => false,
    }
}

/// Whether `a` stays ahead of the later `b`. A candidate that did not finish is
/// never ahead of one that did.
pub open spec fn stays_ahead(a: RunView, b: RunView) -> bool {
    a.finished && (!b.finished || beats(a.rank, b.rank))
}

/// The winner: the best so far, or the next one if the best does not stay ahead.
pub open spec fn winner_of(runs: Seq<RunView>) -> int
    decreases runs.len(),
{
    if runs.len() <= 1 {
        0
    } else {
        let best = winner_of(runs.drop_last());
        if stays_ahead(runs[best], runs.last()) {
            best
        } else {
            runs.len() - 1
        }
    }
}

/// How many candidates finished.
pub open spec fn finished_count(runs: Seq<RunView>) -> nat
    decreases runs.len(),
{
    if runs.len() == 0 {
        0
    } else {
        finished_count(runs.drop_last()) + (if runs.last().finished {
            1nat
        } else {
            0nat
        })
    }
}

/// Whether a candidate that did not finish has the lowest score.
pub open spec fn rated(v: RunView) -> bool {
    !v.finished ==> v.rank == Some(i64::MIN)
}

/// Where a candidate finished, the winner did.
pub proof fn law_winner_finished(runs: Seq<RunView>)
    requires
        finished_count(runs) > 0,
    ensures
        0 <= winner_of(runs) < runs.len(),
        runs[winner_of(runs)].finished,
    decreases runs.len(),
{
    if runs.len() > 1 {
        let d = runs.drop_last();
        lemma_winner_range(d);
        assert(d[winner_of(d)] == runs[winner_of(d)]);
        if finished_count(d) > 0 {
            law_winner_finished(d);
        }
    } else {
        assert(finished_count(runs.drop_last()) == 0);
    }
}

/// Where every score has its place and a candidate finished, no candidate has a
/// better score than the winner, and of equals that finished the last one wins.
pub proof fn law_winner_is_best(runs: Seq<RunView>)
    requires
        finished_count(runs) > 0,
        forall|i: int|
            0 <= i < runs.len() ==> (#[trigger] runs[i]).rank is Some && rated(runs[i]),
    ensures
        0 <= winner_of(runs) < runs.len(),
        forall|i: int|
            0 <= i < runs.len() ==> (#[trigger] runs[i]).rank->0 <= runs[winner_of(runs)].rank->0,
        forall|i: int|
            winner_of(runs) < i < runs.len() && (#[trigger] runs[i]).finished ==> runs[i].rank->0
                < runs[winner_of(runs)].rank->0,
    decreases runs.len(),
{
    law_winner_finished(runs);
    if runs.len() > 1 {
        let d = runs.drop_last();
        let best = winner_of(d);
        lemma_winner_range(d);
        assert(d[best] == runs[best]);
        assert forall|i: int| 0 <= i < d.len() implies (#[trigger] d[i]).rank is Some && rated(
            d[i],
        ) by {
            assert(d[i] == runs[i]);
        }
        if finished_count(d) > 0 {
            law_winner_is_best(d);
        } else {
            lemma_none_finished(d);
        }
        assert(runs[runs.len() - 1].rank is Some);
        assert forall|i: int| 0 <= i < runs.len() implies (#[trigger] runs[i]).rank->0
            <= runs[winner_of(runs)].rank->0 by {
            if i < d.len() {
                assert(d[i] == runs[i]);
            }
        }
        assert forall|i: int|
            winner_of(runs) < i < runs.len() && (#[trigger] runs[i]).finished implies runs[i].rank->0
            < runs[winner_of(runs)].rank->0 by {
            if i < d.len() {
                assert(d[i] == runs[i]);
            }
        }
    }
}

proof fn lemma_none_finished(runs: Seq<RunView>)
    requires
        finished_count(runs) == 0,
    ensures
        forall|i: int| 0 <= i < runs.len() ==> !(#[trigger] runs[i]).finished,
    decreases runs.len(),
{
    if runs.len() > 0 {
        lemma_none_finished(runs.drop_last());
        assert forall|i: int| 0 <= i < runs.len() implies !(#[trigger] runs[i]).finished by {
            if i < runs.len() - 1 {
                assert(runs.drop_last()[i] == runs[i]);
            }
        }
    }
}

proof fn lemma_winner_range(runs: Seq<RunView>)
    ensures
        runs.len() > 0 ==> 0 <= winner_of(runs) < runs.len(),
    decreases runs.len(),
{
    if runs.len() > 1 {
        lemma_winner_range(runs.drop_last());
    }
}

/// What became of a candidate, given its events and its score, or nothing if its
/// task panicked: it then has no events and scores as a failed one.
pub open spec fn run_of(name: Seq<char>, end: Option<(Vec<Event>, Rating)>) -> RunView {
    match end {
        Some((events, rating)) => RunView {
            name,
            finished: true,
            events: text::views(events@),
            rank: rating@.0,
            score: rating@.1,
        },
        None => RunView {
            name,
            finished: false,
            events: Seq::empty(),
            rank: failed_rating().0,
            score: failed_rating().1,
        },
    }
}

/// The session with events published one after another.
pub open spec fn all_published(d: DagView, events: Seq<EventView>) -> DagView
    decreases events.len(),
{
    if events.len() == 0 {
        d
    } else {
        dag::published(all_published(d, events.drop_last()), events.last())
    }
}

/// The session after the first `n` runs are settled: the winner's events are
/// published, those of the others are grafted on as rejected branches.
pub open spec fn settled(
    d: DagView,
    runs: Seq<RunView>,
    winner: int,
    anchor: Option<EventId>,
    ids: Seq<BranchId>,
    n: int,
) -> DagView
    decreases n,
{
    if n <= 0 {
        d
    } else {
        let before = settled(d, runs, winner, anchor, ids, n - 1);
        let run = runs[n - 1];
        if n - 1 == winner {
            all_published(before, run.events)
        } else if run.events.len() > 0 {
            bus::adopted(before, anchor, run.events, ids[n - 1])
        } else {
            before
        }
    }
}

/// The IDs of events.
pub open spec fn event_ids(events: Seq<EventView>) -> Seq<EventId> {
    events.map_values(|e: EventView| e.id)
}

proof fn lemma_all_published(d: DagView, events: Seq<EventView>)
    ensures
        all_published(d, events).path == d.path + event_ids(events),
        all_published(d, events).branches == d.branches,
    decreases events.len(),
{
    if events.len() == 0 {
        assert(d.path + event_ids(events) =~= d.path);
    } else {
        lemma_all_published(d, events.drop_last());
        assert(event_ids(events) =~= event_ids(events.drop_last()).push(events.last().id));
        assert(d.path + event_ids(events.drop_last()).push(events.last().id) =~= (d.path
            + event_ids(events.drop_last())).push(events.last().id));
    }
}

proof fn lemma_settled(
    d: DagView,
    runs: Seq<RunView>,
    winner: int,
    anchor: Option<EventId>,
    ids: Seq<BranchId>,
    n: int,
)
    requires
        0 <= n <= runs.len(),
    ensures
        settled(d, runs, winner, anchor, ids, n).path == (if 0 <= winner < n {
            d.path + event_ids(runs[winner].events)
        } else {
            d.path
        }),
        d.branches.len() <= settled(d, runs, winner, anchor, ids, n).branches.len(),
        forall|b: int|
            0 <= b < d.branches.len() ==> settled(
                d,
                runs,
                winner,
                anchor,
                ids,
                n,
            ).branches[b] == #[trigger] d.branches[b],
    decreases n,
{
    if n > 0 {
        lemma_settled(d, runs, winner, anchor, ids, n - 1);
        lemma_all_published(settled(d, runs, winner, anchor, ids, n - 1), runs[n - 1].events);
    }
}

/// A round puts the winner's events, and no others, at the end of the active branch,
/// and keeps every branch that there was.
pub proof fn law_winner_is_spliced(
    d: DagView,
    runs: Seq<RunView>,
    anchor: Option<EventId>,
    ids: Seq<BranchId>,
)
    requires
        runs.len() > 0,
    ensures
        settled(d, runs, winner_of(runs), anchor, ids, runs.len() as int).path == d.path
            + event_ids(runs[winner_of(runs)].events),
        forall|b: int|
            0 <= b < d.branches.len() ==> settled(
                d,
                runs,
                winner_of(runs),
                anchor,
                ids,
                runs.len() as int,
            ).branches[b] == #[trigger] d.branches[b],
{
    lemma_winner_range(runs);
    lemma_settled(d, runs, winner_of(runs), anchor, ids, runs.len() as int);
}

/// A round keeps the trajectory of each loser that did something as a rejected branch
/// after the anchor.
pub proof fn law_losers_are_kept(
    d: DagView,
    runs: Seq<RunView>,
    winner: int,
    anchor: Option<EventId>,
    ids: Seq<BranchId>,
    n: int,
    i: int,
)
    requires
        0 <= i < n <= runs.len(),
        i != winner,
        runs[i].events.len() > 0,
    ensures
        settled(d, runs, winner, anchor, ids, n).branches.contains(
            (BranchView {
                id: ids[i],
                parent_event_id: anchor,
                event_ids: event_ids(runs[i].events),
            }),
        ),
    decreases n,
{
    let before = settled(d, runs, winner, anchor, ids, n - 1);
    let after = settled(d, runs, winner, anchor, ids, n);
    let b = BranchView {
        id: ids[i],
        parent_event_id: anchor,
        event_ids: event_ids(runs[i].events),
    };
    lemma_all_published(before, runs[n - 1].events);
    if i == n - 1 {
        assert(after.branches == before.branches.push(b));
        assert(after.branches[before.branches.len() as int] == b);
    } else {
        law_losers_are_kept(d, runs, winner, anchor, ids, n - 1, i);
        let k = choose|k: int| 0 <= k < before.branches.len() && before.branches[k] == b;
        assert(after.branches[k] == b);
    }
}

/// The branches of the losers among the first `n` runs.
pub open spec fn loser_ids(
    runs: Seq<RunView>,
    winner: int,
    ids: Seq<BranchId>,
    n: int,
) -> Seq<BranchId>
    decreases n,
{
    if n <= 0 {
        Seq::empty()
    } else {
        let before = loser_ids(runs, winner, ids, n - 1);
        if n - 1 != winner && runs[n - 1].events.len() > 0 {
            before.push(ids[n - 1])
        } else {
            before
        }
    }
}

/// The numbers of scores, as a record writes them.
pub open spec fn numbers_of(scores: Seq<(Option<i64>, JsonView)>) -> Seq<JsonView> {
    scores.map_values(|s: (Option<i64>, JsonView)| s.1)
}

/// The payload of the record of a round.
pub open spec fn completed_json(
    winner: int,
    name: Seq<char>,
    scores: Seq<JsonView>,
    rejected: Seq<BranchId>,
) -> JsonView {
    JsonView::Object(
        Map::<Seq<char>, JsonView>::empty().insert("winner_index"@, JsonView::Int(winner)).insert(
            "winner_name"@,
            JsonView::Text(name),
        ).insert("scores"@, JsonView::Array(scores)).insert(
            "rejected_branches"@,
            bus::id_array(rejected),
        ),
    )
}

/// Result of a round.
pub struct SpeculationOutcome {
    /// Index of the winning candidate, in submission order.
    pub winner: usize,
    pub winner_name: String,
    /// Scores per candidate, in submission order. Candidates that failed score
    /// negative infinity.
    pub scores: Vec<Rating>,
    /// Number of events the winner contributed to the main bus.
    pub winner_event_count: usize,
    /// Branch IDs of the losing trajectories sealed onto the main bus.
    pub rejected_branch_ids: Vec<BranchId>,
}

/// Whether `o` is the outcome of a round with these runs.
pub open spec fn settles(o: SpeculationOutcome, runs: Seq<RunView>, ids: Seq<BranchId>) -> bool {
    let winner = winner_of(runs);
    &&& o.winner == winner
    &&& o.winner_name@ == runs[winner].name
    &&& text::views(o.scores@) == runs.map_values(|v: RunView| (v.rank, v.score))
    &&& o.winner_event_count == runs[winner].events.len()
    &&& o.rejected_branch_ids@ == loser_ids(runs, winner, ids, runs.len() as int)
}

/// Why a round fails, given how many candidates there are and how many finished.
pub open spec fn round_failure(candidates: int, finished: int) -> Option<Seq<char>> {
    if candidates == 0 {
        Some("best_of_n: no candidates supplied"@)
    } else if finished == 0 {
        Some("best_of_n: all candidate tasks panicked"@)
    } else {
        None
    }
}

/// Why a round fails, given how many candidates there are and how many finished.
pub fn round_error(candidates: usize, finished: usize) -> (r: Option<&'static str>)
    ensures
        match r {
            Some(t) => round_failure(candidates as int, finished as int) == Some(t@),
            None => round_failure(candidates as int, finished as int) is None,
        },
{
    if candidates == 0 {
        Some("best_of_n: no candidates supplied")
    } else if finished == 0 {
        Some("best_of_n: all candidate tasks panicked")
    } else {
        None
    }
}

/// The runs of all candidates, one per candidate in the order of submission, given
/// the events and the score of each whose task did not panic.
pub fn collect_runs(names: &Vec<String>, ends: Vec<Option<(Vec<Event>, Rating)>>) -> (r: Vec<
    CandidateRun,
>)
    requires
        names@.len() == ends@.len(),
    ensures
        text::views(r@) == Seq::new(names@.len(), |i: int| run_of(names@[i]@, ends@[i])),
        forall|i: int| 0 <= i < r@.len() ==> rated((#[trigger] r@[i])@),
{
    let ghost all = Seq::new(names@.len(), |i: int| run_of(names@[i]@, ends@[i]));
    let ghost given = ends@;
    let mut rest = ends;
    let mut out: Vec<CandidateRun> = Vec::new();
    let mut i: usize = 0;
    assert(text::views(out@) =~= all.take(0));
    while i < names.len()
        invariant
            i <= names@.len(),
            rest@.len() == names@.len(),
            given.len() == names@.len(),
            forall|k: int| i <= k < names@.len() ==> #[trigger] rest@[k] == given[k],
            all == Seq::new(names@.len(), |i: int| run_of(names@[i]@, given[i])),
            out@.len() == i,
            text::views(out@) == all.take(i as int),
        decreases names@.len() - i,
    {
        let ghost before = text::views(out@);
        let ghost now = rest@;
        let name = names[i].clone();
        let mut end: Option<(Vec<Event>, Rating)> = None;
        std::mem::swap(&mut end, &mut rest[i]);
        assert(end == given[i as int]);
        let run = match end {
            Some((events, rating)) => CandidateRun { name, finished: true, events, rating },
            None => CandidateRun {
                name,
                finished: false,
                events: Vec::new(),
                rating: Rating::failed(),
            },
        };
        assert(run@ =~= all[i as int]);
        out.push(run);
        proof {
            assert(text::views(out@) =~= before.push(run@));
            seqs::lemma_take_push(all, i as int);
            assert forall|k: int| i + 1 <= k < names@.len() implies #[trigger] rest@[k] == given[k] by {
                assert(now[k] == given[k]);
            }
        }
        i += 1;
    }
    proof {
        assert(all.take(i as int) =~= all);
        assert forall|k: int| 0 <= k < out@.len() implies rated((#[trigger] out@[k])@) by {
            assert(text::views(out@)[k] == all[k]);
        }
    }
    out
}

/// How many candidates finished.
pub fn count_finished(runs: &Vec<CandidateRun>) -> (r: usize)
    ensures
        r == finished_count(text::views(runs@)),
{
    let ghost all = text::views(runs@);
    let mut n: usize = 0;
    let mut i: usize = 0;
    assert(all.take(0) =~= Seq::empty());
    while i < runs.len()
        invariant
            n <= i <= runs@.len(),
            all == text::views(runs@),
            n == finished_count(all.take(i as int)),
        decreases runs@.len() - i,
    {
        proof {
            assert(all.take(i + 1).drop_last() =~= all.take(i as int));
            assert(all.take(i + 1).last() == runs@[i as int]@);
        }
        if runs[i].finished {
            n += 1;
        }
        i += 1;
    }
    assert(all.take(i as int) =~= all);
    n
}

/// The index of the winning run.
pub fn choose_winner(runs: &Vec<CandidateRun>) -> (r: usize)
    requires
        runs@.len() > 0,
    ensures
        r == winner_of(text::views(runs@)),
        r < runs@.len(),
{
    let ghost all = text::views(runs@);
    let mut best: usize = 0;
    let mut i: usize = 1;
    assert(all.take(1).len() == 1);
    while i < runs.len()
        invariant
            1 <= i <= runs@.len(),
            best < i,
            all == text::views(runs@),
            best == winner_of(all.take(i as int)),
        decreases runs@.len() - i,
    {
        proof {
            assert(all.take(i + 1).drop_last() =~= all.take(i as int));
            assert(all.take(i + 1)[best as int] == runs@[best as int]@);
            assert(all.take(i + 1).last() == runs@[i as int]@);
        }
        let ahead = runs[best].finished && (!runs[i].finished || match (
            runs[best].rating.rank,
            runs[i].rating.rank,
        ) {
            (Some(x), Some(y)) => x > y,
            _ => false,
        });
        if !ahead {
            best = i;
        }
        i += 1;
    }
    assert(all.take(i as int) =~= all);
    best
}

fn publish_all(bus: &mut EventBus, events: &Vec<Event>)
    ensures
        final(bus)@ == all_published(old(bus)@, text::views(events@)),
        final(bus).config == old(bus).config,
{
    let ghost es = text::views(events@);
    let ghost d0 = bus@;
    let mut i: usize = 0;
    while i < events.len()
        invariant
            i <= events@.len(),
            es == text::views(events@),
            bus@ == all_published(d0, es.take(i as int)),
            bus.config == old(bus).config,
        decreases events@.len() - i,
    {
        assert(es.take(i + 1).drop_last() =~= es.take(i as int));
        let e = events[i].clone();
        bus.publish(e);
        i += 1;
    }
    assert(es.take(i as int) =~= es);
}

fn scores_of(runs: &Vec<CandidateRun>) -> (r: Vec<Rating>)
    ensures
        text::views(r@) == text::views(runs@).map_values(|v: RunView| (v.rank, v.score)),
{
    let ghost all = text::views(runs@).map_values(|v: RunView| (v.rank, v.score));
    let mut out: Vec<Rating> = Vec::new();
    let mut i: usize = 0;
    assert(text::views(out@) =~= all.take(0));
    while i < runs.len()
        invariant
            i <= runs@.len(),
            all == text::views(runs@).map_values(|v: RunView| (v.rank, v.score)),
            text::views(out@) == all.take(i as int),
        decreases runs@.len() - i,
    {
        let ghost before = text::views(out@);
        let rating = Rating { rank: runs[i].rating.rank, score: runs[i].rating.score.clone() };
        out.push(rating);
        proof {
            seqs::lemma_take_push(all, i as int);
            assert(all[i as int] == rating@);
            assert(text::views(out@) =~= before.push(rating@));
        }
        i += 1;
    }
    assert(all.take(i as int) =~= all);
    out
}

fn score_numbers(scores: &Vec<Rating>) -> (r: Vec<Json>)
    ensures
        json::items_view(r@) == numbers_of(text::views(scores@)),
{
    let ghost all = numbers_of(text::views(scores@));
    let mut out: Vec<Json> = Vec::new();
    let mut i: usize = 0;
    assert(json::items_view(out@) =~= all.take(0));
    while i < scores.len()
        invariant
            i <= scores@.len(),
            all == numbers_of(text::views(scores@)),
            json::items_view(out@) == all.take(i as int),
        decreases scores@.len() - i,
    {
        let score = scores[i].score.clone();
        proof {
            seqs::lemma_take_push(all, i as int);
            assert(all[i as int] == scores@[i as int]@.1);
            wire::lemma_items_push(out@, score);
        }
        out.push(score);
        i += 1;
    }
    assert(all.take(i as int) =~= all);
    out
}

fn id_texts(ids: &Vec<BranchId>) -> (r: Json)
    ensures
        r@ == bus::id_array(ids@),
{
    let ghost all = ids@.map_values(|id: EventId| JsonView::Text(event::uuid_text(id)));
    let mut out: Vec<Json> = Vec::new();
    let mut i: usize = 0;
    assert(json::items_view(out@) =~= all.take(0));
    while i < ids.len()
        invariant
            i <= ids@.len(),
            all == ids@.map_values(|id: EventId| JsonView::Text(event::uuid_text(id))),
            json::items_view(out@) == all.take(i as int),
        decreases ids@.len() - i,
    {
        let text = uuid_string(ids[i]);
        let item = Json::text(text.as_str());
        proof {
            seqs::lemma_take_push(all, i as int);
            wire::lemma_items_push(out@, item);
        }
        out.push(item);
        i += 1;
    }
    assert(all.take(i as int) =~= all);
    Json::Array(out)
}

/// Picks the winner of a round, splices its events onto the bus, and seals the losers
/// as rejected branches after `anchor` under the given IDs.
pub fn settle_runs(
    bus: &mut EventBus,
    anchor: Option<EventId>,
    runs: &Vec<CandidateRun>,
    ids: &Vec<BranchId>,
) -> (r: SpeculationOutcome)
    requires
        runs@.len() > 0,
        ids@.len() == runs@.len(),
    ensures
        settles(r, text::views(runs@), ids@),
        final(bus)@ == settled(
            old(bus)@,
            text::views(runs@),
            winner_of(text::views(runs@)),
            anchor,
            ids@,
            runs@.len() as int,
        ),
        final(bus).config == old(bus).config,
{
    let ghost all = text::views(runs@);
    let winner: usize = choose_winner(runs);
    let scores = scores_of(runs);
    let ghost d0 = bus@;
    let mut rejected: Vec<BranchId> = Vec::new();
    let mut i: usize = 0;
    while i < runs.len()
        invariant
            i <= runs@.len(),
            ids@.len() == runs@.len(),
            winner < runs@.len(),
            all == text::views(runs@),
            bus@ == settled(d0, all, winner as int, anchor, ids@, i as int),
            bus.config == old(bus).config,
            rejected@ == loser_ids(all, winner as int, ids@, i as int),
        decreases runs@.len() - i,
    {
        let run = &runs[i];
        assert(all[i as int] == run@);
        if i == winner {
            publish_all(bus, &run.events);
        } else if run.events.len() > 0 {
            let events = run.events.clone();
            assert(text::views(events@) =~= text::views(run.events@));
            bus.adopt_rejected_branch(anchor, events, ids[i]);
            rejected.push(ids[i]);
        }
        i += 1;
    }
    let name = runs[winner].name.clone();
    let winner_event_count: usize = runs[winner].events.len();
    assert(all[winner as int] == runs@[winner as int]@);
    SpeculationOutcome {
        winner,
        winner_name: name,
        scores,
        winner_event_count,
        rejected_branch_ids: rejected,
    }
}

/// The payload of the record of a round.
pub fn round_record(outcome: &SpeculationOutcome) -> (r: Json)
    ensures
        r@ == completed_json(
            outcome.winner as int,
            outcome.winner_name@,
            numbers_of(text::views(outcome.scores@)),
            outcome.rejected_branch_ids@,
        ),
{
    let listed = Json::Array(score_numbers(&outcome.scores));
    Json::Object(
        JsonMap::new().with("winner_index", Json::Unsigned(outcome.winner as u64)).with(
            "winner_name",
            Json::text(outcome.winner_name.as_str()),
        ).with("scores", listed).with(
            "rejected_branches",
            id_texts(&outcome.rejected_branch_ids),
        ),
    )
}

/// Settles a round and publishes the record of it.
pub fn settle_round(
    bus: &mut EventBus,
    anchor: Option<EventId>,
    runs: &Vec<CandidateRun>,
    ids: &Vec<BranchId>,
    record_id: EventId,
    time: Timestamp,
) -> (r: SpeculationOutcome)
    requires
        runs@.len() > 0,
        ids@.len() == runs@.len(),
    ensures
        settles(r, text::views(runs@), ids@),
        ({
            let all = text::views(runs@);
            let winner = winner_of(all);
            let n = all.len() as int;
            final(bus)@ == dag::published(
                settled(old(bus)@, all, winner, anchor, ids@, n),
                event::plain_event(
                    record_id,
                    time,
                    kinds::SPECULATION_COMPLETED@,
                    completed_json(
                        winner,
                        all[winner].name,
                        all.map_values(|v: RunView| v.score),
                        loser_ids(all, winner, ids@, n),
                    ),
                ),
            )
        }),
        final(bus).config == old(bus).config,
{
    let outcome = settle_runs(bus, anchor, runs, ids);
    assert(numbers_of(text::views(outcome.scores@)) =~= text::views(runs@).map_values(
        |v: RunView| v.score,
    ));
    let record = Event::at(
        record_id,
        time,
        kinds::SPECULATION_COMPLETED,
        round_record(&outcome),
    );
    bus.publish(record);
    outcome
}

} // verus!
