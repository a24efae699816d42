//! What holds of every session.
use crate::seqs;
use crate::dag;
use crate::bus;
use crate::bus::RollbackMarks;
use crate::dag::{BranchId, DagView};
use crate::event::{EventId, EventView};
use crate::json;
use crate::json::JsonView;
use crate::kinds;
use crate::text;
use vstd::prelude::*;

verus! {

// ── The log is complete ────────────────────────────────────────────────────

/// Where every named event is kept, the log holds one event per place of the
/// active branch.
pub proof fn law_log_is_full(d: DagView)
    requires
        dag::complete(d),
    ensures
        dag::events_of(d.nodes, d.path).len() == d.path.len(),
        forall|i: int|
            0 <= i < d.path.len() ==> #[trigger] dag::events_of(d.nodes, d.path)[i] == d.nodes[d.path[i]],
{
    let f = |id: EventId| dag::node(d.nodes, id);
    assert forall|i: int| 0 <= i < d.path.len() implies f(#[trigger] d.path[i]) is Some by {
        assert(d.path.contains(d.path[i]));
        assert(dag::referenced(d.path, d.branches, d.path[i]));
    }
    seqs::lemma_filter_map_total(d.path, f);
    assert forall|i: int| 0 <= i < d.path.len() implies #[trigger] dag::events_of(d.nodes, d.path)[i]
        == d.nodes[d.path[i]] by {
        assert(f(d.path[i]) is Some);
    }
}

/// The empty log is complete: it names no event that it does not hold.
pub proof fn law_empty_is_complete()
    ensures
        dag::complete(dag::empty_dag()),
{
}

proof fn lemma_append_complete(d: DagView, e: EventView)
    requires
        dag::complete(d),
    ensures
        dag::complete(dag::appended(d, e)),
{
    let a = dag::appended(d, e);
    assert forall|id: EventId| #[trigger] dag::referenced(a.path, a.branches, id) implies a.nodes.contains_key(
        id,
    ) by {
        if a.path.contains(id) && id != e.id {
            let i = choose|i: int| 0 <= i < a.path.len() && a.path[i] == id;
            assert(d.path[i] == id);
            assert(d.path.contains(id));
        }
        if id != e.id {
            assert(dag::referenced(d.path, d.branches, id));
        }
    }
}

/// Publishing keeps every named event.
pub proof fn law_publish_keeps_complete(d: DagView, e: EventView)
    requires
        dag::complete(d),
    ensures
        dag::complete(dag::published(d, e)),
{
    lemma_append_complete(d, dag::stored(d, e));
}

proof fn lemma_sealed_references(d: DagView, pos: int, branch: BranchId, id: EventId)
    requires
        0 <= pos <= d.path.len(),
    ensures
        dag::referenced(dag::sealed(d, pos, branch).path, dag::sealed(d, pos, branch).branches, id) <==> dag::referenced(
            d.path,
            d.branches,
            id,
        ),
{
    let s = dag::sealed(d, pos, branch);
    let b = dag::cut_branch(d, pos, branch);
    if d.path.contains(id) {
        let i = choose|i: int| 0 <= i < d.path.len() && d.path[i] == id;
        if i < pos {
            assert(s.path[i] == id);
            assert(s.path.contains(id));
        } else {
            assert(b.event_ids[i - pos] == id);
            assert(b.event_ids.contains(id));
            assert(s.branches[s.branches.len() - 1] == b);
        }
    }
    if exists|k: int| 0 <= k < d.branches.len() && (#[trigger] d.branches[k]).event_ids.contains(id) {
        let k = choose|k: int|
            0 <= k < d.branches.len() && (#[trigger] d.branches[k]).event_ids.contains(id);
        assert(s.branches[k] == d.branches[k]);
    }
    if s.path.contains(id) {
        let i = choose|i: int| 0 <= i < s.path.len() && s.path[i] == id;
        assert(d.path[i] == id);
        assert(d.path.contains(id));
    }
    if exists|k: int| 0 <= k < s.branches.len() && (#[trigger] s.branches[k]).event_ids.contains(id) {
        let k = choose|k: int|
            0 <= k < s.branches.len() && (#[trigger] s.branches[k]).event_ids.contains(id);
        if k < d.branches.len() {
            assert(d.branches[k] == s.branches[k]);
        } else {
            let i = choose|i: int| 0 <= i < b.event_ids.len() && b.event_ids[i] == id;
            assert(d.path[i + pos] == id);
            assert(d.path.contains(id));
        }
    }
}

proof fn lemma_kept_references(d: DagView, max: usize, id: EventId)
    requires
        dag::referenced(dag::evicted(d, max).path, dag::evicted(d, max).branches, id),
    ensures
        dag::referenced(d.path, d.branches, id),
{
    let e = dag::evicted(d, max);
    if !d.path.contains(id) && dag::excess(d, max) > 0 {
        let k = choose|k: int|
            0 <= k < e.branches.len() && (#[trigger] e.branches[k]).event_ids.contains(id);
        assert(d.branches[k + dag::excess(d, max)] == e.branches[k]);
    }
}

/// A rollback, with its eviction, keeps every event that is still named.
pub proof fn law_rollback_keeps_complete(d: DagView, pos: int, branch: BranchId, max: usize)
    requires
        dag::complete(d),
        0 <= pos <= d.path.len(),
    ensures
        dag::complete(bus::cut_back(d, pos, branch, max)),
{
    let s = dag::sealed(d, pos, branch);
    let e = bus::cut_back(d, pos, branch, max);
    assert forall|id: EventId| #[trigger] dag::referenced(e.path, e.branches, id) implies e.nodes.contains_key(
        id,
    ) by {
        lemma_kept_references(s, max, id);
        lemma_sealed_references(d, pos, branch, id);
    }
}

proof fn lemma_filtered_in(path: Seq<EventId>, f: spec_fn(EventId) -> Option<EventId>, id: EventId)
    requires
        forall|x: EventId| #[trigger] f(x) is Some ==> f(x) == Some(x),
        seqs::filter_map(path, f).contains(id),
    ensures
        path.contains(id),
        f(id) is Some,
    decreases path.len(),
{
    let out = seqs::filter_map(path, f);
    let k = choose|k: int| 0 <= k < out.len() && out[k] == id;
    if path.len() > 0 {
        let front = seqs::filter_map(path.drop_last(), f);
        if k < front.len() {
            assert(front[k] == id);
            assert(front.contains(id));
            lemma_filtered_in(path.drop_last(), f, id);
            let i = choose|i: int| 0 <= i < path.drop_last().len() && path.drop_last()[i] == id;
            assert(path[i] == id);
        } else {
            assert(path[path.len() - 1] == id);
        }
    }
}

/// Taking in a persisted event keeps every named event.
pub proof fn law_restore_keeps_complete(d: DagView, e: EventView, spare: BranchId)
    requires
        dag::complete(d),
    ensures
        dag::complete(bus::restored_one(d, e, spare)),
{
    if !bus::broadcast_only(e) {
        if e.kind == kinds::SYSTEM_ROLLBACK@ {
            let r = bus::replay(d, e.payload, spare);
            let ids = bus::rejected_ids(e.payload);
            if ids.len() > 0 {
                let f = |id: EventId|
                    if ids.contains(id) {
                        Some(id)
                    } else {
                        None
                    };
                let g = |id: EventId|
                    if ids.contains(id) {
                        None
                    } else {
                        Some(id)
                    };
                assert forall|id: EventId| #[trigger]
                    dag::referenced(r.path, r.branches, id) implies r.nodes.contains_key(id) by {
                    if r.path.contains(id) {
                        lemma_filtered_in(d.path, g, id);
                    } else {
                        let k = choose|k: int|
                            0 <= k < r.branches.len() && (
                            #[trigger] r.branches[k]).event_ids.contains(id);
                        if k < d.branches.len() {
                            assert(d.branches[k] == r.branches[k]);
                        } else {
                            lemma_filtered_in(d.path, f, id);
                        }
                    }
                    assert(dag::referenced(d.path, d.branches, id));
                }
            }
            lemma_append_complete(r, e);
        } else {
            lemma_append_complete(d, e);
        }
    }
}

// ── Publishing ─────────────────────────────────────────────────────────────

/// Publishing a new event appends it to the log and changes nothing before it.
pub proof fn law_publish_appends(d: DagView, e: EventView)
    requires
        !d.path.contains(e.id),
    ensures
        dag::events_of(dag::published(d, e).nodes, dag::published(d, e).path) == dag::events_of(d.nodes, d.path).push(
            dag::stored(d, e),
        ),
{
    let p = dag::published(d, e);
    let f = |id: EventId| dag::node(d.nodes, id);
    let g = |id: EventId| dag::node(p.nodes, id);
    assert(p.path.drop_last() =~= d.path);
    assert forall|i: int| 0 <= i < d.path.len() implies f(#[trigger] d.path[i]) == g(d.path[i]) by {
        assert(d.path.contains(d.path[i]));
    }
    seqs::lemma_filter_map_same(d.path, f, g);
}

/// Events form a chain: one that names no parent follows the event published
/// before it, and the first has none.
pub proof fn law_parents_chain(d: DagView, a: EventView, b: EventView)
    requires
        b.parent_event_id is None,
    ensures
        dag::stored(dag::published(d, a), b).parent_event_id == Some(a.id),
        dag::stored(dag::empty_dag(), b).parent_event_id is None,
{
}

// ── Rollback ───────────────────────────────────────────────────────────────

proof fn lemma_place(path: Seq<EventId>, id: EventId, i: int)
    requires
        0 <= i,
    ensures
        match dag::place_from(path, id, i) {
            Some(p) => i <= p < path.len() && path[p] == id,
            None => forall|j: int| i <= j < path.len() ==> path[j] != id,
        },
    decreases path.len() - i,
{
    if i < path.len() && path[i] != id {
        lemma_place(path, id, i + 1);
    }
}

/// A rollback fails exactly where the checkpoint is not on the active branch.
pub proof fn law_rollback_needs_checkpoint(path: Seq<EventId>, id: EventId)
    ensures
        dag::place(path, id) is None <==> !path.contains(id),
        dag::place(path, id) matches Some(p) ==> 0 <= p < path.len() && path[p] == id,
{
    lemma_place(path, id, 0);
    if dag::place(path, id) is Some {
        assert(path[dag::place(path, id)->0] == id);
    }
}

/// Evicting keeps the events of the active branch and of the kept branches.
proof fn lemma_evicted_events(d: DagView, max: usize, ids: Seq<EventId>)
    requires
        forall|i: int|
            0 <= i < ids.len() ==> dag::referenced(
                dag::evicted(d, max).path,
                dag::evicted(d, max).branches,
                #[trigger] ids[i],
            ),
    ensures
        dag::events_of(dag::evicted(d, max).nodes, ids) == dag::events_of(d.nodes, ids),
{
    let f = |id: EventId| dag::node(d.nodes, id);
    let g = |id: EventId| dag::node(dag::evicted(d, max).nodes, id);
    assert forall|i: int| 0 <= i < ids.len() implies f(#[trigger] ids[i]) == g(ids[i]) by {
        assert(dag::referenced(dag::evicted(d, max).path, dag::evicted(d, max).branches, ids[i]));
    }
    seqs::lemma_filter_map_same(ids, f, g);
}

/// After a rollback the log is what stood before the checkpoint, and then the
/// tombstone.
pub proof fn law_rollback_cuts_log(
    d: DagView,
    pos: int,
    marks: RollbackMarks,
    checkpoint: EventId,
    max: usize,
)
    requires
        0 <= pos < d.path.len(),
        dag::complete(d),
        !d.path.contains(marks.tombstone.id),
    ensures
        ({
            let r = bus::rolled_back(d, pos, marks, checkpoint, max);
            let cut = bus::cut_back(d, pos, marks.branch_id, max);
            dag::events_of(r.nodes, r.path) == dag::events_of(d.nodes, d.path).take(pos).push(
                dag::stored(
                    cut,
                    bus::tombstone_event(marks, checkpoint, dag::cut_branch(d, pos, marks.branch_id)),
                ),
            )
        }),
{
    let cut = bus::cut_back(d, pos, marks.branch_id, max);
    let s = dag::sealed(d, pos, marks.branch_id);
    let t = bus::tombstone_event(marks, checkpoint, dag::cut_branch(d, pos, marks.branch_id));
    if cut.path.contains(t.id) {
        let i = choose|i: int| 0 <= i < cut.path.len() && cut.path[i] == t.id;
        assert(d.path[i] == t.id);
        assert(d.path.contains(t.id));
    }
    law_publish_appends(cut, t);
    assert forall|i: int| 0 <= i < cut.path.len() implies dag::referenced(
        dag::evicted(s, max).path,
        dag::evicted(s, max).branches,
        #[trigger] cut.path[i],
    ) by {
        assert(cut.path.contains(cut.path[i]));
    }
    lemma_evicted_events(s, max, cut.path);
    law_log_is_full(d);
    let f = |id: EventId| dag::node(d.nodes, id);
    assert forall|i: int| 0 <= i < d.path.take(pos).len() implies f(
        #[trigger] d.path.take(pos)[i],
    ) is Some by {
        assert(d.path.contains(d.path[i]));
        assert(dag::referenced(d.path, d.branches, d.path[i]));
    }
    seqs::lemma_filter_map_total(d.path.take(pos), f);
    assert forall|i: int| 0 <= i < pos implies dag::events_of(d.nodes, d.path.take(pos))[i] == dag::events_of(
        d.nodes,
        d.path,
    )[i] by {
        assert(f(d.path.take(pos)[i]) is Some);
    }
    assert(dag::events_of(d.nodes, d.path.take(pos)) =~= dag::events_of(d.nodes, d.path).take(pos));
}

/// A rollback loses nothing while there is room for its branch: the newest
/// branch holds the events from the checkpoint on, in order.
pub proof fn law_rollback_keeps_rejected(d: DagView, pos: int, branch: BranchId, max: usize)
    requires
        0 <= pos < d.path.len(),
        dag::complete(d),
        max > 0,
    ensures
        ({
            let cut = bus::cut_back(d, pos, branch, max);
            &&& cut.branches.len() > 0
            &&& cut.branches.last() == dag::cut_branch(d, pos, branch)
            &&& dag::events_of(cut.nodes, cut.branches.last().event_ids) == dag::events_of(
                d.nodes,
                d.path,
            ).skip(pos)
        }),
{
    let cut = bus::cut_back(d, pos, branch, max);
    let s = dag::sealed(d, pos, branch);
    let ids = dag::cut_branch(d, pos, branch).event_ids;
    assert(cut.branches.last() == s.branches.last());
    assert forall|i: int| 0 <= i < ids.len() implies dag::referenced(
        dag::evicted(s, max).path,
        dag::evicted(s, max).branches,
        #[trigger] ids[i],
    ) by {
        assert(ids.contains(ids[i]));
        assert(cut.branches[cut.branches.len() - 1].event_ids.contains(ids[i]));
    }
    lemma_evicted_events(s, max, ids);
    law_log_is_full(d);
    let f = |id: EventId| dag::node(d.nodes, id);
    assert forall|i: int| 0 <= i < ids.len() implies f(#[trigger] ids[i]) is Some by {
        assert(ids[i] == d.path[i + pos]);
        assert(d.path.contains(d.path[i + pos]));
        assert(dag::referenced(d.path, d.branches, d.path[i + pos]));
    }
    seqs::lemma_filter_map_total(ids, f);
    assert forall|i: int| 0 <= i < ids.len() implies dag::events_of(d.nodes, ids)[i] == dag::events_of(
        d.nodes,
        d.path,
    ).skip(pos)[i] by {
        assert(f(ids[i]) is Some);
        assert(dag::events_of(d.nodes, d.path)[i + pos] == d.nodes[d.path[i + pos]]);
    }
    assert(dag::events_of(d.nodes, ids) =~= dag::events_of(d.nodes, d.path).skip(pos));
}

/// After a rollback no more branches are retained than the limit allows, and
/// the newest ones are; once branches were evicted, every kept event is named.
pub proof fn law_eviction_bound(d: DagView, max: usize)
    ensures
        dag::evicted(d, max).branches.len() <= max,
        dag::evicted(d, max).branches == d.branches.skip(dag::excess(d, max)),
        dag::evicted(d, max).path == d.path,
        dag::excess(d, max) > 0 ==> forall|id: EventId| #[trigger]
            dag::evicted(d, max).nodes.contains_key(id) ==> dag::referenced(
                dag::evicted(d, max).path,
                dag::evicted(d, max).branches,
                id,
            ),
{
    assert(d.branches.skip(0) =~= d.branches);
}

// ── Restoration ────────────────────────────────────────────────────────────

/// One thing that happens to a session.
pub enum Step {
    /// An event is published.
    Publish(EventView),
    /// An event is broadcast.
    Broadcast(EventView),
    /// The session is rolled back to a checkpoint.
    Rollback(EventId, RollbackMarks),
}

/// The session after a step.
pub open spec fn lived(d: DagView, max: usize, step: Step) -> DagView {
    match step {
        Step::Publish(e) => dag::published(d, e),
        Step::Broadcast(_) => d,
        Step::Rollback(checkpoint, marks) => match dag::place(d.path, checkpoint) {
            Some(pos) => bus::rolled_back(d, pos, marks, checkpoint, max),
            None => d,
        },
    }
}

/// What an observer sees of a step.
pub open spec fn observed(d: DagView, max: usize, step: Step) -> Seq<EventView> {
    match step {
        Step::Publish(e) => seq![dag::stored(d, e)],
        Step::Broadcast(e) => seq![crate::bus::ephemeral_view(e)],
        Step::Rollback(checkpoint, marks) => match dag::place(d.path, checkpoint) {
            Some(pos) => bus::rollback_news(d, pos, marks, checkpoint, max).push(
                dag::stored(
                    bus::cut_back(d, pos, marks.branch_id, max),
                    bus::tombstone_event(marks, checkpoint, dag::cut_branch(d, pos, marks.branch_id)),
                ),
            ),
            None => Seq::empty(),
        },
    }
}

/// Whether a step can happen: a published event is durable, no tombstone of
/// another rollback, and new to the active branch; a rollback's tombstone is new
/// too, and its branch can be read back from it.
pub open spec fn possible(d: DagView, max: usize, step: Step) -> bool {
    match step {
        Step::Publish(e) => {
            &&& !bus::broadcast_only(e)
            &&& e.kind != kinds::SYSTEM_ROLLBACK@
            &&& !d.path.contains(e.id)
        },
        Step::Broadcast(_) => true,
        Step::Rollback(checkpoint, marks) => match dag::place(d.path, checkpoint) {
            Some(pos) => {
                let branch = dag::cut_branch(d, pos, marks.branch_id);
                &&& !d.path.contains(marks.tombstone.id)
                &&& bus::records(bus::tombstone_event(marks, checkpoint, branch), branch)
            },
            None => true,
        },
    }
}

/// A session that lived through steps, and all that an observer saw of it.
pub open spec fn lived_through(max: usize, steps: Seq<Step>) -> (DagView, Seq<EventView>)
    decreases steps.len(),
{
    if steps.len() == 0 {
        (dag::empty_dag(), Seq::empty())
    } else {
        let (d, seen) = lived_through(max, steps.drop_last());
        (lived(d, max, steps.last()), seen + observed(d, max, steps.last()))
    }
}

/// Whether each step could happen when it did.
pub open spec fn all_possible(max: usize, steps: Seq<Step>) -> bool
    decreases steps.len(),
{
    steps.len() == 0 || (all_possible(max, steps.drop_last()) && possible(
        lived_through(max, steps.drop_last()).0,
        max,
        steps.last(),
    ))
}

/// How many branches a step seals.
pub open spec fn seals(d: DagView, step: Step) -> nat {
    match step {
        Step::Rollback(checkpoint, _) => if dag::place(d.path, checkpoint) is Some {
            1
        } else {
            0
        },
        _ => 0,
    }
}

/// How many branches were sealed in the course of steps.
pub open spec fn sealed_count(max: usize, steps: Seq<Step>) -> nat
    decreases steps.len(),
{
    if steps.len() == 0 {
        0
    } else {
        sealed_count(max, steps.drop_last()) + seals(
            lived_through(max, steps.drop_last()).0,
            steps.last(),
        )
    }
}

/// Whether `t` restores `s`: the same active branch, every kept event the same,
/// and the retained branches are the newest of those restored.
pub open spec fn restores(s: DagView, t: DagView) -> bool {
    &&& t.path == s.path
    &&& s.branches.len() <= t.branches.len()
    &&& s.branches == t.branches.skip(t.branches.len() - s.branches.len())
    &&& forall|id: EventId| #[trigger]
        s.nodes.contains_key(id) ==> t.nodes.contains_key(id) && t.nodes[id] == s.nodes[id]
}

proof fn lemma_among_all(path: Seq<EventId>, ids: Seq<EventId>)
    requires
        forall|i: int| 0 <= i < path.len() ==> ids.contains(#[trigger] path[i]),
    ensures
        bus::among(path, ids) == path,
        bus::without(path, ids) == Seq::<EventId>::empty(),
    decreases path.len(),
{
    if path.len() == 0 {
        assert(bus::among(path, ids) =~= path);
    } else {
        let front = path.drop_last();
        assert forall|i: int| 0 <= i < front.len() implies ids.contains(#[trigger] front[i]) by {
            assert(front[i] == path[i]);
        }
        lemma_among_all(front, ids);
        assert(ids.contains(path[path.len() - 1]));
        assert(front.push(path.last()) =~= path);
    }
}

proof fn lemma_among_none(path: Seq<EventId>, ids: Seq<EventId>)
    requires
        forall|i: int| 0 <= i < path.len() ==> !ids.contains(#[trigger] path[i]),
    ensures
        bus::among(path, ids) == Seq::<EventId>::empty(),
        bus::without(path, ids) == path,
    decreases path.len(),
{
    if path.len() == 0 {
        assert(bus::without(path, ids) =~= path);
    } else {
        let front = path.drop_last();
        assert forall|i: int| 0 <= i < front.len() implies !ids.contains(#[trigger] front[i]) by {
            assert(front[i] == path[i]);
        }
        lemma_among_none(front, ids);
        assert(!ids.contains(path[path.len() - 1]));
        assert(front.push(path.last()) =~= path);
    }
}

proof fn lemma_cut_by_ids(path: Seq<EventId>, pos: int)
    requires
        path.no_duplicates(),
        0 <= pos <= path.len(),
    ensures
        bus::among(path, path.skip(pos)) == path.skip(pos),
        bus::without(path, path.skip(pos)) == path.take(pos),
{
    let ids = path.skip(pos);
    let head = path.take(pos);
    assert(head + ids =~= path);
    assert forall|i: int| 0 <= i < head.len() implies !ids.contains(#[trigger] head[i]) by {
        if ids.contains(head[i]) {
            let j = choose|j: int| 0 <= j < ids.len() && ids[j] == head[i];
            assert(path[j + pos] == path[i]);
        }
    }
    assert forall|i: int| 0 <= i < ids.len() implies ids.contains(#[trigger] ids[i]) by {}
    lemma_among_none(head, ids);
    lemma_among_all(ids, ids);
    let f = |id: EventId|
        if ids.contains(id) {
            Some(id)
        } else {
            None
        };
    let g = |id: EventId|
        if ids.contains(id) {
            None
        } else {
            Some(id)
        };
    seqs::lemma_filter_map_concat(head, ids, f);
    seqs::lemma_filter_map_concat(head, ids, g);
    assert(Seq::<EventId>::empty() + ids =~= ids);
    assert(head + Seq::<EventId>::empty() =~= head);
}

proof fn lemma_distinct_push(path: Seq<EventId>, id: EventId)
    requires
        path.no_duplicates(),
        !path.contains(id),
    ensures
        path.push(id).no_duplicates(),
{
    assert forall|i: int, j: int|
        0 <= i < path.push(id).len() && 0 <= j < path.push(id).len() && i != j implies path.push(
        id,
    )[i] != path.push(id)[j] by {
        if i < path.len() {
            assert(path.contains(path[i]));
        }
        if j < path.len() {
            assert(path.contains(path[j]));
        }
    }
}

/// The marks of broadcast events keep them out of a restored session.
proof fn lemma_broadcasts_skipped(e: EventView)
    ensures
        bus::broadcast_only(crate::bus::ephemeral_view(e)),
{
}

proof fn lemma_restore_concat(
    d: DagView,
    a: Seq<EventView>,
    b: Seq<EventView>,
    x: Seq<BranchId>,
    y: Seq<BranchId>,
)
    requires
        x.len() == a.len(),
        y.len() == b.len(),
    ensures
        bus::restored(d, a + b, x + y) == bus::restored(bus::restored(d, a, x), b, y),
    decreases b.len(),
{
    if b.len() == 0 {
        assert(a + b =~= a);
        assert(x + y =~= x);
    } else {
        assert((a + b).drop_last() =~= a + b.drop_last());
        lemma_restore_concat(d, a, b.drop_last(), x, y.drop_last());
        lemma_restore_prefix(d, (a + b).drop_last(), x + y.drop_last(), x + y);
        lemma_restore_prefix(bus::restored(d, a, x), b.drop_last(), y.drop_last(), y);
        assert((x + y)[(a + b).len() - 1] == y[b.len() - 1]);
    }
}

/// Only as many spare IDs matter as there are events.
proof fn lemma_restore_prefix(
    d: DagView,
    events: Seq<EventView>,
    x: Seq<BranchId>,
    y: Seq<BranchId>,
)
    requires
        x.len() >= events.len(),
        y.len() >= events.len(),
        forall|i: int| 0 <= i < events.len() ==> x[i] == y[i],
    ensures
        bus::restored(d, events, x) == bus::restored(d, events, y),
    decreases events.len(),
{
    if events.len() > 0 {
        lemma_restore_prefix(d, events.drop_last(), x, y);
    }
}

proof fn lemma_step(s: DagView, t: DagView, max: usize, step: Step, spares: Seq<BranchId>)
    requires
        restores(s, t),
        s.path.no_duplicates(),
        possible(s, max, step),
        spares.len() == observed(s, max, step).len(),
    ensures
        restores(lived(s, max, step), bus::restored(t, observed(s, max, step), spares)),
        lived(s, max, step).path.no_duplicates(),
        bus::restored(t, observed(s, max, step), spares).branches.len() == t.branches.len() + seals(
            s,
            step,
        ),
        s.branches.len() + seals(s, step) <= max ==> lived(s, max, step).branches.len()
            == s.branches.len() + seals(s, step),
{
    reveal_with_fuel(bus::restored, 4);
    let seen = observed(s, max, step);
    match step {
        Step::Publish(e) => {
            assert(seen.drop_last() =~= Seq::empty());
            lemma_distinct_push(s.path, e.id);
        },
        Step::Broadcast(e) => {
            assert(seen.drop_last() =~= Seq::empty());
            lemma_broadcasts_skipped(e);
        },
        Step::Rollback(checkpoint, marks) => {
            law_rollback_needs_checkpoint(s.path, checkpoint);
            match dag::place(s.path, checkpoint) {
                None => {},
                Some(pos) => {
                    let branch = dag::cut_branch(s, pos, marks.branch_id);
                    let tomb = bus::tombstone_event(marks, checkpoint, branch);
                    let cut = bus::cut_back(s, pos, marks.branch_id, max);
                    let e = dag::stored(cut, tomb);
                    let news = bus::rollback_news(s, pos, marks, checkpoint, max);
                    let live = bus::rolled_back(s, pos, marks, checkpoint, max);
                    // The news are skipped.
                    assert(seen.drop_last() =~= news);
                    assert forall|i: int| 0 <= i < news.len() implies bus::broadcast_only(
                        #[trigger] news[i],
                    ) by {}
                    lemma_skip_all(t, news, spares);
                    // The tombstone moves the same events.
                    lemma_cut_by_ids(s.path, pos);
                    assert(!bus::broadcast_only(e)) by {
                        reveal_strlit("system.rollback");
                        reveal_strlit("assistant.delta");
                        reveal_strlit("system.branch_sealed");
                        reveal_strlit("system.pruned");
                        assert(kinds::SYSTEM_ROLLBACK@.len() == 15);
                        assert(kinds::ASSISTANT_DELTA@[0] == 'a');
                        assert(kinds::SYSTEM_ROLLBACK@[0] == 's');
                        assert(kinds::BRANCH_SEALED@.len() == 20);
                        assert(kinds::SYSTEM_PRUNED@.len() == 13);
                    }
                    assert(bus::rejected_ids(e.payload) == s.path.skip(pos));
                    assert(s.path.skip(pos).len() > 0);
                    let r = bus::replay(t, e.payload, spares[seen.len() - 1]);
                    assert(r.path == s.path.take(pos));
                    assert(r.branches =~= t.branches.push(branch));
                    let after = dag::appended(r, e);
                    assert(bus::restored(t, seen, spares) == after);
                    let n = live.branches.len();
                    assert(live.branches =~= after.branches.skip(after.branches.len() - n));
                    assert(s.path.take(pos).no_duplicates());
                    if s.path.take(pos).contains(e.id) {
                        let i = choose|i: int| 0 <= i < pos && s.path.take(pos)[i] == e.id;
                        assert(s.path[i] == e.id);
                        assert(s.path.contains(e.id));
                    }
                    lemma_distinct_push(s.path.take(pos), e.id);
                },
            }
        },
    }
}

proof fn lemma_skip_all(d: DagView, events: Seq<EventView>, spares: Seq<BranchId>)
    requires
        forall|i: int| 0 <= i < events.len() ==> bus::broadcast_only(#[trigger] events[i]),
    ensures
        bus::restored(d, events, spares) == d,
    decreases events.len(),
{
    if events.len() > 0 {
        let front = events.drop_last();
        assert forall|i: int| 0 <= i < front.len() implies bus::broadcast_only(#[trigger] front[i]) by {
            assert(front[i] == events[i]);
        }
        lemma_skip_all(d, front, spares);
        assert(bus::broadcast_only(events[events.len() - 1]));
    }
}

/// A session restored from all that an observer saw has the active branch of the
/// original, event for event, and the branches that the original retained as its
/// newest: nothing that was rolled back comes back, and nothing that was only
/// broadcast comes in.
pub proof fn law_restore_rebuilds(max: usize, steps: Seq<Step>, spares: Seq<BranchId>)
    requires
        all_possible(max, steps),
        spares.len() == lived_through(max, steps).1.len(),
    ensures
        restores(
            lived_through(max, steps).0,
            bus::restored(dag::empty_dag(), lived_through(max, steps).1, spares),
        ),
        lived_through(max, steps).0.path.no_duplicates(),
    decreases steps.len(),
{
    if steps.len() == 0 {
        assert(dag::empty_dag().branches.skip(0) =~= dag::empty_dag().branches);
    } else {
        let (d, seen) = lived_through(max, steps.drop_last());
        let more = observed(d, max, steps.last());
        let x = spares.take(seen.len() as int);
        let y = spares.skip(seen.len() as int);
        assert(x + y =~= spares);
        law_restore_rebuilds(max, steps.drop_last(), x);
        lemma_restore_concat(dag::empty_dag(), seen, more, x, y);
        lemma_step(d, bus::restored(dag::empty_dag(), seen, x), max, steps.last(), y);
    }
}

proof fn lemma_lived_complete(max: usize, steps: Seq<Step>)
    ensures
        dag::complete(lived_through(max, steps).0),
    decreases steps.len(),
{
    if steps.len() > 0 {
        lemma_lived_complete(max, steps.drop_last());
        let d = lived_through(max, steps.drop_last()).0;
        match steps.last() {
            Step::Publish(e) => {
                law_publish_keeps_complete(d, e);
            },
            Step::Broadcast(_) => {},
            Step::Rollback(checkpoint, marks) => {
                law_rollback_needs_checkpoint(d.path, checkpoint);
                match dag::place(d.path, checkpoint) {
                    None => {},
                    Some(pos) => {
                        law_rollback_keeps_complete(d, pos, marks.branch_id, max);
                        law_publish_keeps_complete(
                            bus::cut_back(d, pos, marks.branch_id, max),
                            bus::tombstone_event(
                                marks,
                                checkpoint,
                                dag::cut_branch(d, pos, marks.branch_id),
                            ),
                        );
                    },
                }
            },
        }
    }
}

/// Where no branch was evicted, a session restored from all that an observer saw has
/// the same rejected branches as the original, in the same order.
pub proof fn law_restored_branches(max: usize, steps: Seq<Step>, spares: Seq<BranchId>)
    requires
        all_possible(max, steps),
        spares.len() == lived_through(max, steps).1.len(),
        sealed_count(max, steps) <= max,
    ensures
        bus::restored(dag::empty_dag(), lived_through(max, steps).1, spares).branches
            == lived_through(max, steps).0.branches,
        lived_through(max, steps).0.branches.len() == sealed_count(max, steps),
    decreases steps.len(),
{
    law_restore_rebuilds(max, steps, spares);
    if steps.len() > 0 {
        let (d, seen) = lived_through(max, steps.drop_last());
        let more = observed(d, max, steps.last());
        let x = spares.take(seen.len() as int);
        let y = spares.skip(seen.len() as int);
        assert(x + y =~= spares);
        law_restored_branches(max, steps.drop_last(), x);
        law_restore_rebuilds(max, steps.drop_last(), x);
        lemma_restore_concat(dag::empty_dag(), seen, more, x, y);
        lemma_step(d, bus::restored(dag::empty_dag(), seen, x), max, steps.last(), y);
    }
    let s = lived_through(max, steps).0;
    let t = bus::restored(dag::empty_dag(), lived_through(max, steps).1, spares);
    assert(t.branches.skip(0) =~= t.branches);
}

/// The log of a restored session is the log of the original.
pub proof fn law_restored_log(max: usize, steps: Seq<Step>, spares: Seq<BranchId>)
    requires
        all_possible(max, steps),
        spares.len() == lived_through(max, steps).1.len(),
    ensures
        ({
            let s = lived_through(max, steps).0;
            let t = bus::restored(dag::empty_dag(), lived_through(max, steps).1, spares);
            dag::events_of(t.nodes, t.path) == dag::events_of(s.nodes, s.path)
        }),
{
    law_restore_rebuilds(max, steps, spares);
    lemma_lived_complete(max, steps);
    let s = lived_through(max, steps).0;
    let t = bus::restored(dag::empty_dag(), lived_through(max, steps).1, spares);
    let f = |id: EventId| dag::node(s.nodes, id);
    let g = |id: EventId| dag::node(t.nodes, id);
    assert forall|i: int| 0 <= i < s.path.len() implies f(#[trigger] s.path[i]) == g(s.path[i]) by {
        assert(s.path.contains(s.path[i]));
        assert(dag::referenced(s.path, s.branches, s.path[i]));
    }
    seqs::lemma_filter_map_same(s.path, f, g);
}

// ── Masking ────────────────────────────────────────────────────────────────

/// A secret is gone from a masked text, in whatever order it stands among the
/// secrets, unless it can overlap the text that stands in its place.
pub proof fn law_masked_text_has_no_secret(plain: Seq<char>, secrets: Seq<Seq<char>>, i: int)
    requires
        0 <= i < secrets.len(),
        secrets[i].len() > 0,
        text::apart(secrets[i], "[REDACTED]"@),
    ensures
        !text::contains(bus::masked_text(plain, secrets), secrets[i]),
    decreases secrets.len(),
{
    reveal_strlit("[REDACTED]");
    let before = bus::masked_text(plain, secrets.drop_last());
    if i < secrets.len() - 1 {
        assert(secrets.drop_last()[i] == secrets[i]);
        law_masked_text_has_no_secret(plain, secrets.drop_last(), i);
    }
    text::lemma_replace_keeps_away(before, secrets.last(), "[REDACTED]"@, secrets[i]);
}

proof fn lemma_sought(secrets: Seq<Seq<char>>, i: int)
    requires
        0 <= i < secrets.len(),
    ensures
        bus::sought_words(secrets).contains(secrets[i]),
        bus::sought_words(secrets).contains(bus::quoted_form(secrets[i])),
    decreases secrets.len(),
{
    let all = bus::sought_words(secrets);
    let front = bus::sought_words(secrets.drop_last());
    let s = secrets.last();
    let n = front.len() as int;
    if i < secrets.len() - 1 {
        lemma_sought(secrets.drop_last(), i);
        let a = choose|a: int| 0 <= a < front.len() && front[a] == secrets[i];
        let b = choose|b: int| 0 <= b < front.len() && front[b] == bus::quoted_form(secrets[i]);
        assert(all[a] == secrets[i]);
        assert(all[b] == bus::quoted_form(secrets[i]));
    } else {
        assert(all[n] == s);
        if bus::quoted_form(s) != s {
            assert(all[n + 1] == bus::quoted_form(s));
        }
    }
}

/// A secret is never stored: the text of a masked payload holds neither the secret nor
/// its form in a JSON document, unless the payload is nothing but the mark, or the word
/// is part of the mark.
pub proof fn law_no_secret_is_stored(
    payload: JsonView,
    secrets: Seq<Seq<char>>,
    i: int,
    word: Seq<char>,
)
    requires
        0 <= i < secrets.len(),
        word == secrets[i] || word == bus::quoted_form(secrets[i]),
        word.len() > 0,
        !text::contains("\"[REDACTED]\""@, word),
    ensures
        bus::masked_payload(payload, secrets) == JsonView::Text("[REDACTED]"@) || !text::contains(
            json::json_text(bus::masked_payload(payload, secrets)),
            word,
        ),
{
    let words = bus::sought_words(secrets);
    lemma_sought(secrets, i);
    let k = choose|k: int| 0 <= k < words.len() && words[k] == word;
    assert(words[k].len() > 0);
}

} // verus!
