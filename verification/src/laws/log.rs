//! Laws of the log: publishing, rolling back, restoring, forking, and what is told of
//! what was lost.
use crate::bus;
use crate::bus::RollbackMarks;
use crate::dag;
use crate::dag::{BranchDataView, BranchId, BranchView, DagView};
use crate::event;
use crate::event::{EventId, EventView};
use crate::eviction;
use crate::json;
use crate::json::JsonView;
use crate::laws::texts;
use crate::llm::types::Role;
use crate::seqs;
use crate::text;
use vstd::prelude::*;

verus! {

/// A fork has the log of the session that it was made from: the same events in the
/// same order, and so the same tip. What was rejected stays behind.
pub proof fn law_fork_has_the_same_log(d: DagView)
    ensures
        dag::events_of(bus::forked(d).nodes, bus::forked(d).path) == dag::events_of(
            d.nodes,
            d.path,
        ),
        bus::forked(d).path == d.path,
        dag::tip(bus::forked(d)) == dag::tip(d),
        bus::forked(d).branches.len() == 0,
        dag::complete(d) ==> dag::complete(bus::forked(d)),
{
    let r = bus::forked(d);
    let f = |id: EventId| dag::node(d.nodes, id);
    let g = |id: EventId| dag::node(r.nodes, id);
    assert forall|i: int| 0 <= i < d.path.len() implies f(#[trigger] d.path[i]) == g(d.path[i]) by {
        assert(d.path.contains(d.path[i]));
    }
    seqs::lemma_filter_map_same(d.path, f, g);
    if dag::complete(d) {
        assert forall|id: EventId| #[trigger]
            dag::referenced(r.path, r.branches, id) implies r.nodes.contains_key(id) by {
            assert(dag::referenced(d.path, d.branches, id));
        }
    }
}

/// What is published on a fork follows what was published before it, and the events
/// from before stay where they were.
pub proof fn law_fork_goes_on_from_the_tip(d: DagView, e: EventView)
    requires
        e.parent_event_id is None,
    ensures
        dag::published(bus::forked(d), e).path == d.path.push(e.id),
        dag::published(bus::forked(d), e).nodes.contains_key(e.id),
        dag::published(bus::forked(d), e).nodes[e.id] == (EventView {
            parent_event_id: if d.path.len() == 0 {
                None
            } else {
                Some(d.path[d.path.len() - 1])
            },
            ..e
        }),
        forall|id: EventId|
            id != e.id && d.path.contains(id) && d.nodes.contains_key(id) ==> #[trigger] dag::published(
                bus::forked(d),
                e,
            ).nodes.contains_key(id) && dag::published(bus::forked(d), e).nodes[id] == d.nodes[id],
{
}

proof fn lemma_with_nodes(nodes: Map<EventId, EventView>, events: Seq<EventView>)
    requires
        forall|i: int, j: int|
            0 <= i < j < events.len() ==> (#[trigger] events[i]).id != (#[trigger] events[j]).id,
    ensures
        forall|i: int|
            0 <= i < events.len() ==> bus::with_nodes(nodes, events).contains_key(
                (#[trigger] events[i]).id,
            ) && bus::with_nodes(nodes, events)[events[i].id] == events[i],
        forall|id: EventId| #[trigger]
            nodes.contains_key(id) ==> bus::with_nodes(nodes, events).contains_key(id),
        forall|id: EventId| #[trigger]
            nodes.contains_key(id) && (forall|i: int|
                0 <= i < events.len() ==> (#[trigger] events[i]).id != id) ==> bus::with_nodes(
                nodes,
                events,
            )[id] == nodes[id],
    decreases events.len(),
{
    if events.len() > 0 {
        let front = events.drop_last();
        assert forall|i: int, j: int| 0 <= i < j < front.len() implies (#[trigger] front[i]).id
            != (#[trigger] front[j]).id by {
            assert(events[i].id != events[j].id);
        }
        lemma_with_nodes(nodes, front);
        let all = bus::with_nodes(nodes, events);
        assert forall|i: int| 0 <= i < events.len() implies all.contains_key(
            (#[trigger] events[i]).id,
        ) && all[events[i].id] == events[i] by {
            if i < front.len() {
                assert(front[i] == events[i]);
                assert(events[i].id != events[events.len() - 1].id);
            }
        }
        assert forall|id: EventId| #[trigger]
            nodes.contains_key(id) && (forall|i: int|
                0 <= i < events.len() ==> (#[trigger] events[i]).id != id) implies all[id]
            == nodes[id] by {
            assert(events[events.len() - 1].id != id);
            assert forall|i: int| 0 <= i < front.len() implies (#[trigger] front[i]).id != id by {
                assert(events[i].id != id);
            }
        }
    }
}

/// A grafted branch holds its events in their order, after the event that it diverged
/// from. The active branch and the branches from before stay as they were.
pub proof fn law_graft_keeps_its_events(
    d: DagView,
    anchor: Option<EventId>,
    events: Seq<EventView>,
    id: BranchId,
)
    requires
        forall|i: int, j: int|
            0 <= i < j < events.len() ==> (#[trigger] events[i]).id != (#[trigger] events[j]).id,
    ensures
        ({
            let r = bus::adopted(d, anchor, events, id);
            let b = r.branches[r.branches.len() - 1];
            &&& r.path == d.path
            &&& r.branches.len() == d.branches.len() + 1
            &&& r.branches.drop_last() == d.branches
            &&& b.id == id
            &&& b.parent_event_id == anchor
            &&& dag::events_of(r.nodes, b.event_ids) == events
        }),
{
    let r = bus::adopted(d, anchor, events, id);
    let b = r.branches[r.branches.len() - 1];
    lemma_with_nodes(d.nodes, events);
    assert(r.branches.drop_last() =~= d.branches);
    let f = |i: EventId| dag::node(r.nodes, i);
    assert forall|i: int| 0 <= i < b.event_ids.len() implies f(#[trigger] b.event_ids[i]) == Some(
        events[i],
    ) by {
        assert(b.event_ids[i] == events[i].id);
        assert(r.nodes.contains_key(events[i].id));
    }
    seqs::lemma_filter_map_total(b.event_ids, f);
    assert(dag::events_of(r.nodes, b.event_ids) =~= events) by {
        assert forall|i: int| 0 <= i < events.len() implies dag::events_of(r.nodes, b.event_ids)[i]
            == events[i] by {
            assert(f(b.event_ids[i]) == Some(events[i]));
        }
    }
}

/// The log is read in order: the events of two lists one after the other are those of
/// the first and then those of the second, and one kept event gives itself.
pub proof fn law_log_is_read_in_order(
    nodes: Map<EventId, EventView>,
    a: Seq<EventId>,
    b: Seq<EventId>,
    id: EventId,
)
    ensures
        dag::events_of(nodes, a + b) == dag::events_of(nodes, a) + dag::events_of(nodes, b),
        nodes.contains_key(id) ==> dag::events_of(nodes, seq![id]) == seq![nodes[id]],
        !nodes.contains_key(id) ==> dag::events_of(nodes, seq![id]).len() == 0,
{
    let f = |i: EventId| dag::node(nodes, i);
    seqs::lemma_filter_map_concat(a, b, f);
    assert(seq![id] =~= Seq::<EventId>::empty().push(id));
    seqs::lemma_filter_map_push(Seq::<EventId>::empty(), f, id);
    assert(seqs::filter_map(Seq::<EventId>::empty(), f) =~= Seq::empty());
    if nodes.contains_key(id) {
        assert(dag::events_of(nodes, seq![id]) =~= seq![nodes[id]]);
    }
}

/// An event is stored as it came. Only where it names no parent, it gets the newest event
/// for one.
pub proof fn law_event_is_stored_as_it_came(d: DagView, e: EventView)
    ensures
        ({
            let s = dag::stored(d, e);
            &&& s.id == e.id
            &&& s.timestamp == e.timestamp
            &&& s.kind == e.kind
            &&& s.payload == e.payload
            &&& s.metadata == e.metadata
            &&& e.parent_event_id is Some ==> s.parent_event_id == e.parent_event_id
            &&& e.parent_event_id is None && d.path.len() > 0 ==> s.parent_event_id == Some(
                d.path[d.path.len() - 1],
            )
            &&& e.parent_event_id is None && d.path.len() == 0 ==> s.parent_event_id is None
        }),
        dag::published(d, e).branches == d.branches,
        dag::published(d, e).path.drop_last() == d.path,
        dag::published(d, e).nodes[e.id] == dag::stored(d, e),
{
    assert(dag::published(d, e).path.drop_last() =~= d.path);
}

/// A checkpoint is found at its first place.
pub proof fn law_checkpoint_is_found(path: Seq<EventId>, p: int)
    requires
        0 <= p < path.len(),
        forall|j: int| 0 <= j < p ==> path[j] != path[p],
    ensures
        dag::place(path, path[p]) == Some(p),
{
    lemma_place_from(path, 0, p);
}

proof fn lemma_place_from(path: Seq<EventId>, i: int, p: int)
    requires
        0 <= i <= p < path.len(),
        forall|j: int| 0 <= j < p ==> path[j] != path[p],
    ensures
        dag::place_from(path, path[p], i) == Some(p),
    decreases p - i,
{
    if i < p {
        lemma_place_from(path, i + 1, p);
    }
}

/// A rollback parts the active branch at the checkpoint: what stays and what is sealed
/// are together what was there. The sealed branch hangs on the last event that stays.
pub proof fn law_rollback_parts_the_branch(d: DagView, pos: int, id: BranchId)
    requires
        0 <= pos <= d.path.len(),
    ensures
        ({
            let r = dag::sealed(d, pos, id);
            let b = r.branches[r.branches.len() - 1];
            &&& r.path.len() == pos
            &&& r.path + b.event_ids == d.path
            &&& r.branches.drop_last() == d.branches
            &&& r.nodes == d.nodes
            &&& b.id == id
            &&& b.parent_event_id == dag::tip(r)
        }),
{
    let r = dag::sealed(d, pos, id);
    let b = r.branches[r.branches.len() - 1];
    assert(r.path + b.event_ids =~= d.path);
    assert(r.branches.drop_last() =~= d.branches);
}

/// The oldest branches go first, no more than have to; what the active branch and the
/// kept branches name is kept.
pub proof fn law_oldest_branches_go(d: DagView, max: usize)
    ensures
        ({
            let r = dag::evicted(d, max);
            &&& r.branches.is_suffix_of(d.branches)
            &&& r.branches.len() == (if d.branches.len() > max {
                max as nat
            } else {
                d.branches.len()
            })
            &&& r.path == d.path
            &&& forall|id: EventId|
                d.nodes.contains_key(id) && d.path.contains(id) ==> #[trigger] r.nodes.contains_key(
                    id,
                ) && r.nodes[id] == d.nodes[id]
            &&& forall|b: int, id: EventId|
                0 <= b < r.branches.len() && #[trigger] r.branches[b].event_ids.contains(id)
                    && d.nodes.contains_key(id) ==> r.nodes.contains_key(id) && r.nodes[id]
                    == d.nodes[id]
        }),
{
    let r = dag::evicted(d, max);
    if d.branches.len() > max {
        assert(r.branches =~= d.branches.subrange(
            d.branches.len() - r.branches.len(),
            d.branches.len() as int,
        ));
    } else {
        assert(d.branches =~= d.branches.subrange(0, d.branches.len() as int));
    }
    assert forall|id: EventId| d.nodes.contains_key(id) && d.path.contains(
        id,
    ) implies #[trigger] r.nodes.contains_key(id) && r.nodes[id] == d.nodes[id] by {
        assert(dag::referenced(d.path, r.branches, id));
    }
    assert forall|b: int, id: EventId|
        0 <= b < r.branches.len() && #[trigger] r.branches[b].event_ids.contains(id)
            && d.nodes.contains_key(id) implies r.nodes.contains_key(id) && r.nodes[id]
        == d.nodes[id] by {
        assert(dag::referenced(d.path, r.branches, id));
    }
}

/// What is handed on of a branch is the branch: its ID, its parent and its events.
pub proof fn law_branch_is_handed_on(nodes: Map<EventId, EventView>, b: BranchView)
    requires
        forall|i: int| 0 <= i < b.event_ids.len() ==> nodes.contains_key(#[trigger] b.event_ids[i]),
    ensures
        ({
            let r = dag::branch_data(nodes, b);
            &&& r.id == b.id
            &&& r.parent_event_id == b.parent_event_id
            &&& r.events.len() == b.event_ids.len()
            &&& forall|i: int|
                0 <= i < b.event_ids.len() ==> #[trigger] r.events[i] == nodes[b.event_ids[i]]
        }),
{
    let f = |id: EventId| dag::node(nodes, id);
    assert forall|i: int| 0 <= i < b.event_ids.len() implies f(#[trigger] b.event_ids[i]) is Some by {
        assert(nodes.contains_key(b.event_ids[i]));
    }
    seqs::lemma_filter_map_total(b.event_ids, f);
    assert forall|i: int| 0 <= i < b.event_ids.len() implies #[trigger] dag::branch_data(
        nodes,
        b,
    ).events[i] == nodes[b.event_ids[i]] by {
        assert(f(b.event_ids[i]) is Some);
    }
}

proof fn lemma_record_keys()
    ensures
        "branch_id"@ != "checkpoint_event_id"@,
        "branch_id"@ != "parent_event_id"@,
        "branch_id"@ != "rejected_event_ids"@,
        "branch_id"@ != "reason"@,
        "checkpoint_event_id"@ != "parent_event_id"@,
        "checkpoint_event_id"@ != "rejected_event_ids"@,
        "checkpoint_event_id"@ != "reason"@,
        "parent_event_id"@ != "rejected_event_ids"@,
        "evicted_branches"@ != "evicted_nodes"@,
        "branch_id"@ != "events_lost"@,
        "branch_id"@ != "epitaph"@,
        "events_lost"@ != "epitaph"@,
{
    reveal_strlit("branch_id");
    reveal_strlit("checkpoint_event_id");
    reveal_strlit("parent_event_id");
    reveal_strlit("rejected_event_ids");
    reveal_strlit("reason");
    reveal_strlit("evicted_branches");
    reveal_strlit("evicted_nodes");
    reveal_strlit("events_lost");
    reveal_strlit("epitaph");
    assert("branch_id"@.len() == 9 && "checkpoint_event_id"@.len() == 19 && "parent_event_id"@.len()
        == 15 && "rejected_event_ids"@.len() == 18 && "reason"@.len() == 6
        && "evicted_branches"@.len() == 16 && "evicted_nodes"@.len() == 13 && "events_lost"@.len()
        == 11 && "epitaph"@.len() == 7);
}

/// The durable record of a rollback names the branch, the checkpoint, the parent and
/// every rejected event in order.
pub proof fn law_rollback_is_recorded(
    marks: RollbackMarks,
    checkpoint: EventId,
    branch: BranchView,
)
    ensures
        ({
            let e = bus::tombstone_event(marks, checkpoint, branch);
            let p = e.payload;
            &&& e.id == marks.tombstone.id
            &&& e.timestamp == marks.tombstone.time
            &&& e.kind == "system.rollback"@
            &&& e.parent_event_id is None
            &&& p.text_at("branch_id"@) == Some(event::uuid_text(branch.id))
            &&& p.text_at("checkpoint_event_id"@) == Some(event::uuid_text(checkpoint))
            &&& branch.parent_event_id matches Some(id) ==> p.text_at("parent_event_id"@) == Some(
                event::uuid_text(id),
            )
            &&& branch.parent_event_id is None ==> p.get("parent_event_id"@) == Some(JsonView::Null)
            &&& p.array_at("rejected_event_ids"@) is Some
            &&& p.array_at("rejected_event_ids"@)->0.len() == branch.event_ids.len()
            &&& forall|i: int|
                0 <= i < branch.event_ids.len() ==> #[trigger] p.array_at(
                    "rejected_event_ids"@,
                )->0[i] == JsonView::Text(event::uuid_text(branch.event_ids[i]))
        }),
{
    lemma_record_keys();
}

/// What is broadcast of a rollback: the sealed branch with its checkpoint, and what was
/// evicted. Both are marked as passing.
pub proof fn law_rollback_is_broadcast(
    marks: RollbackMarks,
    checkpoint: EventId,
    branches: int,
    nodes: int,
)
    ensures
        ({
            let a = bus::sealed_event(marks, checkpoint);
            &&& a.id == marks.sealed.id
            &&& a.kind == "system.branch_sealed"@
            &&& a.meta("ephemeral"@) == Some(JsonView::Bool(true))
            &&& a.payload.text_at("branch_id"@) == Some(event::uuid_text(marks.branch_id))
            &&& a.payload.text_at("checkpoint_event_id"@) == Some(event::uuid_text(checkpoint))
            &&& a.payload.text_at("reason"@) == Some("rejected_trajectory"@)
        }),
        ({
            let b = bus::pruned_event(marks, branches, nodes);
            &&& b.id == marks.pruned.id
            &&& b.kind == "system.pruned"@
            &&& b.meta("ephemeral"@) == Some(JsonView::Bool(true))
            &&& b.payload.get("evicted_branches"@) == Some(JsonView::Int(branches))
            &&& b.payload.get("evicted_nodes"@) == Some(JsonView::Int(nodes))
        }),
{
    lemma_record_keys();
}

/// A passing event is the event with its mark.
pub proof fn law_passing_event_is_marked(e: EventView)
    ensures
        ({
            let r = bus::ephemeral_view(e);
            &&& r.meta("ephemeral"@) == Some(JsonView::Bool(true))
            &&& r.kind == e.kind
            &&& r.payload == e.payload
            &&& r.id == e.id
            &&& forall|k: Seq<char>| k != "ephemeral"@ ==> #[trigger] r.meta(k) == e.meta(k)
        }),
{
}

/// What is not stored: events marked as passing, pieces of replies, and the news of a
/// rollback.
pub proof fn law_what_is_only_broadcast(e: EventView)
    ensures
        bus::broadcast_only(e) <==> (e.meta("ephemeral"@) == Some(JsonView::Bool(true)) || e.kind
            == "assistant.delta"@ || e.kind == "system.branch_sealed"@ || e.kind
            == "system.pruned"@),
{
}

proof fn lemma_among_has(path: Seq<EventId>, ids: Seq<EventId>, id: EventId)
    ensures
        bus::among(path, ids).contains(id) <==> path.contains(id) && ids.contains(id),
        bus::without(path, ids).contains(id) <==> path.contains(id) && !ids.contains(id),
    decreases path.len(),
{
    let a = bus::among(path, ids);
    let w = bus::without(path, ids);
    if path.len() > 0 {
        let front = path.drop_last();
        let last = path[path.len() - 1];
        lemma_among_has(front, ids, id);
        let fa = bus::among(front, ids);
        let fw = bus::without(front, ids);
        assert(path =~= front.push(last));
        dag::lemma_contains_push(front, last);
        dag::lemma_contains_push(fa, last);
        dag::lemma_contains_push(fw, last);
        if ids.contains(last) {
            assert(a == fa.push(last) && w == fw);
        } else {
            assert(a == fa && w == fw.push(last));
        }
        assert(path.contains(id) <==> front.contains(id) || id == last) by {
            if path.contains(id) {
                let k = choose|k: int| 0 <= k < path.len() && path[k] == id;
                if k < front.len() {
                    assert(front[k] == id);
                }
            }
            if front.contains(id) {
                let k = choose|k: int| 0 <= k < front.len() && front[k] == id;
                assert(path[k] == id);
            }
            assert(path[path.len() - 1] == last);
        }
        assert(fa.push(last).contains(id) <==> fa.contains(id) || id == last) by {
            lemma_push_has(fa, last, id);
        }
        assert(fw.push(last).contains(id) <==> fw.contains(id) || id == last) by {
            lemma_push_has(fw, last, id);
        }
    }
}

proof fn lemma_push_has(s: Seq<EventId>, x: EventId, id: EventId)
    ensures
        s.push(x).contains(id) <==> s.contains(id) || id == x,
{
    if s.push(x).contains(id) {
        let k = choose|k: int| 0 <= k < s.push(x).len() && s.push(x)[k] == id;
        if k < s.len() {
            assert(s[k] == id);
        }
    }
    if s.contains(id) {
        let k = choose|k: int| 0 <= k < s.len() && s[k] == id;
        assert(s.push(x)[k] == id);
    }
    assert(s.push(x)[s.len() as int] == x);
}

/// Where rejected events leave the active branch, the others stay on it, and the
/// rejected ones are on the new branch: each event is in one of the two.
pub proof fn law_rejected_events_move_off(
    d: DagView,
    ids: Seq<EventId>,
    id: BranchId,
    parent: Option<EventId>,
    e: EventId,
)
    requires
        ids.len() > 0,
    ensures
        ({
            let r = bus::moved_off(d, ids, id, parent);
            let b = r.branches[r.branches.len() - 1];
            &&& r.nodes == d.nodes
            &&& r.branches.drop_last() == d.branches
            &&& b.id == id
            &&& b.parent_event_id == parent
            &&& b.event_ids.contains(e) <==> d.path.contains(e) && ids.contains(e)
            &&& r.path.contains(e) <==> d.path.contains(e) && !ids.contains(e)
        }),
{
    lemma_among_has(d.path, ids, e);
    let r = bus::moved_off(d, ids, id, parent);
    assert(r.branches.drop_last() =~= d.branches);
}

/// Both sides keep their order.
pub proof fn law_moving_off_keeps_the_order(
    a: Seq<EventId>,
    b: Seq<EventId>,
    ids: Seq<EventId>,
)
    ensures
        bus::among(a + b, ids) == bus::among(a, ids) + bus::among(b, ids),
        bus::without(a + b, ids) == bus::without(a, ids) + bus::without(b, ids),
{
    let f = |id: EventId|
        if ids.contains(id) {
            Some(id)
        } else {
            None
        };
    let g = |id: EventId|
        if ids.contains(id) {
            None
        } else {
            Some(id)
        };
    seqs::lemma_filter_map_concat(a, b, f);
    seqs::lemma_filter_map_concat(a, b, g);
}

/// An ordinary event is restored as it was stored, at the end; one that was only
/// broadcast leaves no trace.
pub proof fn law_event_is_restored(d: DagView, e: EventView, spare: BranchId)
    ensures
        ({
            let r = bus::restored_one(d, e, spare);
            &&& e.meta("ephemeral"@) == Some(JsonView::Bool(true)) ==> r == d
            &&& !bus::broadcast_only(e) && e.kind != "system.rollback"@ ==> r.path == d.path.push(
                e.id,
            ) && r.nodes == d.nodes.insert(e.id, e) && r.branches == d.branches
            &&& !bus::broadcast_only(e) && e.kind == "system.rollback"@ ==> r.nodes[e.id] == e
                && r.path.len() > 0 && r.path.last() == e.id
        }),
{
}

/// A log is restored event by event.
pub proof fn law_log_is_restored_in_order(
    d: DagView,
    events: Seq<EventView>,
    spares: Seq<BranchId>,
    e: EventView,
)
    requires
        spares.len() == events.len() + 1,
    ensures
        bus::restored(d, Seq::empty(), spares) == d,
        bus::restored(d, events.push(e), spares) == bus::restored_one(
            bus::restored(d, events, spares),
            e,
            spares[events.len() as int],
        ),
{
    assert(events.push(e).drop_last() =~= events);
}

/// Without a secret nothing is masked, and a text without a secret stays.
pub proof fn law_nothing_to_mask(payload: JsonView, t: Seq<char>, secret: Seq<char>)
    requires
        secret.len() > 0,
        !text::contains(t, secret),
    ensures
        bus::masked_payload(payload, Seq::empty()) == payload,
        bus::masked_text(t, Seq::empty()) == t,
        bus::masked_text(t, seq![secret]) == t,
{
    assert(bus::sought_words(Seq::empty()) =~= Seq::<Seq<char>>::empty());
    assert(seq![secret].drop_last() =~= Seq::<Seq<char>>::empty());
    assert(bus::masked_text(t, Seq::empty()) == t);
    texts::law_nothing_to_replace(t, secret, "[REDACTED]"@);
}

/// A secret is masked where it stands, and the text around it stays.
pub proof fn law_secret_is_masked_in_place(a: Seq<char>, secret: Seq<char>, b: Seq<char>)
    requires
        secret.len() > 0,
        forall|i: int| 0 <= i < a.len() ==> !#[trigger] text::occurs_at(a + secret + b, secret, i),
        forall|i: int| 0 <= i ==> !#[trigger] text::occurs_at(b, secret, i),
    ensures
        bus::masked_text(a + secret + b, seq![secret]) == a + "[REDACTED]"@ + b,
{
    let t = a + secret + b;
    assert(seq![secret].drop_last() =~= Seq::<Seq<char>>::empty());
    assert(bus::masked_text(t, Seq::empty()) == t);
    texts::law_replaced_where_it_stands(a, secret, b, "[REDACTED]"@);
}

proof fn lemma_event_line(e: EventView)
    ensures
        text::contains(eviction::event_line(e), "["@ + e.kind + "]"@),
        (e.payload is Object && e.payload->Object_0 != Map::<Seq<char>, JsonView>::empty())
            ==> text::contains(eviction::event_line(e), json::json_text(e.payload)),
{
    let line = eviction::event_line(e);
    let tag = "["@ + e.kind + "]"@;
    reveal_strlit("] ");
    reveal_strlit("]");
    assert(line.subrange(0, tag.len() as int) =~= tag);
    assert(text::occurs_at(line, tag, 0));
    if e.payload is Object && e.payload->Object_0 != Map::<Seq<char>, JsonView>::empty() {
        let p = json::json_text(e.payload);
        let head = "["@ + e.kind + "] "@;
        assert(line == head + p);
        texts::law_contained_in_a_part(head, p, p);
    }
}

proof fn lemma_branch_text(branch: BranchDataView)
    ensures
        text::contains(eviction::branch_text(branch), eviction::event_summary(branch.events)),
        text::starts_with(
            eviction::branch_text(branch),
            "Branch "@ + event::uuid_text(branch.id),
        ),
{
    let body = eviction::event_summary(branch.events);
    let title = "Branch "@ + event::uuid_text(branch.id);
    let place = match branch.parent_event_id {
        Some(id) => event::uuid_text(id),
        None => "root"@,
    };
    let head = title + " (diverged from "@ + place + "):\n\n"@;
    assert(eviction::branch_text(branch) == head + body);
    texts::law_contained_in_a_part(head, body, body);
    assert((head + body).subrange(0, title.len() as int) =~= title);
}

/// What is told of a branch that is lost: its ID, and a line for every event with its
/// kind and payload.
pub proof fn law_lost_branch_is_told(branch: BranchDataView, i: int)
    requires
        0 <= i < branch.events.len(),
    ensures
        ({
            let t = eviction::branch_text(branch);
            let e = branch.events[i];
            &&& text::starts_with(t, "Branch "@ + event::uuid_text(branch.id))
            &&& text::contains(t, "["@ + e.kind + "]"@)
            &&& (e.payload is Object && e.payload->Object_0 != Map::<Seq<char>, JsonView>::empty())
                ==> text::contains(t, json::json_text(e.payload))
        }),
{
    let t = eviction::branch_text(branch);
    let e = branch.events[i];
    let lines = branch.events.map_values(|e: EventView| eviction::event_line(e));
    let body = eviction::event_summary(branch.events);
    let line = eviction::event_line(e);
    assert(lines[i] == line);
    texts::law_join_holds_every_part(lines, "\n"@, i);
    lemma_branch_text(branch);
    texts::law_containment_is_transitive(t, body, line);
    lemma_event_line(e);
    texts::law_containment_is_transitive(t, line, "["@ + e.kind + "]"@);
    if e.payload is Object && e.payload->Object_0 != Map::<Seq<char>, JsonView>::empty() {
        texts::law_containment_is_transitive(t, line, json::json_text(e.payload));
    }
}

/// The lines of a branch stand in the order of its events, one to a line.
pub proof fn law_lost_events_are_told_in_order(events: Seq<EventView>, e: EventView)
    requires
        events.len() > 0,
    ensures
        eviction::event_summary(events.push(e)) == eviction::event_summary(events) + "\n"@
            + eviction::event_summary(seq![e]),
{
    let f = |e: EventView| eviction::event_line(e);
    let all = events.push(e).map_values(f);
    assert(all =~= events.map_values(f).push(eviction::event_line(e)));
    texts::law_join_adds_at_the_end(events.map_values(f), "\n"@, eviction::event_line(e));
    assert(seq![e].map_values(f) =~= seq![eviction::event_line(e)]);
}

/// An epitaph is the model's text; where there is none, it says whose is missing, and why.
pub proof fn law_epitaph_is_the_reply(id: BranchId, answer: Result<Option<Seq<char>>, Seq<char>>)
    ensures
        answer matches Ok(Some(t)) ==> eviction::epitaph(id, answer) == text::trim(t),
        answer matches Ok(None) ==> text::contains(
            eviction::epitaph(id, answer),
            event::uuid_text(id),
        ),
        answer matches Err(e) ==> e.is_suffix_of(eviction::epitaph(id, answer)) && text::contains(
            eviction::epitaph(id, answer),
            event::uuid_text(id),
        ),
{
    let t = eviction::epitaph(id, answer);
    let u = event::uuid_text(id);
    let n = "Branch "@.len() as int;
    if !(answer matches Ok(Some(_))) {
        assert(t.subrange(n, n + u.len()) =~= u);
        assert(text::occurs_at(t, u, n));
    }
}

/// An epitaph is published with the branch and how many events were lost.
pub proof fn law_epitaph_is_published(id: BranchId, events_lost: int, t: Seq<char>)
    ensures
        ({
            let p = eviction::epitaph_json(id, events_lost, t);
            &&& p.text_at("branch_id"@) == Some(event::uuid_text(id))
            &&& p.get("events_lost"@) == Some(JsonView::Int(events_lost))
            &&& p.text_at("epitaph"@) == Some(t)
        }),
{
    lemma_record_keys();
}

/// What is broadcast of a rollback: that a branch was sealed, and where branches had to
/// go, how many.
pub proof fn law_rollback_is_told(
    d: DagView,
    pos: int,
    marks: RollbackMarks,
    checkpoint: EventId,
    max: usize,
)
    ensures
        ({
            let news = bus::rollback_news(d, pos, marks, checkpoint, max);
            &&& news.len() >= 1
            &&& news[0].kind == "system.branch_sealed"@
            &&& news[0].payload.text_at("checkpoint_event_id"@) == Some(
                event::uuid_text(checkpoint),
            )
            &&& d.branches.len() + 1 <= max ==> news.len() == 1
            &&& d.branches.len() + 1 > max ==> news.len() == 2 && news[1].kind == "system.pruned"@
                && news[1].payload.get("evicted_branches"@) == Some(
                JsonView::Int(d.branches.len() + 1 - max),
            )
        }),
{
    lemma_record_keys();
}

/// What is stored of a payload with secrets: the masked reading where it shows none, the
/// payload where it showed none, and else the masked text or the mark alone.
pub proof fn law_masking_keeps_what_it_can(
    payload: JsonView,
    plain: Seq<char>,
    word: Seq<char>,
    masked: Seq<char>,
    quoted: Seq<char>,
    read: JsonView,
    shown: Seq<char>,
)
    requires
        word.len() > 0,
        !text::contains("\"[REDACTED]\""@, word),
    ensures
        !text::contains(shown, word) ==> bus::hidden_payload(
            payload,
            plain,
            seq![word],
            masked,
            quoted,
            Ok((read, shown)),
        ) == read,
        text::contains(shown, word) && !text::contains(plain, word) ==> bus::hidden_payload(
            payload,
            plain,
            seq![word],
            masked,
            quoted,
            Ok((read, shown)),
        ) == payload,
        text::contains(plain, word) && !text::contains(quoted, word) ==> bus::hidden_payload(
            payload,
            plain,
            seq![word],
            masked,
            quoted,
            Err(shown),
        ) == JsonView::Text(masked),
        text::contains(plain, word) && text::contains(quoted, word) ==> bus::hidden_payload(
            payload,
            plain,
            seq![word],
            masked,
            quoted,
            Err(shown),
        ) == JsonView::Text("[REDACTED]"@),
{
    let words = seq![word];
    assert(words[0] == word);
}

/// A secret is sought as it is and as it stands in a JSON document.
pub proof fn law_secret_is_sought_in_both_forms(secrets: Seq<Seq<char>>, secret: Seq<char>)
    ensures
        ({
            let a = bus::sought_words(secrets);
            let b = bus::sought_words(secrets.push(secret));
            &&& a.is_prefix_of(b)
            &&& b.len() > a.len()
            &&& b[a.len() as int] == secret
            &&& bus::quoted_form(secret) != secret ==> b.len() == a.len() + 2 && b[a.len() as int + 1]
                == bus::quoted_form(secret)
        }),
{
    let f = |s: Seq<char>|
        if bus::quoted_form(s) == s {
            seq![s]
        } else {
            seq![s, bus::quoted_form(s)]
        };
    seqs::lemma_flat_map_push(secrets, f, secret);
}

/// What came since a place is the log without what stood before it.
pub proof fn law_log_since_a_place(d: DagView, n: int)
    requires
        0 <= n <= d.path.len(),
        dag::complete(d),
    ensures
        dag::events_of(d.nodes, d.path.take(n)) + bus::events_since(d, n) == dag::events_of(
            d.nodes,
            d.path,
        ),
        dag::events_of(d.nodes, d.path.take(n)).len() == n,
        bus::events_since(d, d.path.len() as int + 1).len() == 0,
{
    assert(d.path.take(n) + d.path.skip(n) =~= d.path);
    let f = |id: EventId| dag::node(d.nodes, id);
    seqs::lemma_filter_map_concat(d.path.take(n), d.path.skip(n), f);
    let front = d.path.take(n);
    assert forall|i: int| 0 <= i < front.len() implies f(#[trigger] front[i]) is Some by {
        assert(d.path.contains(d.path[i]));
        assert(dag::referenced(d.path, d.branches, d.path[i]));
    }
    seqs::lemma_filter_map_total(front, f);
    assert(d.path.skip(d.path.len() as int) =~= Seq::<EventId>::empty());
}

/// The branches that diverged at an event are those that hang on it, in order, each with
/// its events.
pub proof fn law_branches_hang_on_their_anchor(d: DagView, b: BranchView, anchor: EventId)
    ensures
        ({
            let more = DagView { branches: d.branches.push(b), ..d };
            &&& b.parent_event_id == Some(anchor) ==> bus::rejected_from(more, anchor)
                == bus::rejected_from(d, anchor).push(dag::events_of(d.nodes, b.event_ids))
            &&& b.parent_event_id != Some(anchor) ==> bus::rejected_from(more, anchor)
                == bus::rejected_from(d, anchor)
        }),
{
    let f = |b: BranchView|
        if b.parent_event_id == Some(anchor) {
            Some(dag::events_of(d.nodes, b.event_ids))
        } else {
            None
        };
    seqs::lemma_filter_map_push(d.branches, f, b);
}

/// Every retained branch is given, in order.
pub proof fn law_every_branch_is_given(d: DagView, i: int)
    requires
        0 <= i < d.branches.len(),
    ensures
        bus::rejected_data(d).len() == d.branches.len(),
        bus::rejected_data(d)[i].id == d.branches[i].id,
        bus::rejected_data(d)[i].parent_event_id == d.branches[i].parent_event_id,
        bus::rejected_data(d)[i].events == dag::events_of(d.nodes, d.branches[i].event_ids),
{
}

/// The model is asked for an epitaph with instructions and then the branch.
pub proof fn law_epitaph_is_asked_for(branch: BranchDataView)
    ensures
        ({
            let r = eviction::epitaph_request(branch);
            &&& r.len() == 2
            &&& r[0].role == Role::System
            &&& r[1].role == Role::User
            &&& r[1].content == Some(eviction::branch_text(branch))
        }),
{
}

} // verus!
