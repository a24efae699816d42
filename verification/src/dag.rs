//! The graph of events: the active branch and the branches that rollbacks left
//! behind.
use crate::text;
use crate::seqs;
use crate::event::{Event, EventId, EventView};
use std::collections::HashMap;
use vstd::prelude::*;

verus! {

broadcast use vstd::std_specs::hash::group_hash_axioms;

/// The ID of a rejected branch.
pub type BranchId = u128;

// ── The model ──────────────────────────────────────────────────────────────

/// A branch sealed by a rollback.
#[verifier::ext_equal]
pub struct BranchView {
    pub id: BranchId,
    pub parent_event_id: Option<EventId>,
    pub event_ids: Seq<EventId>,
}

/// The events of a session: all that are kept, those on the active branch in
/// order, and the sealed branches from the oldest to the newest.
#[verifier::ext_equal]
pub struct DagView {
    pub nodes: Map<EventId, EventView>,
    pub path: Seq<EventId>,
    pub branches: Seq<BranchView>,
}

pub open spec fn empty_dag() -> DagView {
    DagView { nodes: Map::empty(), path: Seq::empty(), branches: Seq::empty() }
}

pub open spec fn node(nodes: Map<EventId, EventView>, id: EventId) -> Option<EventView> {
    if nodes.contains_key(id) {
        Some(nodes[id])
    } else {
        None
    }
}

/// The kept events among `ids`, in order.
pub open spec fn events_of(nodes: Map<EventId, EventView>, ids: Seq<EventId>) -> Seq<EventView> {
    seqs::filter_map(ids, |id: EventId| node(nodes, id))
}

/// The last event of the active branch.
pub open spec fn tip(d: DagView) -> Option<EventId> {
    if d.path.len() == 0 {
        None
    } else {
        Some(d.path.last())
    }
}

/// An event as it is stored: without a parent of its own it follows the tip.
pub open spec fn stored(d: DagView, e: EventView) -> EventView {
    if e.parent_event_id is None {
        EventView { parent_event_id: tip(d), ..e }
    } else {
        e
    }
}

/// The session with `e` at the end of the active branch.
pub open spec fn appended(d: DagView, e: EventView) -> DagView {
    DagView { nodes: d.nodes.insert(e.id, e), path: d.path.push(e.id), ..d }
}

/// The session after `e` is published.
pub open spec fn published(d: DagView, e: EventView) -> DagView {
    appended(d, stored(d, e))
}

/// Whether the active branch or a sealed branch names `id`.
pub open spec fn referenced(path: Seq<EventId>, branches: Seq<BranchView>, id: EventId) -> bool {
    path.contains(id) || exists|b: int|
        0 <= b < branches.len() && (#[trigger] branches[b]).event_ids.contains(id)
}

/// Whether every event that is named is kept.
pub open spec fn complete(d: DagView) -> bool {
    forall|id: EventId| #[trigger]
        referenced(d.path, d.branches, id) ==> d.nodes.contains_key(id)
}

/// The first place of `id`.
pub open spec fn place_from(path: Seq<EventId>, id: EventId, i: int) -> Option<int>
    decreases path.len() - i,
{
    if i < 0 || i >= path.len() {
        None
    } else if path[i] == id {
        Some(i)
    } else {
        place_from(path, id, i + 1)
    }
}

pub open spec fn place(path: Seq<EventId>, id: EventId) -> Option<int> {
    place_from(path, id, 0)
}

/// The branch that a rollback to place `pos` seals.
pub open spec fn cut_branch(d: DagView, pos: int, id: BranchId) -> BranchView {
    BranchView {
        id,
        parent_event_id: if pos > 0 {
            Some(d.path[pos - 1])
        } else {
            None
        },
        event_ids: d.path.skip(pos),
    }
}

/// The session with the events from place `pos` on sealed as a branch.
pub open spec fn sealed(d: DagView, pos: int, id: BranchId) -> DagView {
    DagView {
        path: d.path.take(pos),
        branches: d.branches.push(cut_branch(d, pos, id)),
        ..d
    }
}

/// How many branches exceed `max`.
pub open spec fn excess(d: DagView, max: usize) -> int {
    if d.branches.len() > max {
        d.branches.len() - max
    } else {
        0
    }
}

/// The session with only the newest `max` branches. When branches go, events
/// that nothing names any more go with them.
pub open spec fn evicted(d: DagView, max: usize) -> DagView {
    if excess(d, max) == 0 {
        d
    } else {
        let kept = d.branches.skip(excess(d, max));
        DagView {
            nodes: d.nodes.restrict(
                Set::new(|id: EventId| d.nodes.contains_key(id) && referenced(d.path, kept, id)),
            ),
            path: d.path,
            branches: kept,
        }
    }
}

// ── The store ──────────────────────────────────────────────────────────────

/// A rejected event branch handed out when it is evicted.
#[derive(Debug)]
pub struct BranchData {
    /// Unique branch identifier.
    pub id: BranchId,
    /// ID of the last event shared with the active branch.
    pub parent_event_id: Option<EventId>,
    /// Chronological sequence of events in this branch.
    pub events: Vec<Event>,
}

#[verifier::ext_equal]
pub struct BranchDataView {
    pub id: BranchId,
    pub parent_event_id: Option<EventId>,
    pub events: Seq<EventView>,
}

impl View for BranchData {
    type V = BranchDataView;

    open spec fn view(&self) -> BranchDataView {
        BranchDataView {
            id: self.id,
            parent_event_id: self.parent_event_id,
            events: text::views(self.events@),
        }
    }
}

/// The data of a branch.
pub open spec fn branch_data(nodes: Map<EventId, EventView>, b: BranchView) -> BranchDataView {
    BranchDataView {
        id: b.id,
        parent_event_id: b.parent_event_id,
        events: events_of(nodes, b.event_ids),
    }
}

/// An immutable branch sealed after a rollback.
pub struct RejectedBranch {
    pub id: BranchId,
    /// ID of the last event shared with the active branch.
    pub parent_event_id: Option<EventId>,
    pub event_ids: Vec<EventId>,
}

impl View for RejectedBranch {
    type V = BranchView;

    open spec fn view(&self) -> BranchView {
        BranchView {
            id: self.id,
            parent_event_id: self.parent_event_id,
            event_ids: self.event_ids@,
        }
    }
}

pub struct DagStore {
    /// Global event registry.
    pub nodes: HashMap<EventId, Event>,
    /// Sequential event IDs forming the current active path.
    pub active_path: Vec<EventId>,
    pub rejected_branches: Vec<RejectedBranch>,
}

/// The views of the registered events.
pub open spec fn node_views(m: Map<EventId, Event>) -> Map<EventId, EventView> {
    Map::new(|id: EventId| m.contains_key(id), |id: EventId| m[id]@)
}

impl View for DagStore {
    type V = DagView;

    open spec fn view(&self) -> DagView {
        DagView {
            nodes: node_views(self.nodes@),
            path: self.active_path@,
            branches: text::views(self.rejected_branches@),
        }
    }
}

/// Whether `id` is among `ids`.
pub fn id_in(ids: &Vec<EventId>, id: EventId) -> (r: bool)
    ensures
        r == ids@.contains(id),
{
    let mut i: usize = 0;
    while i < ids.len()
        invariant
            i <= ids@.len(),
            forall|j: int| 0 <= j < i ==> ids@[j] != id,
        decreases ids@.len() - i,
    {
        if ids[i] == id {
            assert(ids@[i as int] == id);
            return true;
        }
        i += 1;
    }
    false
}

impl DagStore {
    pub fn new() -> (r: DagStore)
        ensures
            r@ == empty_dag(),
    {
        let r = DagStore {
            nodes: HashMap::new(),
            active_path: Vec::new(),
            rejected_branches: Vec::new(),
        };
        assert(r@ =~= empty_dag());
        r
    }

    /// The last event of the active branch.
    pub fn active_tip(&self) -> (r: Option<EventId>)
        ensures
            r == tip(self@),
    {
        let n: usize = self.active_path.len();
        if n == 0 {
            None
        } else {
            Some(self.active_path[n - 1])
        }
    }

    /// Puts `event` at the end of the active branch.
    pub fn append(&mut self, event: Event)
        ensures
            final(self)@ == appended(old(self)@, event@),
    {
        let id = event.id;
        self.nodes.insert(id, event);
        self.active_path.push(id);
        assert(self@.nodes =~= appended(old(self)@, event@).nodes);
        assert(self@ =~= appended(old(self)@, event@));
    }

    /// The kept events among `ids[from..]`, in order.
    pub fn events_from(&self, ids: &Vec<EventId>, from: usize) -> (r: Vec<Event>)
        requires
            from <= ids@.len(),
        ensures
            text::views(r@) == events_of(self@.nodes, ids@.skip(from as int)),
    {
        let mut out: Vec<Event> = Vec::new();
        let ghost rest = ids@.skip(from as int);
        let ghost f = |id: EventId| node(self@.nodes, id);
        let mut i: usize = from;
        assert(text::views(out@) =~= Seq::empty());
        assert(rest.take(0) =~= Seq::empty());
        while i < ids.len()
            invariant
                from <= i <= ids@.len(),
                rest == ids@.skip(from as int),
                f == (|id: EventId| node(self@.nodes, id)),
                text::views(out@) == seqs::filter_map(rest.take(i - from), f),
            decreases ids@.len() - i,
        {
            proof {
                seqs::lemma_take_push(rest, i - from);
                seqs::lemma_filter_map_push(rest.take(i - from), f, ids@[i as int]);
            }
            match self.nodes.get(&ids[i]) {
                Some(e) => {
                    let copy = e.clone();
                    let ghost before = text::views(out@);
                    out.push(copy);
                    assert(text::views(out@) =~= before.push(copy@));
                },
                None => {},
            }
            i += 1;
        }
        assert(rest.take(i - from) =~= rest);
        out
    }

    /// Evicts branches beyond `max`, oldest first, and drops the events that
    /// nothing names any more. Hands out the evicted branches and how many
    /// events were dropped.
    pub fn evict_excess_branches(&mut self, max: usize) -> (r: (Vec<BranchData>, usize))
        ensures
            final(self)@ == evicted(old(self)@, max),
            text::views(r.0@) == old(self)@.branches.take(excess(old(self)@, max)).map_values(
                |b: BranchView| branch_data(old(self)@.nodes, b),
            ),
            r.1 == old(self)@.nodes.dom().len() - final(self)@.nodes.dom().len(),
    {
        let count: usize = self.rejected_branches.len();
        let mut out: Vec<BranchData> = Vec::new();
        let ghost d0 = self@;
        let ghost raw0 = self.nodes@;
        let ghost all = d0.branches.take(excess(d0, max)).map_values(
            |b: BranchView| branch_data(d0.nodes, b),
        );
        assert(d0.nodes.dom() =~= raw0.dom());
        if count <= max {
            assert(text::views(out@) =~= all);
            return (out, 0);
        }
        let drop: usize = count - max;
        let mut i: usize = 0;
        assert(text::views(out@) =~= all.take(0));
        while i < drop
            invariant
                i <= drop <= self.rejected_branches@.len(),
                *self == *old(self),
                d0 == self@,
                drop == excess(d0, max),
                all == d0.branches.take(excess(d0, max)).map_values(
                    |b: BranchView| branch_data(d0.nodes, b),
                ),
                text::views(out@) == all.take(i as int),
            decreases drop - i,
        {
            let b = &self.rejected_branches[i];
            let data = BranchData {
                id: b.id,
                parent_event_id: b.parent_event_id,
                events: self.events_from(&b.event_ids, 0),
            };
            let ghost before = text::views(out@);
            out.push(data);
            proof {
                assert(b.event_ids@.skip(0) =~= b.event_ids@);
                assert(d0.branches[i as int] == b@);
                seqs::lemma_take_push(all, i as int);
                assert(text::views(out@) =~= before.push(data@));
            }
            i += 1;
        }
        assert(all.take(i as int) =~= all);
        let kept = self.rejected_branches.split_off(drop);
        self.rejected_branches = kept;
        let ghost kept_views = d0.branches.skip(drop as int);
        assert(text::views(self.rejected_branches@) =~= kept_views);
        // Collect the events that are still named.
        let mut nodes: HashMap<EventId, Event> = HashMap::new();
        let mut k: usize = 0;
        while k < self.active_path.len()
            invariant
                k <= self.active_path@.len(),
                self.active_path@ == d0.path,
                self.nodes@ == raw0,
                text::views(self.rejected_branches@) == kept_views,
                forall|id: EventId| #[trigger]
                    nodes@.contains_key(id) <==> raw0.contains_key(id) && d0.path.take(
                        k as int,
                    ).contains(id),
                forall|id: EventId| #[trigger]
                    nodes@.contains_key(id) ==> nodes@[id]@ == raw0[id]@,
            decreases self.active_path@.len() - k,
        {
            let id = self.active_path[k];
            let ghost before = nodes@;
            if let Some(e) = self.nodes.get(&id) {
                let copy = e.clone();
                nodes.insert(id, copy);
            }
            proof {
                seqs::lemma_take_push(d0.path, k as int);
                lemma_contains_push(d0.path.take(k as int), id);
            }
            k += 1;
        }
        assert(d0.path.take(k as int) =~= d0.path);
        let mut b: usize = 0;
        while b < self.rejected_branches.len()
            invariant
                b <= self.rejected_branches@.len(),
                self.active_path@ == d0.path,
                self.nodes@ == raw0,
                text::views(self.rejected_branches@) == kept_views,
                forall|id: EventId| #[trigger]
                    nodes@.contains_key(id) <==> raw0.contains_key(id) && referenced(
                        d0.path,
                        kept_views.take(b as int),
                        id,
                    ),
                forall|id: EventId| #[trigger]
                    nodes@.contains_key(id) ==> nodes@[id]@ == raw0[id]@,
            decreases self.rejected_branches@.len() - b,
        {
            let ghost before = nodes@;
            let ids = &self.rejected_branches[b].event_ids;
            let mut j: usize = 0;
            while j < ids.len()
                invariant
                    j <= ids@.len(),
                    self.nodes@ == raw0,
                    forall|id: EventId| #[trigger]
                        nodes@.contains_key(id) <==> before.contains_key(id) || (raw0.contains_key(id)
                            && ids@.take(j as int).contains(id)),
                    forall|id: EventId| #[trigger]
                        nodes@.contains_key(id) ==> nodes@[id]@ == raw0[id]@,
                decreases ids@.len() - j,
            {
                let id = ids[j];
                if let Some(e) = self.nodes.get(&id) {
                    let copy = e.clone();
                    nodes.insert(id, copy);
                }
                proof {
                    seqs::lemma_take_push(ids@, j as int);
                    lemma_contains_push(ids@.take(j as int), id);
                }
                j += 1;
            }
            proof {
                assert(ids@.take(j as int) =~= ids@);
                assert(kept_views[b as int].event_ids == ids@);
                assert forall|id: EventId|
                    #![trigger nodes@.contains_key(id)]
                    nodes@.contains_key(id) <==> raw0.contains_key(id) && referenced(
                        d0.path,
                        kept_views.take(b + 1),
                        id,
                    ) by {
                    lemma_referenced_push(d0.path, kept_views, b as int, id);
                    let _ = before.contains_key(id);
                }
            }
            b += 1;
        }
        assert(kept_views.take(b as int) =~= kept_views);
        let before_len: usize = self.nodes.len();
        proof {
            vstd::set_lib::lemma_len_subset(nodes@.dom(), raw0.dom());
        }
        let after_len: usize = nodes.len();
        self.nodes = nodes;
        assert(self@.nodes =~= evicted(d0, max).nodes);
        assert(self@.nodes.dom() =~= self.nodes@.dom());
        assert(self@ =~= evicted(d0, max));
        (out, before_len - after_len)
    }
}

pub proof fn lemma_contains_push(s: Seq<EventId>, id: EventId)
    ensures
        forall|x: EventId| #[trigger] s.push(id).contains(x) <==> s.contains(x) || x == id,
{
    assert forall|x: EventId| #[trigger] s.push(id).contains(x) <==> s.contains(x) || x == id by {
        if s.contains(x) {
            let i = choose|i: int| 0 <= i < s.len() && s[i] == x;
            assert(s.push(id)[i] == x);
        }
        if x == id {
            assert(s.push(id)[s.len() as int] == x);
        }
        if s.push(id).contains(x) {
            let i = choose|i: int| 0 <= i < s.push(id).len() && s.push(id)[i] == x;
            if i < s.len() {
                assert(s[i] == x);
            }
        }
    }
}

proof fn lemma_referenced_push(path: Seq<EventId>, branches: Seq<BranchView>, b: int, id: EventId)
    requires
        0 <= b < branches.len(),
    ensures
        referenced(path, branches.take(b + 1), id) <==> referenced(path, branches.take(b), id)
            || branches[b].event_ids.contains(id),
{
    let s = branches.take(b);
    let t = branches.take(b + 1);
    if exists|i: int| 0 <= i < s.len() && (#[trigger] s[i]).event_ids.contains(id) {
        let i = choose|i: int| 0 <= i < s.len() && (#[trigger] s[i]).event_ids.contains(id);
        assert(t[i].event_ids.contains(id));
    }
    if exists|i: int| 0 <= i < t.len() && (#[trigger] t[i]).event_ids.contains(id) {
        let i = choose|i: int| 0 <= i < t.len() && (#[trigger] t[i]).event_ids.contains(id);
        if i < b {
            assert(s[i].event_ids.contains(id));
        }
    }
    if branches[b].event_ids.contains(id) {
        assert(t[b].event_ids.contains(id));
    }
}

} // verus!
