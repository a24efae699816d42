//! The event bus: an append-only log with checkpoints and rollbacks, and its
//! restoration from a persisted stream.
use crate::text;
use crate::seqs;
use crate::llm::wire;
use crate::json;
use crate::event;
use crate::bus_laws;
use crate::dag;
use crate::dag::{id_in, BranchData, BranchId, BranchView, DagStore, DagView, RejectedBranch};
use crate::error::BusError;
use crate::event::{
    current_time, fresh_id, parse_uuid, uuid_string, Event, EventId, EventView, Timestamp,
};
use crate::json::{Json, JsonMap, JsonView};
use crate::kinds;
use crate::meta_keys;
use crate::text::{chars_of, contains_str, replace_str, same, string_of};
use vstd::prelude::*;

verus! {

broadcast use vstd::std_specs::hash::group_hash_axioms;

/// Configuration of an event bus.
///
/// `max_retained_branches` limits sealed branches in memory; an excess triggers
/// eviction and a `system.pruned` event. `subscriber_capacity` bounds subscriber
/// channels; an overflow drops events for that subscriber.
#[derive(Debug, Clone, Copy)]
pub struct BusConfig {
    /// Limit on sealed branches retained in memory.
    pub max_retained_branches: usize,
    /// Capacity of per-subscriber channels.
    pub subscriber_capacity: usize,
}

impl Default for BusConfig {
    fn default() -> (r: BusConfig)
        ensures
            r.max_retained_branches == usize::MAX,
            r.subscriber_capacity == usize::MAX,
    {
        BusConfig { max_retained_branches: usize::MAX, subscriber_capacity: usize::MAX }
    }
}

/// Default eviction strategy: silently discards evicted branches.
#[derive(Debug, Clone, Copy)]
pub struct PruneStrategy;

impl PruneStrategy {
    /// The name of the strategy.
    pub fn name(&self) -> (r: &'static str)
        ensures
            r@ == "prune"@,
    {
        "prune"
    }
}

impl Default for PruneStrategy {
    fn default() -> (r: PruneStrategy)
        ensures
            r == PruneStrategy,
    {
        PruneStrategy
    }
}

/// How an attempt to hand an event to a subscriber ended.
#[derive(Debug, Clone, Copy, PartialEq, Eq, Structural)]
pub enum Delivery {
    Sent,
    /// The subscriber's queue is full; the event is dropped for it.
    Full,
    /// The subscriber is gone.
    Closed,
}

impl Delivery {
    /// Whether the subscriber stays: an overflow drops the event and keeps it,
    /// and only a subscriber that is gone is removed.
    pub fn keeps_subscriber(&self) -> (r: bool)
        ensures
            r == (*self != Delivery::Closed),
    {
        match self {
            Delivery::Closed => false,
            _ => true,
        }
    }
}

impl BusConfig {
    /// The bound of a subscriber's channel; none at the largest capacity.
    pub fn channel_bound(&self) -> (r: Option<usize>)
        ensures
            match r {
                Some(n) => n == self.subscriber_capacity && n != usize::MAX,
                None => self.subscriber_capacity == usize::MAX,
            },
    {
        if self.subscriber_capacity == usize::MAX {
            None
        } else {
            Some(self.subscriber_capacity)
        }
    }
}

// ── Broadcast marks ────────────────────────────────────────────────────────

/// An event marked as never having been on the active branch.
pub open spec fn ephemeral_view(e: EventView) -> EventView {
    e.with_meta(meta_keys::EPHEMERAL@, JsonView::Bool(true))
}

/// Whether an event carries that mark.
pub open spec fn is_ephemeral(e: EventView) -> bool {
    e.meta(meta_keys::EPHEMERAL@) == Some(JsonView::Bool(true))
}

/// Stamp an event as never having been on the active branch. Observers cannot
/// otherwise tell a broadcast from a published event.
pub fn mark_ephemeral(event: Event) -> (r: Event)
    ensures
        r@ == ephemeral_view(event@),
        is_ephemeral(r@),
{
    event.with_meta(meta_keys::EPHEMERAL, Json::Bool(true))
}

// ── Rollback ───────────────────────────────────────────────────────────────

/// The ID and time of an event to be made.
#[derive(Debug, Clone, Copy)]
pub struct Mark {
    pub id: EventId,
    pub time: Timestamp,
}

/// The IDs and times that a rollback needs.
#[derive(Debug, Clone, Copy)]
pub struct RollbackMarks {
    pub branch_id: BranchId,
    pub sealed: Mark,
    pub pruned: Mark,
    pub tombstone: Mark,
}

pub open spec fn sealed_event(marks: RollbackMarks, checkpoint: EventId) -> EventView {
    ephemeral_view(
        event::plain_event(
            marks.sealed.id,
            marks.sealed.time,
            kinds::BRANCH_SEALED@,
            JsonView::Object(
                map![
                    "branch_id"@ => JsonView::Text(event::uuid_text(marks.branch_id)),
                    "checkpoint_event_id"@ => JsonView::Text(event::uuid_text(checkpoint)),
                    "reason"@ => JsonView::Text("rejected_trajectory"@),
                ],
            ),
        ),
    )
}

pub open spec fn pruned_event(marks: RollbackMarks, branches: int, nodes: int) -> EventView {
    ephemeral_view(
        event::plain_event(
            marks.pruned.id,
            marks.pruned.time,
            kinds::SYSTEM_PRUNED@,
            JsonView::Object(
                map![
                    "evicted_branches"@ => JsonView::Int(branches),
                    "evicted_nodes"@ => JsonView::Int(nodes),
                ],
            ),
        ),
    )
}

/// The IDs of a list as an array of texts.
pub open spec fn id_array(ids: Seq<EventId>) -> JsonView {
    JsonView::Array(ids.map_values(|id: EventId| JsonView::Text(event::uuid_text(id))))
}

/// The durable record of a rollback.
pub open spec fn tombstone_event(
    marks: RollbackMarks,
    checkpoint: EventId,
    branch: BranchView,
) -> EventView {
    event::plain_event(
        marks.tombstone.id,
        marks.tombstone.time,
        kinds::SYSTEM_ROLLBACK@,
        JsonView::Object(
            map![
                "branch_id"@ => JsonView::Text(event::uuid_text(branch.id)),
                "checkpoint_event_id"@ => JsonView::Text(event::uuid_text(checkpoint)),
                "parent_event_id"@ => match branch.parent_event_id {
                    Some(id) => JsonView::Text(event::uuid_text(id)),
                    None => JsonView::Null,
                },
                "rejected_event_ids"@ => id_array(branch.event_ids),
            ],
        ),
    )
}

/// The ID that a text value writes.
pub open spec fn id_of(v: JsonView) -> Option<EventId> {
    match v.as_str() {
        Some(t) => event::parsed_uuid(t),
        None => None,
    }
}

/// The ID in the text field `key`.
pub open spec fn id_at(payload: JsonView, key: Seq<char>) -> Option<EventId> {
    match payload.get(key) {
        Some(v) => id_of(v),
        None => None,
    }
}

/// The IDs that a tombstone lists.
pub open spec fn rejected_ids(payload: JsonView) -> Seq<EventId> {
    match payload.array_at("rejected_event_ids"@) {
        Some(a) => seqs::filter_map(a, |v: JsonView| id_of(v)),
        None => Seq::empty(),
    }
}

/// Whether `e` is a tombstone from which the branch can be read back.
pub open spec fn records(e: EventView, branch: BranchView) -> bool {
    &&& e.kind == kinds::SYSTEM_ROLLBACK@
    &&& id_at(e.payload, "branch_id"@) == Some(branch.id)
    &&& id_at(e.payload, "parent_event_id"@) == branch.parent_event_id
    &&& rejected_ids(e.payload) == branch.event_ids
}

/// The session after a rollback, but for the tombstone.
pub open spec fn cut_back(d: DagView, pos: int, branch: BranchId, max: usize) -> DagView {
    dag::evicted(dag::sealed(d, pos, branch), max)
}

/// The session after a rollback.
pub open spec fn rolled_back(
    d: DagView,
    pos: int,
    marks: RollbackMarks,
    checkpoint: EventId,
    max: usize,
) -> DagView {
    dag::published(
        cut_back(d, pos, marks.branch_id, max),
        tombstone_event(marks, checkpoint, dag::cut_branch(d, pos, marks.branch_id)),
    )
}

/// What a rollback broadcasts.
pub open spec fn rollback_news(
    d: DagView,
    pos: int,
    marks: RollbackMarks,
    checkpoint: EventId,
    max: usize,
) -> Seq<EventView> {
    let cut = dag::sealed(d, pos, marks.branch_id);
    if dag::excess(cut, max) > 0 {
        seq![
            sealed_event(marks, checkpoint),
            pruned_event(
                marks,
                dag::excess(cut, max),
                cut.nodes.dom().len() - dag::evicted(cut, max).nodes.dom().len(),
            ),
        ]
    } else {
        seq![sealed_event(marks, checkpoint)]
    }
}

/// What a rollback leaves to do: events to broadcast, branches to hand to the
/// eviction strategy, and the tombstone to publish.
pub struct Sealed {
    pub branch_id: BranchId,
    pub broadcasts: Vec<Event>,
    pub evicted: Vec<BranchData>,
    pub tombstone: Event,
}

fn position_of(path: &Vec<EventId>, id: EventId) -> (r: Option<usize>)
    ensures
        match r {
            Some(p) => p < path@.len() && dag::place(path@, id) == Some(p as int),
            None => dag::place(path@, id) is None,
        },
{
    let mut i: usize = 0;
    while i < path.len()
        invariant
            i <= path@.len(),
            dag::place(path@, id) == dag::place_from(path@, id, i as int),
        decreases path@.len() - i,
    {
        if path[i] == id {
            return Some(i);
        }
        i += 1;
    }
    None
}

fn id_array_json(ids: &Vec<EventId>) -> (r: Json)
    ensures
        r@ == id_array(ids@),
        forall|i: int|
            0 <= i < ids@.len() ==> id_of(#[trigger] id_array(ids@)->Array_0[i]) == Some(ids@[i]),
{
    let mut out: Vec<Json> = Vec::new();
    let ghost all = id_array(ids@)->Array_0;
    let mut i: usize = 0;
    assert(json::items_view(out@) =~= all.take(0));
    while i < ids.len()
        invariant
            i <= ids@.len(),
            all == id_array(ids@)->Array_0,
            all.len() == ids@.len(),
            json::items_view(out@) == all.take(i as int),
            forall|j: int| 0 <= j < i ==> id_of(#[trigger] all[j]) == Some(ids@[j]),
        decreases ids@.len() - i,
    {
        let item = Json::Text(uuid_string(ids[i]));
        proof {
            wire::lemma_items_push(out@, item);
            seqs::lemma_take_push(all, i as int);
        }
        out.push(item);
        i += 1;
    }
    assert(all.take(i as int) =~= all);
    Json::Array(out)
}

proof fn lemma_ids_read_back(items: Seq<JsonView>, ids: Seq<EventId>)
    requires
        items.len() == ids.len(),
        forall|i: int| 0 <= i < ids.len() ==> id_of(#[trigger] items[i]) == Some(ids[i]),
    ensures
        seqs::filter_map(items, |v: JsonView| id_of(v)) == ids,
    decreases ids.len(),
{
    if ids.len() == 0 {
        assert(seqs::filter_map(items, |v: JsonView| id_of(v)) =~= ids);
    } else {
        let front = items.drop_last();
        assert forall|i: int| 0 <= i < ids.drop_last().len() implies id_of(#[trigger] front[i])
            == Some(ids.drop_last()[i]) by {
            assert(front[i] == items[i]);
        }
        lemma_ids_read_back(front, ids.drop_last());
        assert(id_of(items[ids.len() - 1]) == Some(ids.last()));
        assert(ids.drop_last().push(ids.last()) =~= ids);
    }
}

fn tombstone(marks: RollbackMarks, checkpoint: EventId, branch: &RejectedBranch) -> (r: Event)
    ensures
        r@ == tombstone_event(marks, checkpoint, branch@),
        records(r@, branch@),
{
    let branch_text = uuid_string(branch.id);
    let parent = match branch.parent_event_id {
        Some(id) => Json::Text(uuid_string(id)),
        None => Json::Null,
    };
    let rejected = id_array_json(&branch.event_ids);
    let payload = Json::Object(
        JsonMap::new().with("branch_id", Json::Text(branch_text)).with(
            "checkpoint_event_id",
            Json::Text(uuid_string(checkpoint)),
        ).with("parent_event_id", parent).with("rejected_event_ids", rejected),
    );
    proof {
        reveal_strlit("branch_id");
        reveal_strlit("checkpoint_event_id");
        reveal_strlit("parent_event_id");
        reveal_strlit("rejected_event_ids");
        assert("branch_id"@.len() == 9 && "checkpoint_event_id"@.len() == 19
            && "parent_event_id"@.len() == 15 && "rejected_event_ids"@.len() == 18);
        lemma_ids_read_back(id_array(branch@.event_ids)->Array_0, branch@.event_ids);
    }
    Event::at(marks.tombstone.id, marks.tombstone.time, kinds::SYSTEM_ROLLBACK, payload)
}

// ── Restoration ────────────────────────────────────────────────────────────

/// Whether an event was only ever broadcast. The kinds cover logs written
/// without the mark.
pub open spec fn broadcast_only(e: EventView) -> bool {
    is_ephemeral(e) || e.kind == kinds::ASSISTANT_DELTA@ || e.kind == kinds::BRANCH_SEALED@ || e.kind
        == kinds::SYSTEM_PRUNED@
}

/// The IDs of `path` that are among `ids`, in order.
pub open spec fn among(path: Seq<EventId>, ids: Seq<EventId>) -> Seq<EventId> {
    seqs::filter_map(
        path,
        |id: EventId|
            if ids.contains(id) {
                Some(id)
            } else {
                None
            },
    )
}

/// The IDs of `path` that are not among `ids`, in order.
pub open spec fn without(path: Seq<EventId>, ids: Seq<EventId>) -> Seq<EventId> {
    seqs::filter_map(
        path,
        |id: EventId|
            if ids.contains(id) {
                None
            } else {
                Some(id)
            },
    )
}

/// The session with the listed events moved off the active branch into a branch of
/// their own.
pub open spec fn moved_off(
    d: DagView,
    ids: Seq<EventId>,
    id: BranchId,
    parent: Option<EventId>,
) -> DagView {
    if ids.len() == 0 {
        d
    } else {
        DagView {
            path: without(d.path, ids),
            branches: d.branches.push(
                BranchView { id, parent_event_id: parent, event_ids: among(d.path, ids) },
            ),
            ..d
        }
    }
}

/// The session with the events that a tombstone lists moved off the active
/// branch. `spare` is the branch's ID where the tombstone writes none.
pub open spec fn replay(d: DagView, payload: JsonView, spare: BranchId) -> DagView {
    moved_off(
        d,
        rejected_ids(payload),
        match id_at(payload, "branch_id"@) {
            Some(id) => id,
            None => spare,
        },
        id_at(payload, "parent_event_id"@),
    )
}

/// The session after one event of a persisted stream is taken in.
pub open spec fn restored_one(d: DagView, e: EventView, spare: BranchId) -> DagView {
    if broadcast_only(e) {
        d
    } else if e.kind == kinds::SYSTEM_ROLLBACK@ {
        dag::appended(replay(d, e.payload, spare), e)
    } else {
        dag::appended(d, e)
    }
}

/// The session after a persisted stream is taken in.
pub open spec fn restored(d: DagView, events: Seq<EventView>, spares: Seq<BranchId>) -> DagView
    decreases events.len(),
{
    if events.len() == 0 {
        d
    } else {
        restored_one(
            restored(d, events.drop_last(), spares),
            events.last(),
            spares[events.len() - 1],
        )
    }
}

fn keep_ids(path: &Vec<EventId>, ids: &Vec<EventId>, listed: bool) -> (r: Vec<EventId>)
    ensures
        r@ == (if listed {
            among(path@, ids@)
        } else {
            without(path@, ids@)
        }),
{
    let mut out: Vec<EventId> = Vec::new();
    let ghost f = |id: EventId|
        if ids@.contains(id) == listed {
            Some(id)
        } else {
            None
        };
    let mut i: usize = 0;
    while i < path.len()
        invariant
            i <= path@.len(),
            f == (|id: EventId|
                if ids@.contains(id) == listed {
                    Some(id)
                } else {
                    None
                }),
            out@ == seqs::filter_map(path@.take(i as int), f),
        decreases path@.len() - i,
    {
        proof {
            seqs::lemma_take_push(path@, i as int);
            seqs::lemma_filter_map_push(path@.take(i as int), f, path@[i as int]);
        }
        if id_in(ids, path[i]) == listed {
            out.push(path[i]);
        }
        i += 1;
    }
    proof {
        assert(path@.take(i as int) =~= path@);
        let g = |id: EventId|
            if ids@.contains(id) {
                Some(id)
            } else {
                None
            };
        let h = |id: EventId|
            if ids@.contains(id) {
                None
            } else {
                Some(id)
            };
        if listed {
            assert(f =~= g);
        } else {
            assert(f =~= h);
        }
    }
    out
}

fn read_ids(payload: &Json) -> (r: Vec<EventId>)
    ensures
        r@ == rejected_ids(payload@),
{
    let mut out: Vec<EventId> = Vec::new();
    if let Some(a) = payload.array_at("rejected_event_ids") {
        let ghost all = json::items_view(a@);
        let ghost f = |v: JsonView| id_of(v);
        let mut i: usize = 0;
        while i < a.len()
            invariant
                i <= a@.len(),
                all == json::items_view(a@),
                f == (|v: JsonView| id_of(v)),
                out@ == seqs::filter_map(all.take(i as int), f),
            decreases a@.len() - i,
        {
            proof {
                json::lemma_items_view(a@);
                assert(all[i as int] == a@[i as int]@);
                seqs::lemma_take_push(all, i as int);
                seqs::lemma_filter_map_push(all.take(i as int), f, all[i as int]);
            }
            if let Some(t) = a[i].as_str() {
                if let Some(id) = parse_uuid(t) {
                    out.push(id);
                }
            }
            i += 1;
        }
        proof {
            json::lemma_items_view(a@);
            assert(all.take(i as int) =~= all);
        }
    }
    out
}

fn read_id(payload: &Json, key: &str) -> (r: Option<EventId>)
    ensures
        r == id_at(payload@, key@),
{
    match payload.text_at(key) {
        Some(t) => parse_uuid(t),
        None => None,
    }
}

// ── The bus ────────────────────────────────────────────────────────────────

/// The events of the active branch at or after `index`.
pub open spec fn events_since(d: DagView, index: int) -> Seq<EventView> {
    dag::events_of(
        d.nodes,
        d.path.skip(
            if index <= d.path.len() {
                index
            } else {
                d.path.len() as int
            },
        ),
    )
}

/// The events of each retained branch that diverged at `anchor`.
pub open spec fn rejected_from(d: DagView, anchor: EventId) -> Seq<Seq<EventView>> {
    seqs::filter_map(
        d.branches,
        |b: BranchView|
            if b.parent_event_id == Some(anchor) {
                Some(dag::events_of(d.nodes, b.event_ids))
            } else {
                None
            },
    )
}

/// All retained branches.
pub open spec fn rejected_data(d: DagView) -> Seq<dag::BranchDataView> {
    d.branches.map_values(|b: BranchView| dag::branch_data(d.nodes, b))
}

/// A session of its own with the events of the active branch.
pub open spec fn forked(d: DagView) -> DagView {
    DagView {
        nodes: d.nodes.restrict(
            Set::new(|id: EventId| d.nodes.contains_key(id) && d.path.contains(id)),
        ),
        path: d.path,
        branches: Seq::empty(),
    }
}

/// Registered events with more of them; a later event replaces one with its ID.
pub open spec fn with_nodes(
    nodes: Map<EventId, EventView>,
    events: Seq<EventView>,
) -> Map<EventId, EventView>
    decreases events.len(),
{
    if events.len() == 0 {
        nodes
    } else {
        with_nodes(nodes, events.drop_last()).insert(events.last().id, events.last())
    }
}

/// The session with events grafted on as a rejected branch.
pub open spec fn adopted(
    d: DagView,
    anchor: Option<EventId>,
    events: Seq<EventView>,
    id: BranchId,
) -> DagView {
    DagView {
        nodes: with_nodes(d.nodes, events),
        path: d.path,
        branches: d.branches.push(
            BranchView {
                id,
                parent_event_id: anchor,
                event_ids: events.map_values(|e: EventView| e.id),
            },
        ),
    }
}

/// The log of a session.
///
/// Every operation says in its contract what becomes of the log; handing events
/// to subscribers is left to the caller.
pub struct EventBus {
    pub store: DagStore,
    pub config: BusConfig,
}

impl View for EventBus {
    type V = DagView;

    open spec fn view(&self) -> DagView {
        self.store@
    }
}

impl EventBus {
    pub fn new() -> (r: EventBus)
        ensures
            r@ == dag::empty_dag(),
            r.config.max_retained_branches == usize::MAX,
            r.config.subscriber_capacity == usize::MAX,
    {
        Self::with_config(BusConfig::default())
    }

    /// A bus with specific limits.
    pub fn with_config(config: BusConfig) -> (r: EventBus)
        ensures
            r@ == dag::empty_dag(),
            r.config == config,
    {
        EventBus { store: DagStore::new(), config }
    }

    /// Appends an event to the active branch; hands it out as it was stored.
    ///
    /// An event that names its parent keeps it; any other follows the tip.
    pub fn publish(&mut self, event: Event) -> (r: Event)
        ensures
            final(self)@ == dag::published(old(self)@, event@),
            final(self).config == old(self).config,
            r@ == dag::stored(old(self)@, event@),
    {
        let mut event = event;
        if event.parent_event_id.is_none() {
            event.parent_event_id = self.store.active_tip();
        }
        let copy = event.clone();
        self.store.append(event);
        copy
    }

    /// The events of the active branch, in order.
    pub fn log(&self) -> (r: Vec<Event>)
        ensures
            text::views(r@) == dag::events_of(self@.nodes, self@.path),
    {
        assert(self@.path.skip(0) =~= self@.path);
        self.store.events_from(&self.store.active_path, 0)
    }

    /// The events of the active branch at or after `index`.
    pub fn log_since(&self, index: usize) -> (r: Vec<Event>)
        ensures
            text::views(r@) == dag::events_of(
                self@.nodes,
                self@.path.skip(
                    if index <= self@.path.len() {
                        index as int
                    } else {
                        self@.path.len() as int
                    },
                ),
            ),
            text::views(r@) == events_since(self@, index as int),
    {
        let n: usize = self.store.active_path.len();
        let start: usize = if index <= n {
            index
        } else {
            n
        };
        self.store.events_from(&self.store.active_path, start)
    }

    /// Number of events on the active branch.
    pub fn log_len(&self) -> (r: usize)
        ensures
            r == self@.path.len(),
    {
        self.store.active_path.len()
    }

    /// Publishes a checkpoint; hands it out as it was stored.
    pub fn checkpoint(&mut self) -> (r: Event)
        ensures
            final(self)@ == dag::published(
                old(self)@,
                event::plain_event(
                    r.id,
                    r.timestamp,
                    kinds::CHECKPOINT@,
                    JsonView::Object(Map::empty()),
                ),
            ),
            final(self).config == old(self).config,
            r@ == dag::stored(
                old(self)@,
                event::plain_event(
                    r.id,
                    r.timestamp,
                    kinds::CHECKPOINT@,
                    JsonView::Object(Map::empty()),
                ),
            ),
    {
        let event = Event::new(kinds::CHECKPOINT, Json::Object(JsonMap::new()));
        self.publish(event)
    }

    /// Cuts the active branch back to just before `checkpoint`: seals the rest
    /// as a branch, evicts branches beyond the limit, and makes the events that
    /// tell of it. The tombstone is not published yet.
    pub fn seal(&mut self, checkpoint: EventId, marks: RollbackMarks) -> (r: Result<Sealed, BusError>)
        ensures
            final(self).config == old(self).config,
            match dag::place(old(self)@.path, checkpoint) {
                None => r == Err::<Sealed, BusError>(BusError::CheckpointNotFound(checkpoint))
                    && final(self)@ == old(self)@,
                Some(pos) => {
                    let max = old(self).config.max_retained_branches;
                    let branch = dag::cut_branch(old(self)@, pos, marks.branch_id);
                    let cut = dag::sealed(old(self)@, pos, marks.branch_id);
                    &&& final(self)@ == cut_back(old(self)@, pos, marks.branch_id, max)
                    &&& r is Ok
                    &&& r->Ok_0.branch_id == marks.branch_id
                    &&& r->Ok_0.tombstone@ == tombstone_event(marks, checkpoint, branch)
                    &&& records(r->Ok_0.tombstone@, branch)
                    &&& text::views(r->Ok_0.broadcasts@) == rollback_news(
                        old(self)@,
                        pos,
                        marks,
                        checkpoint,
                        max,
                    )
                    &&& text::views(r->Ok_0.evicted@) == cut.branches.take(dag::excess(cut, max)).map_values(
                        |b: BranchView| dag::branch_data(cut.nodes, b),
                    )
                },
            },
    {
        let pos: usize = match position_of(&self.store.active_path, checkpoint) {
            Some(p) => p,
            None => {
                return Err(BusError::CheckpointNotFound(checkpoint));
            },
        };
        let parent_event_id = if pos > 0 {
            Some(self.store.active_path[pos - 1])
        } else {
            None
        };
        let ghost d0 = self@;
        let event_ids = self.store.active_path.split_off(pos);
        let branch = RejectedBranch { id: marks.branch_id, parent_event_id, event_ids };
        let tombstone = tombstone(marks, checkpoint, &branch);
        proof {
            assert(branch@ =~= dag::cut_branch(d0, pos as int, marks.branch_id));
        }
        self.store.rejected_branches.push(branch);
        proof {
            assert(self@.branches =~= d0.branches.push(branch@));
            assert(self@ =~= dag::sealed(d0, pos as int, marks.branch_id));
        }
        let ghost cut = self@;
        let (evicted, dropped) = self.store.evict_excess_branches(
            self.config.max_retained_branches,
        );
        let mut broadcasts: Vec<Event> = Vec::new();
        let sealed_payload = Json::Object(
            JsonMap::new().with("branch_id", Json::Text(uuid_string(marks.branch_id))).with(
                "checkpoint_event_id",
                Json::Text(uuid_string(checkpoint)),
            ).with("reason", Json::text("rejected_trajectory")),
        );
        broadcasts.push(
            mark_ephemeral(
                Event::at(
                    marks.sealed.id,
                    marks.sealed.time,
                    kinds::BRANCH_SEALED,
                    sealed_payload,
                ),
            ),
        );
        if evicted.len() > 0 {
            let pruned_payload = Json::Object(
                JsonMap::new().with(
                    "evicted_branches",
                    Json::Unsigned(evicted.len() as u64),
                ).with("evicted_nodes", Json::Unsigned(dropped as u64)),
            );
            broadcasts.push(
                mark_ephemeral(
                    Event::at(
                        marks.pruned.id,
                        marks.pruned.time,
                        kinds::SYSTEM_PRUNED,
                        pruned_payload,
                    ),
                ),
            );
        }
        proof {
            assert(text::views(evicted@).len() == dag::excess(cut, self.config.max_retained_branches));
            assert(text::views(broadcasts@) =~= rollback_news(
                d0,
                pos as int,
                marks,
                checkpoint,
                self.config.max_retained_branches,
            ));
        }
        Ok(Sealed { branch_id: marks.branch_id, broadcasts, evicted, tombstone })
    }

    /// Reverts the active branch to just before `checkpoint` with the given IDs
    /// and times, and appends the tombstone.
    pub fn rollback_with(&mut self, checkpoint: EventId, marks: RollbackMarks) -> (r: Result<
        Sealed,
        BusError,
    >)
        ensures
            final(self).config == old(self).config,
            match dag::place(old(self)@.path, checkpoint) {
                None => r == Err::<Sealed, BusError>(BusError::CheckpointNotFound(checkpoint))
                    && final(self)@ == old(self)@,
                Some(pos) => {
                    let max = old(self).config.max_retained_branches;
                    let branch = dag::cut_branch(old(self)@, pos, marks.branch_id);
                    let cut = dag::sealed(old(self)@, pos, marks.branch_id);
                    &&& final(self)@ == rolled_back(old(self)@, pos, marks, checkpoint, max)
                    &&& r is Ok
                    &&& r->Ok_0.branch_id == marks.branch_id
                    &&& r->Ok_0.tombstone@ == dag::stored(
                        cut_back(old(self)@, pos, marks.branch_id, max),
                        tombstone_event(marks, checkpoint, branch),
                    )
                    &&& records(r->Ok_0.tombstone@, branch)
                    &&& text::views(r->Ok_0.broadcasts@) == rollback_news(
                        old(self)@,
                        pos,
                        marks,
                        checkpoint,
                        max,
                    )
                    &&& text::views(r->Ok_0.evicted@) == cut.branches.take(dag::excess(cut, max)).map_values(
                        |b: BranchView| dag::branch_data(cut.nodes, b),
                    )
                },
            },
    {
        match self.seal(checkpoint, marks) {
            Ok(done) => {
                let tombstone = self.publish(done.tombstone);
                Ok(
                    Sealed {
                        branch_id: done.branch_id,
                        broadcasts: done.broadcasts,
                        evicted: done.evicted,
                        tombstone,
                    },
                )
            },
            Err(e) => Err(e),
        }
    }

    /// Reverts the active branch to just before `checkpoint` and appends a
    /// tombstone. Fails, changing nothing, where the checkpoint is not on the
    /// active branch.
    pub fn rollback(&mut self, checkpoint: EventId) -> (r: Result<Sealed, BusError>)
        ensures
            final(self).config == old(self).config,
            match dag::place(old(self)@.path, checkpoint) {
                None => r == Err::<Sealed, BusError>(BusError::CheckpointNotFound(checkpoint))
                    && final(self)@ == old(self)@,
                Some(pos) => {
                    let max = old(self).config.max_retained_branches;
                    &&& r is Ok
                    &&& exists|marks: RollbackMarks|
                        {
                            let branch = dag::cut_branch(old(self)@, pos, marks.branch_id);
                            let cut = dag::sealed(old(self)@, pos, marks.branch_id);
                            &&& r->Ok_0.branch_id == marks.branch_id
                            &&& r->Ok_0.tombstone@ == dag::stored(
                                cut_back(old(self)@, pos, marks.branch_id, max),
                                tombstone_event(marks, checkpoint, branch),
                            )
                            &&& text::views(r->Ok_0.evicted@) == cut.branches.take(
                                dag::excess(cut, max),
                            ).map_values(|b: BranchView| dag::branch_data(cut.nodes, b))
                            &&& final(self)@ == #[trigger] rolled_back(
                                old(self)@,
                                pos,
                                marks,
                                checkpoint,
                                max,
                            )
                            &&& text::views(r->Ok_0.broadcasts@) == rollback_news(
                                old(self)@,
                                pos,
                                marks,
                                checkpoint,
                                max,
                            )
                        }
                    &&& records(
                        r->Ok_0.tombstone@,
                        dag::cut_branch(old(self)@, pos, r->Ok_0.branch_id),
                    )
                },
            },
    {
        let marks = RollbackMarks {
            branch_id: fresh_id(),
            sealed: Mark { id: fresh_id(), time: current_time() },
            pruned: Mark { id: fresh_id(), time: current_time() },
            tombstone: Mark { id: fresh_id(), time: current_time() },
        };
        self.rollback_with(checkpoint, marks)
    }

    /// The events of each retained branch that diverged at `anchor`.
    pub fn rejected_branches_from(&self, anchor: EventId) -> (r: Vec<Vec<Event>>)
        ensures
            r@.map_values(|v: Vec<Event>| text::views(v@)) == seqs::filter_map(
                self@.branches,
                |b: BranchView|
                    if b.parent_event_id == Some(anchor) {
                        Some(dag::events_of(self@.nodes, b.event_ids))
                    } else {
                        None
                    },
            ),
            r@.map_values(|v: Vec<Event>| text::views(v@)) == rejected_from(self@, anchor),
    {
        let mut out: Vec<Vec<Event>> = Vec::new();
        let ghost f = |b: BranchView|
            if b.parent_event_id == Some(anchor) {
                Some(dag::events_of(self@.nodes, b.event_ids))
            } else {
                None
            };
        let ghost bs = self@.branches;
        let mut i: usize = 0;
        assert(out@.map_values(|v: Vec<Event>| text::views(v@)) =~= Seq::empty());
        while i < self.store.rejected_branches.len()
            invariant
                i <= self.store.rejected_branches@.len(),
                bs == self@.branches,
                f == (|b: BranchView|
                    if b.parent_event_id == Some(anchor) {
                        Some(dag::events_of(self@.nodes, b.event_ids))
                    } else {
                        None
                    }),
                out@.map_values(|v: Vec<Event>| text::views(v@)) == seqs::filter_map(bs.take(i as int), f),
            decreases self.store.rejected_branches@.len() - i,
        {
            let b = &self.store.rejected_branches[i];
            proof {
                assert(bs[i as int] == b@);
                seqs::lemma_take_push(bs, i as int);
                seqs::lemma_filter_map_push(bs.take(i as int), f, b@);
            }
            let here = match b.parent_event_id {
                Some(p) => p == anchor,
                None => false,
            };
            if here {
                let events = self.store.events_from(&b.event_ids, 0);
                let ghost before = out@;
                out.push(events);
                proof {
                    assert(b.event_ids@.skip(0) =~= b.event_ids@);
                    assert(out@.map_values(|v: Vec<Event>| text::views(v@)) =~= before.map_values(
                        |v: Vec<Event>| text::views(v@),
                    ).push(text::views(events@)));
                }
            }
            i += 1;
        }
        assert(bs.take(i as int) =~= bs);
        out
    }

    /// All retained branches with their IDs and events.
    pub fn all_rejected_branches(&self) -> (r: Vec<BranchData>)
        ensures
            text::views(r@) == self@.branches.map_values(|b: BranchView| dag::branch_data(self@.nodes, b)),
            text::views(r@) == rejected_data(self@),
    {
        let mut out: Vec<BranchData> = Vec::new();
        let ghost all = self@.branches.map_values(|b: BranchView| dag::branch_data(self@.nodes, b));
        let mut i: usize = 0;
        assert(text::views(out@) =~= all.take(0));
        while i < self.store.rejected_branches.len()
            invariant
                i <= self.store.rejected_branches@.len(),
                all == self@.branches.map_values(|b: BranchView| dag::branch_data(self@.nodes, b)),
                text::views(out@) == all.take(i as int),
            decreases self.store.rejected_branches@.len() - i,
        {
            let b = &self.store.rejected_branches[i];
            let data = BranchData {
                id: b.id,
                parent_event_id: b.parent_event_id,
                events: self.store.events_from(&b.event_ids, 0),
            };
            let ghost before = text::views(out@);
            out.push(data);
            proof {
                assert(b.event_ids@.skip(0) =~= b.event_ids@);
                assert(self@.branches[i as int] == b@);
                seqs::lemma_take_push(all, i as int);
                assert(text::views(out@) =~= before.push(data@));
            }
            i += 1;
        }
        assert(all.take(i as int) =~= all);
        out
    }

    /// An isolated bus with a copy of the active branch; the events keep their IDs.
    pub fn fork(&self) -> (r: EventBus)
        ensures
            r@ == forked(self@),
            r.config == self.config,
    {
        let mut out = EventBus::with_config(self.config);
        proof {
            assert(text::views(out.store.rejected_branches@).len() == 0);
            assert forall|id: EventId| !#[trigger] out.store.nodes@.contains_key(id) by {
                assert(!out@.nodes.contains_key(id));
            }
        }
        let path = &self.store.active_path;
        let mut i: usize = 0;
        while i < path.len()
            invariant
                i <= path@.len(),
                path@ == self@.path,
                out.config == self.config,
                out.store.active_path@ == path@.take(i as int),
                out.store.rejected_branches@.len() == 0,
                forall|id: EventId| #[trigger]
                    out.store.nodes@.contains_key(id) <==> self.store.nodes@.contains_key(id)
                        && path@.take(i as int).contains(id),
                forall|id: EventId| #[trigger]
                    out.store.nodes@.contains_key(id) ==> out.store.nodes@[id]@
                        == self.store.nodes@[id]@,
            decreases path@.len() - i,
        {
            let id = path[i];
            let ghost before = out.store.nodes@;
            if let Some(e) = self.store.nodes.get(&id) {
                let copy = e.clone();
                out.store.nodes.insert(id, copy);
            }
            out.store.active_path.push(id);
            proof {
                seqs::lemma_take_push(path@, i as int);
                dag::lemma_contains_push(path@.take(i as int), id);
            }
            i += 1;
        }
        proof {
            assert(path@.take(i as int) =~= path@);
            assert(text::views(out.store.rejected_branches@) =~= Seq::empty());
            assert(out@.nodes =~= forked(self@).nodes);
            assert(out@ =~= forked(self@));
        }
        out
    }

    /// Grafts events that diverged after `anchor` onto the session as a rejected
    /// branch with the ID `id`.
    pub fn adopt_rejected_branch(
        &mut self,
        anchor: Option<EventId>,
        events: Vec<Event>,
        id: BranchId,
    )
        ensures
            final(self)@ == adopted(old(self)@, anchor, text::views(events@), id),
            final(self).config == old(self).config,
    {
        let ghost es = text::views(events@);
        let ghost d0 = self@;
        let mut ids: Vec<EventId> = Vec::new();
        let mut i: usize = 0;
        assert(es.take(0) =~= Seq::empty());
        while i < events.len()
            invariant
                i <= events@.len(),
                es == text::views(events@),
                self.config == old(self).config,
                self.store.active_path == old(self).store.active_path,
                self.store.rejected_branches == old(self).store.rejected_branches,
                d0 == old(self)@,
                self@.nodes == with_nodes(d0.nodes, es.take(i as int)),
                ids@ == es.take(i as int).map_values(|e: EventView| e.id),
            decreases events@.len() - i,
        {
            let e = events[i].clone();
            let key = e.id;
            let ghost before = self@.nodes;
            ids.push(key);
            self.store.nodes.insert(key, e);
            proof {
                seqs::lemma_take_push(es, i as int);
                assert(es.take(i + 1).drop_last() =~= es.take(i as int));
                assert(self@.nodes =~= before.insert(key, e@));
                assert(ids@ =~= es.take(i + 1).map_values(|e: EventView| e.id));
            }
            i += 1;
        }
        assert(es.take(i as int) =~= es);
        let branch = RejectedBranch { id, parent_event_id: anchor, event_ids: ids };
        let ghost before = text::views(self.store.rejected_branches@);
        self.store.rejected_branches.push(branch);
        proof {
            assert(text::views(self.store.rejected_branches@) =~= before.push(branch@));
            assert(self@ =~= adopted(d0, anchor, es, id));
        }
    }

    /// Takes in one event of a persisted stream. `spare` is the ID of a branch
    /// whose tombstone writes none.
    pub fn restore_one(&mut self, event: Event, spare: BranchId)
        ensures
            final(self).config == old(self).config,
            final(self)@ == restored_one(old(self)@, event@, spare),
    {
        let ghost d0 = self@;
        let marked = match event.metadata.get(meta_keys::EPHEMERAL) {
            Some(v) => match v.as_bool() {
                Some(b) => b,
                None => false,
            },
            None => false,
        };
        let kind = event.kind.as_str();
        if marked || same(kind, kinds::ASSISTANT_DELTA) || same(kind, kinds::BRANCH_SEALED) || same(
            kind,
            kinds::SYSTEM_PRUNED,
        ) {
            return;
        }
        if same(kind, kinds::SYSTEM_ROLLBACK) {
            let rejected = read_ids(&event.payload);
            let id = match read_id(&event.payload, "branch_id") {
                Some(id) => id,
                None => spare,
            };
            let parent = read_id(&event.payload, "parent_event_id");
            self.move_off(&rejected, id, parent);
            assert(self@ =~= replay(d0, event@.payload, spare));
        }
        self.store.append(event);
    }

    /// Moves the listed events off the active branch into a branch of their own.
    pub fn move_off(&mut self, ids: &Vec<EventId>, id: BranchId, parent: Option<EventId>)
        ensures
            final(self).config == old(self).config,
            final(self)@ == moved_off(old(self)@, ids@, id, parent),
    {
        if ids.len() == 0 {
            return;
        }
        let ghost d0 = self@;
        let event_ids = keep_ids(&self.store.active_path, ids, true);
        let path = keep_ids(&self.store.active_path, ids, false);
        self.store.active_path = path;
        let branch = RejectedBranch { id, parent_event_id: parent, event_ids };
        self.store.rejected_branches.push(branch);
        assert(self@.branches =~= d0.branches.push(branch@));
        assert(self@ =~= moved_off(d0, ids@, id, parent));
    }

    /// Takes in a persisted event stream, keeping the links between events and
    /// replaying rollbacks.
    ///
    /// Events that a tombstone lists are moved off the active branch into a
    /// reconstructed branch, so a restored session never brings rejected events
    /// back. Events that were only ever broadcast are skipped.
    pub fn restore_from(&mut self, events: Vec<Event>)
        ensures
            final(self).config == old(self).config,
            exists|spares: Seq<BranchId>|
                spares.len() == events@.len() && final(self)@ == #[trigger] restored(
                    old(self)@,
                    text::views(events@),
                    spares,
                ),
    {
        let ghost es = text::views(events@);
        let ghost mut spares: Seq<BranchId> = Seq::empty();
        let mut i: usize = 0;
        while i < events.len()
            invariant
                i <= events@.len(),
                es == text::views(events@),
                spares.len() == i,
                self.config == old(self).config,
                self@ == restored(old(self)@, es.take(i as int), spares),
            decreases events@.len() - i,
        {
            let spare = fresh_id();
            let event = events[i].clone();
            self.restore_one(event, spare);
            proof {
                lemma_spares(old(self)@, es.take(i as int), spares, spare);
                assert(es.take(i + 1).drop_last() =~= es.take(i as int));
                spares = spares.push(spare);
            }
            i += 1;
        }
        assert(es.take(i as int) =~= es);
    }
}

/// Spare IDs beyond the length of the stream do not matter.
proof fn lemma_spares(d: DagView, events: Seq<EventView>, spares: Seq<BranchId>, spare: BranchId)
    requires
        spares.len() >= events.len(),
    ensures
        restored(d, events, spares.push(spare)) == restored(d, events, spares),
    decreases events.len(),
{
    if events.len() > 0 {
        lemma_spares(d, events.drop_last(), spares, spare);
    }
}

// ── Masking ────────────────────────────────────────────────────────────────

/// A text with each secret that is not empty replaced, in order.
pub open spec fn masked_text(text: Seq<char>, secrets: Seq<Seq<char>>) -> Seq<char>
    decreases secrets.len(),
{
    if secrets.len() == 0 {
        text
    } else {
        text::replace(masked_text(text, secrets.drop_last()), secrets.last(), "[REDACTED]"@)
    }
}

/// Whether there is a word that is not empty.
pub open spec fn has_secret(secrets: Seq<Seq<char>>) -> bool {
    exists|i: int| 0 <= i < secrets.len() && (#[trigger] secrets[i]).len() > 0
}

/// How a text stands inside the quotes of a JSON document.
pub open spec fn quoted_form(s: Seq<char>) -> Seq<char> {
    let quoted = json::json_text(JsonView::Text(s));
    if quoted.len() >= 2 {
        quoted.subrange(1, quoted.len() - 1)
    } else {
        s
    }
}

/// The words to look for: each secret, and after it its form in a JSON document where
/// that is another one.
pub open spec fn sought_words(secrets: Seq<Seq<char>>) -> Seq<Seq<char>> {
    seqs::flat_map(
        secrets,
        |s: Seq<char>|
            if quoted_form(s) == s {
                seq![s]
            } else {
                seq![s, quoted_form(s)]
            },
    )
}

/// Whether no word stands in a text, but for words that are part of the mark that
/// stands in their place.
pub open spec fn hides(shown: Seq<char>, words: Seq<Seq<char>>) -> bool {
    forall|i: int|
        0 <= i < words.len() && (#[trigger] words[i]).len() > 0 ==> text::contains(
            "\"[REDACTED]\""@,
            words[i],
        ) || !text::contains(shown, words[i])
}

/// The payload that a masked text leaves, given what it reads as and how that is
/// written. Where that would show a word, or the masked text is no JSON document, a
/// payload whose plain text shows no word is left as it is, and any other becomes the
/// masked text itself; if that shows a word too, the mark alone is left.
pub open spec fn hidden_payload(
    payload: JsonView,
    plain: Seq<char>,
    words: Seq<Seq<char>>,
    masked: Seq<char>,
    quoted: Seq<char>,
    read: Result<(JsonView, Seq<char>), Seq<char>>,
) -> JsonView {
    match read {
        Ok((j, shown)) if hides(shown, words) => j,
        _ => if hides(plain, words) {
            payload
        } else if hides(quoted, words) {
            JsonView::Text(masked)
        } else {
            JsonView::Text("[REDACTED]"@)
        },
    }
}

/// A document and the text that it is written as.
pub open spec fn with_text(read: Result<JsonView, Seq<char>>) -> Result<
    (JsonView, Seq<char>),
    Seq<char>,
> {
    match read {
        Ok(j) => Ok((j, json::json_text(j))),
        Err(e) => Err(e),
    }
}

/// A payload with the secrets masked in its JSON text.
pub open spec fn masked_payload(payload: JsonView, secrets: Seq<Seq<char>>) -> JsonView {
    let words = sought_words(secrets);
    if has_secret(words) {
        let masked = masked_text(json::json_text(payload), words);
        hidden_payload(
            payload,
            json::json_text(payload),
            words,
            masked,
            json::json_text(JsonView::Text(masked)),
            with_text(json::parsed_json(masked)),
        )
    } else {
        payload
    }
}

/// A text with each secret replaced by `[REDACTED]`, if there is a secret that is not
/// empty.
pub fn mask_text(secrets: &Vec<String>, plain: &str) -> (r: Option<String>)
    ensures
        match r {
            Some(t) => has_secret(text::views(secrets@)) && t@ == masked_text(
                plain@,
                text::views(secrets@),
            ),
            None => !has_secret(text::views(secrets@)),
        },
{
    let ghost ss = text::views(secrets@);
    let mut any = false;
    let mut out = plain.to_owned();
    let mut i: usize = 0;
    while i < secrets.len()
        invariant
            i <= secrets@.len(),
            ss == text::views(secrets@),
            any <==> exists|j: int| 0 <= j < i && (#[trigger] ss[j]).len() > 0,
            out@ == masked_text(plain@, ss.take(i as int)),
        decreases secrets@.len() - i,
    {
        proof {
            assert(ss.take(i + 1).drop_last() =~= ss.take(i as int));
            assert(ss[i as int] == secrets@[i as int]@);
        }
        if !secrets[i].as_str().is_empty() {
            any = true;
            out = replace_str(out.as_str(), secrets[i].as_str(), "[REDACTED]");
        } else {
            assert(text::replace(out@, ss[i as int], "[REDACTED]"@) == out@);
        }
        i += 1;
    }
    assert(ss.take(i as int) =~= ss);
    if any {
        Some(out)
    } else {
        None
    }
}

fn quoted_form_of(s: &str) -> (r: String)
    ensures
        r@ == quoted_form(s@),
{
    let quoted = Json::text(s).print();
    let v = chars_of(quoted.as_str());
    if v.len() >= 2 {
        string_of(&v, 1, v.len() - 1)
    } else {
        s.to_owned()
    }
}

fn words_to_seek(secrets: &Vec<String>) -> (r: Vec<String>)
    ensures
        text::views(r@) == sought_words(text::views(secrets@)),
{
    let ghost ss = text::views(secrets@);
    let ghost f = |s: Seq<char>|
        if quoted_form(s) == s {
            seq![s]
        } else {
            seq![s, quoted_form(s)]
        };
    let mut out: Vec<String> = Vec::new();
    let mut i: usize = 0;
    assert(text::views(out@) =~= seqs::flat_map(ss.take(0), f));
    while i < secrets.len()
        invariant
            i <= secrets@.len(),
            ss == text::views(secrets@),
            f == (|s: Seq<char>|
                if quoted_form(s) == s {
                    seq![s]
                } else {
                    seq![s, quoted_form(s)]
                }),
            text::views(out@) == seqs::flat_map(ss.take(i as int), f),
        decreases secrets@.len() - i,
    {
        let ghost before = text::views(out@);
        proof {
            seqs::lemma_take_push(ss, i as int);
            seqs::lemma_flat_map_push(ss.take(i as int), f, ss[i as int]);
        }
        let form = quoted_form_of(secrets[i].as_str());
        let other = !same(form.as_str(), secrets[i].as_str());
        out.push(secrets[i].clone());
        if other {
            out.push(form);
        }
        assert(text::views(out@) =~= before + f(ss[i as int]));
        i += 1;
    }
    assert(ss.take(i as int) =~= ss);
    out
}

fn is_hidden(shown: &str, words: &Vec<String>) -> (r: bool)
    ensures
        r == hides(shown@, text::views(words@)),
{
    let ghost ws = text::views(words@);
    let mut i: usize = 0;
    while i < words.len()
        invariant
            i <= words@.len(),
            ws == text::views(words@),
            forall|k: int|
                0 <= k < i && (#[trigger] ws[k]).len() > 0 ==> text::contains(
                    "\"[REDACTED]\""@,
                    ws[k],
                ) || !text::contains(shown@, ws[k]),
        decreases words@.len() - i,
    {
        let word = words[i].as_str();
        assert(ws[i as int] == word@);
        if !word.is_empty() && !contains_str("\"[REDACTED]\"", word) && contains_str(shown, word) {
            return false;
        }
        i += 1;
    }
    true
}

/// An event with the payload that a masked text leaves, given the plain text, what the
/// masked one reads as and how that is written, and the masked text in quotes.
pub fn with_masked(
    event: Event,
    plain: &str,
    words: &Vec<String>,
    masked: &str,
    quoted: &str,
    read: Result<(Json, String), String>,
) -> (r: Event)
    ensures
        r@ == (EventView {
            payload: hidden_payload(
                event@.payload,
                plain@,
                text::views(words@),
                masked@,
                quoted@,
                match read {
                    Ok((j, t)) => Ok((j@, t@)),
                    Err(e) => Err(e@),
                },
            ),
            ..event@
        }),
{
    let mut out = event;
    if let Ok((payload, shown)) = read {
        if is_hidden(shown.as_str(), words) {
            out.payload = payload;
            return out;
        }
    }
    if is_hidden(plain, words) {
        return out;
    }
    out.payload = if is_hidden(quoted, words) {
        Json::text(masked)
    } else {
        Json::text("[REDACTED]")
    };
    out
}

/// Replaces each secret string with `[REDACTED]` in the serialized payload of an
/// event, so that all nested fields are covered. The stored copy is the masked one; no
/// secret is ever written to the log or visible to subscribers.
pub fn secrets_masking_transform(secrets: &Vec<String>, event: Event) -> (r: Event)
    ensures
        r@ == (EventView { payload: masked_payload(event@.payload, text::views(secrets@)), ..event@ }),
        forall|i: int|
            0 <= i < secrets@.len() && (#[trigger] secrets@[i])@.len() > 0 && !text::contains(
                "\"[REDACTED]\""@,
                secrets@[i]@,
            ) ==> !text::contains(json::json_text(r@.payload), secrets@[i]@),
{
    let words = words_to_seek(secrets);
    // How a payload that is nothing but the mark is written.
    let mark = Json::text("[REDACTED]").print();
    proof {
        reveal_strlit("[REDACTED]");
        reveal_strlit("\"[REDACTED]\"");
        assert(mark@ =~= "\"[REDACTED]\""@);
        let ss = text::views(secrets@);
        assert forall|i: int|
            0 <= i < secrets@.len() && (#[trigger] secrets@[i])@.len() > 0 && !text::contains(
                "\"[REDACTED]\""@,
                secrets@[i]@,
            ) implies !text::contains(
            json::json_text(masked_payload(event@.payload, ss)),
            secrets@[i]@,
        ) by {
            assert(ss[i] == secrets@[i]@);
            bus_laws::law_no_secret_is_stored(event@.payload, ss, i, ss[i]);
        }
    }
    let plain = event.payload.print();
    match mask_text(&words, plain.as_str()) {
        Some(masked) => {
            let quoted = Json::text(masked.as_str()).print();
            let read = match Json::parse(masked.as_str()) {
                Ok(j) => {
                    let shown = j.print();
                    Ok((j, shown))
                },
                Err(e) => Err(e),
            };
            with_masked(event, plain.as_str(), &words, masked.as_str(), quoted.as_str(), read)
        },
        None => event,
    }
}

} // verus!
