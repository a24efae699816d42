//! Bridges: events of one bus forwarded to another.
//!
//! Every forwarded event is stamped with the number of bridges that it has crossed.
//! An event that has crossed enough of them is not forwarded again, so two bridges
//! that connect two buses in both directions cannot send an event back and forth
//! for ever.
use crate::text;
use crate::event::{Event, EventView};
use crate::json::{Json, JsonView};
use vstd::prelude::*;

verus! {

/// Metadata key counting how many bridges an event has crossed.
pub const BRIDGE_HOPS_KEY: &'static str = "bridge_hops";

/// Forwards events to a target bus.
pub struct BusBridge {
    /// Kinds to forward; empty forwards everything.
    pub filter: Vec<String>,
    /// How many bridges an event may cross.
    pub max_hops: u64,
}

/// How many bridges an event has crossed.
pub open spec fn hops(e: EventView) -> u64 {
    match e.meta(BRIDGE_HOPS_KEY@) {
        Some(v) => match v.as_u64() {
            Some(n) => n,
            None => 0,
        },
        None => 0,
    }
}

/// The event that a bridge hands on, if it does.
pub open spec fn handed_on(e: EventView, max_hops: u64) -> Option<EventView> {
    if hops(e) >= max_hops {
        None
    } else {
        Some(e.with_meta(BRIDGE_HOPS_KEY@, JsonView::Int(hops(e) + 1)))
    }
}

impl BusBridge {
    /// A bridge that forwards all events that have crossed none.
    pub fn new() -> (r: BusBridge)
        ensures
            r.filter@.len() == 0,
            r.max_hops == 1,
    {
        BusBridge { filter: Vec::new(), max_hops: 1 }
    }

    /// Restrict forwarding to events whose `kind` is in `kinds`. An empty list
    /// forwards all events.
    pub fn filter_kinds(self, kinds: Vec<String>) -> (r: BusBridge)
        ensures
            r == (BusBridge { filter: kinds, ..self }),
    {
        BusBridge { filter: kinds, ..self }
    }

    /// Allow events to cross up to `n` bridges, at least one.
    pub fn max_hops(self, n: u64) -> (r: BusBridge)
        ensures
            r == (BusBridge {
                max_hops: if n < 1 {
                    1
                } else {
                    n
                },
                ..self
            }),
    {
        let limit: u64 = if n < 1 {
            1
        } else {
            n
        };
        BusBridge { max_hops: limit, ..self }
    }

    /// The kinds that this bridge subscribes to; none for all.
    pub fn subscribed_kinds(&self) -> (r: Vec<String>)
        ensures
            text::views(r@) == text::views(self.filter@),
    {
        let out = self.filter.clone();
        assert(text::views(out@) =~= text::views(self.filter@));
        out
    }

    /// The event to publish on the target bus, if `event` is to be forwarded.
    pub fn handle(&self, event: &Event) -> (r: Option<Event>)
        ensures
            match (r, handed_on(event@, self.max_hops)) {
                (Some(f), Some(v)) => f@ == v,
                (None, None) => true,
                _ => false,
            },
    {
        let crossed: u64 = match event.metadata.get(BRIDGE_HOPS_KEY) {
            Some(v) => match v.as_u64() {
                Some(n) => n,
                None => 0,
            },
            None => 0,
        };
        if crossed >= self.max_hops {
            return None;
        }
        Some(event.clone().with_meta(BRIDGE_HOPS_KEY, Json::Unsigned(crossed + 1)))
    }
}

/// What is left of an event after bridges with the given limits, one after another.
pub open spec fn through(e: EventView, limits: Seq<u64>) -> Option<EventView>
    decreases limits.len(),
{
    if limits.len() == 0 {
        Some(e)
    } else {
        match handed_on(e, limits[0]) {
            Some(f) => through(f, limits.skip(1)),
            None => None,
        }
    }
}

/// An event crosses no more bridges than the largest limit among them: no ring of
/// bridges echoes it for ever.
pub proof fn law_echoes_end(e: EventView, limits: Seq<u64>, max: u64)
    requires
        forall|i: int| 0 <= i < limits.len() ==> #[trigger] limits[i] <= max,
        hops(e) <= max,
        limits.len() > max - hops(e),
    ensures
        through(e, limits) is None,
    decreases limits.len(),
{
    assert(limits[0] <= max);
    match handed_on(e, limits[0]) {
        Some(f) => {
            assert(f.meta(BRIDGE_HOPS_KEY@) == Some(JsonView::Int(hops(e) + 1)));
            assert(hops(f) == hops(e) + 1);
            law_echoes_end(f, limits.skip(1), max);
        },
        None => {},
    }
}

/// With the default limit, what one bridge has forwarded no other forwards.
pub proof fn law_no_ping_pong(e: EventView)
    ensures
        match handed_on(e, 1) {
            Some(f) => handed_on(f, 1) is None,
            None => true,
        },
{
    match handed_on(e, 1) {
        Some(f) => {
            assert(f.meta(BRIDGE_HOPS_KEY@) == Some(JsonView::Int(hops(e) + 1)));
        },
        None => {},
    }
}

} // verus!
