//! One logical event stream across processes and hosts.
//!
//! Events published on a node are sent to its peers, and events from peers are
//! published on the node. An event that was sent carries the name of the node that
//! first published it; a node never sends on what it received, nor what it sent
//! already.
use crate::text;
use crate::agent::worker::interested;
use crate::event::{Event, EventId, EventView};
use crate::json::{Json, JsonView};
use crate::text::same;
use std::collections::HashSet;
use vstd::prelude::*;

verus! {

broadcast use vstd::std_specs::hash::group_hash_axioms;

/// Metadata key naming the node that first published an event.
pub const ORIGIN_NODE_KEY: &'static str = "origin_node";

/// Failures of a transport.
#[derive(Debug)]
pub enum TransportError {
    Io(String),
    Serde(String),
    Closed,
}

/// The message of a transport error.
pub open spec fn transport_error_text(e: TransportError) -> Seq<char> {
    match e {
        TransportError::Io(m) => "I/O error: "@ + m@,
        TransportError::Serde(m) => "serialization error: "@ + m@,
        TransportError::Closed => "transport closed"@,
    }
}

impl TransportError {
    /// The message of this error.
    pub fn to_text(&self) -> (r: String)
        ensures
            r@ == transport_error_text(*self),
    {
        match self {
            TransportError::Io(m) => {
                let mut out = "I/O error: ".to_owned();
                out.push_str(m.as_str());
                out
            },
            TransportError::Serde(m) => {
                let mut out = "serialization error: ".to_owned();
                out.push_str(m.as_str());
                out
            },
            TransportError::Closed => "transport closed".to_owned(),
        }
    }
}

/// What a node sends and takes in.
pub struct DistributedBus {
    pub node_id: String,
    /// Kinds to send; empty sends everything.
    pub filter: Vec<String>,
    /// Events already seen, published here or received.
    pub seen: HashSet<EventId>,
}

#[verifier::ext_equal]
pub struct NodeView {
    pub node_id: Seq<char>,
    pub filter: Seq<Seq<char>>,
    pub seen: Set<EventId>,
}

impl View for DistributedBus {
    type V = NodeView;

    open spec fn view(&self) -> NodeView {
        NodeView { node_id: self.node_id@, filter: text::views(self.filter@), seen: self.seen@ }
    }
}

/// Whether events of this kind are sent.
pub open spec fn sends_kind(n: NodeView, kind: Seq<char>) -> bool {
    n.filter.len() == 0 || n.filter.contains(kind)
}

/// Whether another node first published an event.
pub open spec fn foreign(n: NodeView, e: EventView) -> bool {
    match e.meta_text(ORIGIN_NODE_KEY@) {
        Some(origin) => origin != n.node_id,
        None => false,
    }
}

/// Whether an event that was published on a node is sent to its peers.
pub open spec fn sends(n: NodeView, e: EventView) -> bool {
    sends_kind(n, e.kind) && !foreign(n, e) && !n.seen.contains(e.id)
}

/// The node after an event was published on it.
pub open spec fn after_outbound(n: NodeView, e: EventView) -> NodeView {
    if sends_kind(n, e.kind) && !foreign(n, e) {
        NodeView { seen: n.seen.insert(e.id), ..n }
    } else {
        n
    }
}

/// The node after an event was received.
pub open spec fn after_inbound(n: NodeView, e: EventView) -> NodeView {
    NodeView { seen: n.seen.insert(e.id), ..n }
}

impl DistributedBus {
    /// A node that sends everything.
    pub fn new(node_id: &str) -> (r: DistributedBus)
        ensures
            r@ == (NodeView { node_id: node_id@, filter: Seq::empty(), seen: Set::empty() }),
    {
        let out = DistributedBus {
            node_id: node_id.to_owned(),
            filter: Vec::new(),
            seen: HashSet::new(),
        };
        assert(out@.filter =~= Seq::empty());
        out
    }

    /// Give this node a stable, human-readable id.
    pub fn with_node_id(self, id: String) -> (r: DistributedBus)
        ensures
            r == (DistributedBus { node_id: id, ..self }),
    {
        DistributedBus { node_id: id, ..self }
    }

    /// Only send events whose kind appears in `kinds`.
    pub fn filter_kinds(self, kinds: Vec<String>) -> (r: DistributedBus)
        ensures
            r == (DistributedBus { filter: kinds, ..self }),
    {
        DistributedBus { filter: kinds, ..self }
    }

    /// Whether events of this kind are sent.
    pub fn should_forward(&self, event: &Event) -> (r: bool)
        ensures
            r == sends_kind(self@, event@.kind),
    {
        interested(&self.filter, event.kind.as_str())
    }

    /// `true` if this event is new to this node, which is then recorded.
    pub fn mark_seen(&mut self, id: EventId) -> (r: bool)
        ensures
            r == !old(self)@.seen.contains(id),
            final(self)@ == (NodeView { seen: old(self)@.seen.insert(id), ..old(self)@ }),
    {
        self.seen.insert(id)
    }

    /// Takes in an event from a peer: whether it is to be published here.
    pub fn inbound(&mut self, event: &Event) -> (r: bool)
        ensures
            r == !old(self)@.seen.contains(event@.id),
            final(self)@ == after_inbound(old(self)@, event@),
    {
        self.mark_seen(event.id)
    }

    /// Takes in an event published here: what is to be sent to the peers, if
    /// anything.
    pub fn outbound(&mut self, event: &Event) -> (r: Option<Event>)
        ensures
            match r {
                Some(tagged) => sends(old(self)@, event@) && tagged@ == event@.with_meta(
                    ORIGIN_NODE_KEY@,
                    JsonView::Text(old(self)@.node_id),
                ),
                None => !sends(old(self)@, event@),
            },
            final(self)@ == after_outbound(old(self)@, event@),
    {
        if !self.should_forward(event) {
            return None;
        }
        let elsewhere = match event.meta_text(ORIGIN_NODE_KEY) {
            Some(origin) => !same(origin, self.node_id.as_str()),
            None => false,
        };
        if elsewhere || !self.mark_seen(event.id) {
            return None;
        }
        Some(event.clone().with_meta(ORIGIN_NODE_KEY, Json::text(self.node_id.as_str())))
    }
}

/// What happens at a node.
pub enum Happening {
    Received(EventView),
    Published(EventView),
}

/// The node after one happening.
pub open spec fn after_one(n: NodeView, h: Happening) -> NodeView {
    match h {
        Happening::Received(e) => after_inbound(n, e),
        Happening::Published(e) => after_outbound(n, e),
    }
}

/// The node after a series of happenings.
pub open spec fn after_all(n: NodeView, hs: Seq<Happening>) -> NodeView
    decreases hs.len(),
{
    if hs.len() == 0 {
        n
    } else {
        after_one(after_all(n, hs.drop_last()), hs.last())
    }
}

proof fn lemma_seen_stays(n: NodeView, hs: Seq<Happening>, id: EventId)
    requires
        n.seen.contains(id),
    ensures
        after_all(n, hs).seen.contains(id),
    decreases hs.len(),
{
    if hs.len() > 0 {
        lemma_seen_stays(n, hs.drop_last(), id);
    }
}

/// A node never sends on an event that it received, whatever happened in between,
/// and never takes the same event in twice.
pub proof fn law_received_is_not_sent(
    n: NodeView,
    received: EventView,
    hs: Seq<Happening>,
    later: EventView,
)
    requires
        later.id == received.id,
    ensures
        !sends(after_all(after_inbound(n, received), hs), later),
        after_all(after_inbound(n, received), hs).seen.contains(later.id),
{
    lemma_seen_stays(after_inbound(n, received), hs, later.id);
}

/// A node sends an event at most once, and does not take its echo in.
pub proof fn law_sent_once(n: NodeView, sent: EventView, hs: Seq<Happening>, later: EventView)
    requires
        sends(n, sent),
        later.id == sent.id,
    ensures
        !sends(after_all(after_outbound(n, sent), hs), later),
        after_all(after_outbound(n, sent), hs).seen.contains(later.id),
{
    lemma_seen_stays(after_outbound(n, sent), hs, later.id);
}

/// An event that another node published is never sent, whatever was seen.
pub proof fn law_foreign_is_not_sent(n: NodeView, e: EventView, origin: Seq<char>)
    requires
        origin != n.node_id,
    ensures
        !sends(n, e.with_meta(ORIGIN_NODE_KEY@, JsonView::Text(origin))),
{
    let tagged = e.with_meta(ORIGIN_NODE_KEY@, JsonView::Text(origin));
    assert(tagged.meta(ORIGIN_NODE_KEY@) == Some(JsonView::Text(origin)));
}

} // verus!
