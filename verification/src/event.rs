//! Events: what happens in a session, linked into a graph by their parents.
use crate::json::{Json, JsonMap, JsonView};
use vstd::prelude::*;

pub use crate::kinds;
pub use crate::meta_keys;

verus! {

/// The 128 bits of a UUID.
pub type EventId = u128;

/// The hyphenated lower-case text that `Display` of `uuid::Uuid` writes.
pub uninterp spec fn uuid_text(id: u128) -> Seq<char>;

/// What `uuid::Uuid::parse_str` reads from a text.
pub uninterp spec fn parsed_uuid(text: Seq<char>) -> Option<u128>;

/// `uuid::Uuid::to_string` of the UUID with the bits `id`. Reading the text
/// gives the bits back.
#[verifier::external_body]
pub(crate) fn uuid_string(id: u128) -> (r: String)
    ensures
        r@ == uuid_text(id),
        parsed_uuid(r@) == Some(id),
{
    uuid::Uuid::from_u128(id).to_string()
}

/// `uuid::Uuid::parse_str`: the bits of the UUID that `text` writes, if any.
#[verifier::external_body]
pub(crate) fn parse_uuid(text: &str) -> (r: Option<u128>)
    ensures
        r == parsed_uuid(text@),
{
    uuid::Uuid::parse_str(text).ok().map(|u| u.as_u128())
}

/// `uuid::Uuid::new_v4`: the bits of a random UUID. Nothing is claimed of them.
#[verifier::external_body]
pub(crate) fn fresh_id() -> (r: u128) {
    uuid::Uuid::new_v4().as_u128()
}

/// A point in time: seconds since the Unix epoch and nanoseconds within the
/// second.
#[derive(Debug, Clone, Copy, PartialEq, Eq, Structural)]
pub struct Timestamp {
    pub secs: i64,
    pub nanos: u32,
}

/// `chrono::Utc::now`: the current time. Nothing is claimed of it.
#[verifier::external_body]
pub(crate) fn current_time() -> (r: Timestamp) {
    let t = chrono::Utc::now();
    Timestamp { secs: t.timestamp(), nanos: t.timestamp_subsec_nanos() }
}

/// A structured, immutable event.
#[derive(Debug)]
pub struct Event {
    pub id: EventId,
    pub timestamp: Timestamp,
    /// Dot-separated domain identifier (e.g., `"user.message"`).
    pub kind: String,
    pub payload: Json,
    /// ID of the preceding event in the active branch; set when the event is
    /// published. `None` for the root event.
    pub parent_event_id: Option<EventId>,
    pub metadata: JsonMap,
}

#[verifier::ext_equal]
pub struct EventView {
    pub id: EventId,
    pub timestamp: Timestamp,
    pub kind: Seq<char>,
    pub payload: JsonView,
    pub parent_event_id: Option<EventId>,
    pub metadata: Map<Seq<char>, JsonView>,
}

impl View for Event {
    type V = EventView;

    open spec fn view(&self) -> EventView {
        EventView {
            id: self.id,
            timestamp: self.timestamp,
            kind: self.kind@,
            payload: self.payload@,
            parent_event_id: self.parent_event_id,
            metadata: self.metadata@,
        }
    }
}

impl Clone for Event {
    fn clone(&self) -> (r: Event)
        ensures
            r@ == self@,
    {
        Event {
            id: self.id,
            timestamp: self.timestamp,
            kind: self.kind.clone(),
            payload: self.payload.clone(),
            parent_event_id: self.parent_event_id,
            metadata: self.metadata.clone(),
        }
    }
}

/// An event without a parent and without metadata.
pub open spec fn plain_event(
    id: EventId,
    timestamp: Timestamp,
    kind: Seq<char>,
    payload: JsonView,
) -> EventView {
    EventView { id, timestamp, kind, payload, parent_event_id: None, metadata: Map::empty() }
}

impl EventView {
    pub open spec fn with_meta(self, key: Seq<char>, value: JsonView) -> EventView {
        EventView { metadata: self.metadata.insert(key, value), ..self }
    }

    /// The metadata value at `key`.
    pub open spec fn meta(self, key: Seq<char>) -> Option<JsonView> {
        if self.metadata.contains_key(key) {
            Some(self.metadata[key])
        } else {
            None
        }
    }

    /// The text in the metadata at `key`.
    pub open spec fn meta_text(self, key: Seq<char>) -> Option<Seq<char>> {
        match self.meta(key) {
            Some(v) => v.as_str(),
            None => None,
        }
    }
}

impl Event {
    /// An event with a fresh ID, of this moment.
    pub fn new(kind: &str, payload: Json) -> (r: Event)
        ensures
            r@ == plain_event(r.id, r.timestamp, kind@, payload@),
    {
        Self::at(fresh_id(), current_time(), kind, payload)
    }

    /// An event with the given ID and time.
    pub fn at(id: EventId, timestamp: Timestamp, kind: &str, payload: Json) -> (r: Event)
        ensures
            r@ == plain_event(id, timestamp, kind@, payload@),
    {
        Event {
            id,
            timestamp,
            kind: kind.to_owned(),
            payload,
            parent_event_id: None,
            metadata: JsonMap::new(),
        }
    }

    pub fn with_meta(self, key: &str, value: Json) -> (r: Event)
        ensures
            r@ == self@.with_meta(key@, value@),
    {
        let mut out = self;
        let metadata = out.metadata.with(key, value);
        out.metadata = metadata;
        out
    }

    /// Set an explicit parent event ID before publishing.
    pub fn with_parent(self, parent: EventId) -> (r: Event)
        ensures
            r@ == (EventView { parent_event_id: Some(parent), ..self@ }),
    {
        let mut out = self;
        out.parent_event_id = Some(parent);
        out
    }

    /// The text in the metadata at `key`.
    pub fn meta_text(&self, key: &str) -> (r: Option<&str>)
        ensures
            crate::json::opt_str(r) == self@.meta_text(key@),
    {
        match self.metadata.get(key) {
            Some(v) => v.as_str(),
            None => None,
        }
    }
}

} // verus!
