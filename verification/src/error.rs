//! Failures of the event bus.
use crate::event;
use crate::event::{uuid_string, EventId};
use vstd::prelude::*;

verus! {

/// Errors returned by event bus operations.
#[derive(Debug, Clone, Copy, PartialEq, Eq, Structural)]
pub enum BusError {
    /// The underlying event channel was dropped or closed.
    ChannelClosed,
    /// Rollback failed: the checkpoint is not in the active branch history.
    CheckpointNotFound(EventId),
}

/// The message of a bus error.
pub open spec fn bus_error_text(e: BusError) -> Seq<char> {
    match e {
        BusError::ChannelClosed => "Event bus channel closed"@,
        BusError::CheckpointNotFound(id) => "Checkpoint event "@ + event::uuid_text(id)
            + " not found in the active branch"@,
    }
}

impl BusError {
    /// The message of this error.
    pub fn to_text(&self) -> (r: String)
        ensures
            r@ == bus_error_text(*self),
    {
        match self {
            BusError::ChannelClosed => "Event bus channel closed".to_owned(),
            BusError::CheckpointNotFound(id) => {
                let mut out = "Checkpoint event ".to_owned();
                let t = uuid_string(*id);
                out.push_str(t.as_str());
                out.push_str(" not found in the active branch");
                out
            },
        }
    }
}

/// Top-level errors of the core.
#[derive(Debug)]
pub enum CoreError {
    /// A bus-related error occurred.
    Bus(BusError),
    /// Failed to read or write a payload or metadata.
    Serde(String),
}

/// The message of a core error.
pub open spec fn core_error_text(e: CoreError) -> Seq<char> {
    match e {
        CoreError::Bus(b) => "Bus error: "@ + bus_error_text(b),
        CoreError::Serde(t) => "Serialization error: "@ + t@,
    }
}

impl CoreError {
    /// The message of this error.
    pub fn to_text(&self) -> (r: String)
        ensures
            r@ == core_error_text(*self),
    {
        match self {
            CoreError::Bus(b) => {
                let mut out = "Bus error: ".to_owned();
                let t = b.to_text();
                out.push_str(t.as_str());
                out
            },
            CoreError::Serde(t) => {
                let mut out = "Serialization error: ".to_owned();
                out.push_str(t.as_str());
                out
            },
        }
    }
}

} // verus!
