//! Eventage: an event-driven framework for language-model agents.
//!
//! The library holds the decisions of the framework: the event log and its
//! branches, the conversion of events to model requests and of model replies
//! to events, tool execution, permissions, context management, components and
//! plugins. It performs no input or output.
use vstd::prelude::*;

pub mod agent;
pub mod bridge;
pub mod bus;
pub mod bus_laws;
pub mod component;
pub mod dag;
pub mod distributed;
pub mod error;
pub mod event;
pub mod eviction;
pub mod json;
pub mod kinds;
pub mod laws;
pub mod llm;
pub mod mcp;
pub mod meta_keys;
pub mod observability;
pub mod plugin;
pub mod seqs;
pub mod table;
pub mod text;

verus! {

} // verus!
