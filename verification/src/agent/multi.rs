//! Running several agents on one bus.
use crate::agent::cycle;
use super::cycle::is_addressed;
use crate::event::{Event, EventView};
use crate::kinds;
use crate::text::same;
use vstd::prelude::*;

verus! {

/// The limits of a set of agents that run concurrently.
#[derive(Debug, Clone, Copy, PartialEq, Eq, Structural)]
pub struct AgentSet {
    /// If set, at most this many agents execute a cycle at the same time.
    pub max_concurrent: Option<usize>,
}

impl AgentSet {
    pub fn new() -> (r: AgentSet)
        ensures
            r.max_concurrent is None,
    {
        AgentSet { max_concurrent: None }
    }

    /// Limit how many agents may execute a reasoning cycle at the same time; at
    /// least one may.
    pub fn max_concurrent(self, n: usize) -> (r: AgentSet)
        ensures
            r.max_concurrent == Some(
                if n > 1 {
                    n
                } else {
                    1
                },
            ),
    {
        AgentSet {
            max_concurrent: Some(
                if n > 1 {
                    n
                } else {
                    1
                },
            ),
        }
    }
}

/// Whether an event wakes an agent of a set with a limit.
pub open spec fn wakes_in_set(e: EventView, agent_id: Seq<char>) -> bool {
    e.kind == kinds::USER_MESSAGE@ || e.kind == kinds::SYSTEM_HEARTBEAT@ || cycle::addressed(e, agent_id)
}

/// Whether an event wakes an agent of a set with a limit.
pub fn should_wake_in_set(e: &Event, agent_id: &str) -> (r: bool)
    ensures
        r == wakes_in_set(e@, agent_id@),
{
    same(e.kind.as_str(), kinds::USER_MESSAGE) || same(e.kind.as_str(), kinds::SYSTEM_HEARTBEAT)
        || is_addressed(e, agent_id)
}

/// How an agent of a set ended.
pub enum AgentExit<E> {
    Finished,
    Failed(E),
    Panicked,
}

/// The failure that a set ends with so far.
pub struct Exits<E> {
    pub first_err: Option<E>,
}

impl<E> Exits<E> {
    pub fn new() -> (r: Exits<E>)
        ensures
            r.first_err is None,
    {
        Exits { first_err: None }
    }

    /// Takes in an exit; says whether the other agents are to be stopped. The first
    /// failure is kept.
    pub fn take(&mut self, exit: AgentExit<E>) -> (r: bool)
        ensures
            r == (exit is Failed),
            final(self).first_err == (match old(self).first_err {
                Some(e) => Some(e),
                None => match exit {
                    AgentExit::Failed(e) => Some(e),
                    _ => None,
                },
            }),
    {
        match exit {
            AgentExit::Failed(e) => {
                if self.first_err.is_none() {
                    self.first_err = Some(e);
                }
                true
            },
            _ => false,
        }
    }
}

} // verus!
