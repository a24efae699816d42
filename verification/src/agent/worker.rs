//! Participants on the bus other than agents.
//!
//! Workers execute arbitrary logic in response to the events that they subscribe
//! to.
use crate::text;
use crate::error;
use crate::error::BusError;
use crate::text::same;
use vstd::prelude::*;

verus! {

/// Errors of a worker.
#[derive(Debug)]
pub enum WorkerError {
    Bus(BusError),
    Worker(String),
}

/// The message of a worker error.
pub open spec fn worker_error_text(e: WorkerError) -> Seq<char> {
    match e {
        WorkerError::Bus(b) => "bus error: "@ + error::bus_error_text(b),
        WorkerError::Worker(t) => "worker error: "@ + t@,
    }
}

impl WorkerError {
    /// The message of this error.
    pub fn to_text(&self) -> (r: String)
        ensures
            r@ == worker_error_text(*self),
    {
        match self {
            WorkerError::Bus(b) => {
                let mut out = "bus error: ".to_owned();
                let t = b.to_text();
                out.push_str(t.as_str());
                out
            },
            WorkerError::Worker(t) => {
                let mut out = "worker error: ".to_owned();
                out.push_str(t.as_str());
                out
            },
        }
    }
}

/// Whether a worker that subscribes to `kinds` handles an event of `kind`; without
/// kinds it handles all.
pub fn interested(kinds: &Vec<String>, kind: &str) -> (r: bool)
    ensures
        r == (kinds@.len() == 0 || text::views(kinds@).contains(kind@)),
{
    if kinds.len() == 0 {
        return true;
    }
    let mut i: usize = 0;
    while i < kinds.len()
        invariant
            i <= kinds@.len(),
            forall|j: int| 0 <= j < i ==> text::views(kinds@)[j] != kind@,
        decreases kinds@.len() - i,
    {
        if same(kinds[i].as_str(), kind) {
            assert(text::views(kinds@)[i as int] == kind@);
            return true;
        }
        i += 1;
    }
    false
}

/// How a run of a worker ended.
pub enum WorkerExit {
    /// The bus closed.
    Closed,
    Failed(WorkerError),
    Panicked,
}

/// Whether a supervised worker is started again after a second: it is, unless the
/// bus is gone.
pub fn restarts(exit: &WorkerExit) -> (r: bool)
    ensures
        r == (match *exit {
            WorkerExit::Closed => false,
            WorkerExit::Failed(WorkerError::Bus(_)) => false,
            WorkerExit::Failed(WorkerError::Worker(_)) => true,
            WorkerExit::Panicked => true,
        }),
{
    match exit {
        WorkerExit::Closed => false,
        WorkerExit::Failed(WorkerError::Bus(_)) => false,
        WorkerExit::Failed(WorkerError::Worker(_)) => true,
        WorkerExit::Panicked => true,
    }
}

} // verus!
