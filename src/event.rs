//! The events that the runtime reports, reduced to what the PAG reads.
use vstd::prelude::*;

verus! {

/// Whether an operator starts or stops running.
#[derive(Clone, Copy, PartialEq, Eq, Structural, Hash, Debug)]
pub enum StartStop {
    /// The operator starts.
    Start,
    /// The operator stops.
    Stop,
}

/// The kinds of event that the PAG construction distinguishes.
#[derive(Clone, Debug)]
pub enum EventKind {
    /// Creation of operator `id` at the scope path `addr`.
    Operates { id: usize, addr: Vec<usize> },
    /// Operator `id` starts or stops.
    Schedule { id: usize, start_stop: StartStop },
    /// A progress message sent or received.
    Progress { source: usize, seq_no: usize, channel: usize, is_send: bool },
    /// A data message sent or received.
    Messages {
        source: usize,
        target: usize,
        seq_no: usize,
        channel: usize,
        length: usize,
        is_send: bool,
    },
    /// Any event that the PAG does not use.
    Other,
}

/// An event: when it happened (nanoseconds from the start of the run), on
/// which worker, and what it was.
#[derive(Clone, Debug)]
pub struct Event {
    pub t: u64,
    pub wid: usize,
    pub kind: EventKind,
}

impl Event {
    /// The PAG node at which this event stands.
    pub open spec fn node(self) -> crate::PagNode {
        crate::PagNode { t: self.t, wid: self.wid }
    }
}

} // verus!
