//! Construction of a Program Activity Graph (PAG) from the scheduler and
//! message events of a distributed dataflow runtime.
//!
//! Each stage of the pipeline is a state machine that takes one event (or
//! one edge) at a time: `peel` filters raw events, `local` classifies the
//! gaps between consecutive events of a worker, `trim` merges runs of
//! equivalent local edges, and `remote` joins sends with receives across
//! workers.
use vstd::prelude::*;

pub mod event;
pub mod local;
pub mod peel;
pub mod remote;
pub mod trim;

pub use event::{Event, EventKind, StartStop};

verus! {

/// The various types of activity that can happen in a dataflow.
#[derive(Debug, Clone, Copy, Hash, Eq, PartialOrd, Ord)]
pub enum EdgeType {
    /// Operator actually doing work.
    Processing {
        /// operator id
        oid: Option<usize>,
        /// number of records sent
        send: Option<usize>,
        /// number of records received
        recv: Option<usize>,
    },
    /// Operator scheduled, but not doing any work.
    Spinning(usize),
    /// Remote control messages, e.g. about progress.
    Progress,
    /// Remote data messages, e.g. moving records around.
    Data(usize),
    /// Waiting for unblocking, e.g. for external input.
    Waiting,
    /// Waiting where the next activity is actively prepared.
    Busy,
}

impl EdgeType {
    /// The relaxed equality used when merging edges: `Processing` values are
    /// alike when their operator ids agree, `Data` values whatever their
    /// lengths, `Spinning` values when their ids agree, other tags by tag.
    pub open spec fn same_class(self, other: EdgeType) -> bool {
        match (self, other) {
            (EdgeType::Processing { oid: a, .. }, EdgeType::Processing { oid: b, .. }) => a == b,
            (EdgeType::Spinning(x), EdgeType::Spinning(y)) => x == y,
            (EdgeType::Progress, EdgeType::Progress) => true,
            (EdgeType::Data(_), EdgeType::Data(_)) => true,
            (EdgeType::Waiting, EdgeType::Waiting) => true,
            (EdgeType::Busy, EdgeType::Busy) => true,
            _ => false,
        }
    }
}

impl PartialEq for EdgeType {
    fn eq(&self, other: &EdgeType) -> (r: bool)
        ensures
            r == self.same_class(*other),
    {
        match (self, other) {
            (EdgeType::Processing { oid: a, .. }, EdgeType::Processing { oid: b, .. }) => {
                match (a, b) {
                    (Some(x), Some(y)) => *x == *y,
                    (None, None) => true,
                    _ => false,
                }
            },
            (EdgeType::Spinning(x), EdgeType::Spinning(y)) => *x == *y,
            (EdgeType::Progress, EdgeType::Progress) => true,
            (EdgeType::Data(_), EdgeType::Data(_)) => true,
            (EdgeType::Waiting, EdgeType::Waiting) => true,
            (EdgeType::Busy, EdgeType::Busy) => true,
            _ => false,
        }
    }
}

impl vstd::std_specs::cmp::PartialEqSpecImpl for EdgeType {
    open spec fn obeys_eq_spec() -> bool {
        true
    }

    open spec fn eq_spec(&self, other: &EdgeType) -> bool {
        self.same_class(*other)
    }
}

/// A node in the PAG: a point in time on one worker.
#[derive(Clone, Copy, PartialEq, Eq, Structural, Hash, Debug)]
pub struct PagNode {
    /// Timestamp of the event in nanoseconds (also a unique identifier).
    pub t: u64,
    /// Id of the worker the event belongs to.
    pub wid: usize,
}

/// An edge in the activity graph.
#[derive(Clone, Copy, PartialEq, Eq, Hash, Debug)]
pub struct PagEdge {
    /// The source node.
    pub src: PagNode,
    /// The destination node.
    pub dst: PagNode,
    /// The activity type.
    pub edge_type: EdgeType,
}

} // verus!
