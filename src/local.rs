//! Local edges: each worker's consecutive events, classified by a sliding
//! window of three.
use std::collections::HashMap;
use vstd::prelude::*;

use crate::{EdgeType, Event, EventKind, PagEdge, PagNode, StartStop};

verus! {

broadcast use vstd::std_specs::hash::group_hash_axioms;

pub open spec fn is_start(k: EventKind) -> bool {
    k matches EventKind::Schedule { start_stop: StartStop::Start, .. }
}

pub open spec fn is_stop(k: EventKind) -> bool {
    k matches EventKind::Schedule { start_stop: StartStop::Stop, .. }
}

/// The event `e` is the receipt of a progress message that its own worker
/// sent.
pub open spec fn own_progress_recv(e: Event) -> bool {
    match e.kind {
        EventKind::Progress { source, is_send, .. } => !is_send && source == e.wid,
        _ => false,
    }
}

/// The type of the edge from an event of kind `prev` to the next one, of
/// kind `x`, before the look-ahead on `next`, and the operator id in force
/// after it, where `oid` was in force before.
pub open spec fn base_edge_type(prev: EventKind, x: EventKind, oid: Option<usize>) -> (
    EdgeType,
    Option<usize>,
) {
    if x matches EventKind::Progress { is_send: false, .. } {
        (EdgeType::Waiting, oid)
    } else {
        match prev {
            EventKind::Schedule { id: p, start_stop: StartStop::Start } => {
                if is_stop(x) {
                    (EdgeType::Spinning(p), oid)
                } else {
                    (EdgeType::Processing { oid: Some(p), send: None, recv: None }, Some(p))
                }
            },
            EventKind::Messages { length, is_send: true, .. } => match x {
                EventKind::Schedule { id: r, start_stop: StartStop::Start } => (
                    EdgeType::Processing { oid: Some(r), send: Some(length), recv: None },
                    Some(r),
                ),
                _ => (EdgeType::Processing { oid, send: Some(length), recv: None }, oid),
            },
            EventKind::Messages { length, is_send: false, .. } => (
                EdgeType::Processing { oid, send: None, recv: Some(length) },
                oid,
            ),
            _ => (EdgeType::Busy, oid),
        }
    }
}

/// The next event is a message between two different workers.
pub open spec fn is_remote_message(k: EventKind) -> bool {
    match k {
        EventKind::Messages { source, target, .. } => source != target,
        _ => false,
    }
}

/// The type of the edge from an event of kind `prev` to the next one, of
/// kind `x`, where the event after that is of kind `next` and the operator
/// id `oid` is in force; and the operator id in force after the edge.
pub open spec fn local_edge_type(prev: EventKind, x: EventKind, next: EventKind, oid: Option<usize>) -> (
    EdgeType,
    Option<usize>,
) {
    let base = base_edge_type(prev, x, oid);
    let t = if base.0 == EdgeType::Busy && x is Schedule && is_remote_message(next) {
        EdgeType::Waiting
    } else {
        base.0
    };
    let o = if is_stop(x) {
        None
    } else {
        base.1
    };
    (t, o)
}

/// Classifies the gap between `prev` and `curr`, two consecutive events of a
/// worker, with `next` as look-ahead, and updates the operator id `oid` in
/// force on that worker.
pub fn build_local_edge(prev: &Event, curr: &Event, next: &Event, oid: &mut Option<usize>) -> (r:
    PagEdge)
    requires
        prev.wid == curr.wid,
        curr.wid == next.wid,
        !own_progress_recv(*curr),
    ensures
        r == (PagEdge {
            src: prev.node(),
            dst: curr.node(),
            edge_type: local_edge_type(prev.kind, curr.kind, next.kind, *old(oid)).0,
        }),
        *final(oid) == local_edge_type(prev.kind, curr.kind, next.kind, *old(oid)).1,
{
    let mut edge_type = match &curr.kind {
        EventKind::Progress { is_send: false, .. } => EdgeType::Waiting,
        _ => match &prev.kind {
            EventKind::Schedule { id: p, start_stop: StartStop::Start } => {
                if matches!(curr.kind, EventKind::Schedule { start_stop: StartStop::Stop, .. }) {
                    EdgeType::Spinning(*p)
                } else {
                    *oid = Some(*p);
                    EdgeType::Processing { oid: *oid, send: None, recv: None }
                }
            },
            EventKind::Messages { length, is_send: true, .. } => match &curr.kind {
                EventKind::Schedule { id: r, start_stop: StartStop::Start } => {
                    *oid = Some(*r);
                    EdgeType::Processing { oid: *oid, send: Some(*length), recv: None }
                },
                _ => EdgeType::Processing { oid: *oid, send: Some(*length), recv: None },
            },
            EventKind::Messages { length, is_send: false, .. } => EdgeType::Processing {
                oid: *oid,
                send: None,
                recv: Some(*length),
            },
            _ => EdgeType::Busy,
        },
    };
    // an operator about to take a remote message was waiting for it
    if edge_type == EdgeType::Busy {
        if let EventKind::Schedule { .. } = &curr.kind {
            if let EventKind::Messages { source, target, .. } = &next.kind {
                if *source != *target {
                    edge_type = EdgeType::Waiting;
                }
            }
        }
    }
    // the operator id lapses when its scheduling ends
    if let EventKind::Schedule { start_stop: StartStop::Stop, .. } = &curr.kind {
        *oid = None;
    }
    PagEdge {
        src: PagNode { t: prev.t, wid: prev.wid },
        dst: PagNode { t: curr.t, wid: curr.wid },
        edge_type,
    }
}

/// The last two events of a worker and the operator id in force on it.
pub struct Window {
    pub prev: Option<Event>,
    pub prev2: Option<Event>,
    pub oid: Option<usize>,
}

/// The window of a worker that has seen no event.
pub open spec fn empty_window() -> Window {
    Window { prev: None, prev2: None, oid: None }
}

/// What the window `w` of a worker (`None` for a worker not seen yet) becomes
/// when the event `curr` arrives, and the edge that it completes.
pub open spec fn local_step(w: Option<Window>, curr: Event) -> (Window, Option<PagEdge>) {
    let w0 = match w {
        Some(w) => w,
        None => empty_window(),
    };
    match w0.prev {
        None => (Window { prev: Some(curr), prev2: w0.prev2, oid: w0.oid }, None),
        Some(p) => match w0.prev2 {
            None => (Window { prev: Some(curr), prev2: Some(p), oid: w0.oid }, None),
            Some(p2) => {
                let c = local_edge_type(p2.kind, p.kind, curr.kind, w0.oid);
                (
                    Window { prev: Some(curr), prev2: Some(p), oid: c.1 },
                    Some(PagEdge { src: p2.node(), dst: p.node(), edge_type: c.0 }),
                )
            },
        },
    }
}

/// The event `curr` may follow the window `w`: it is no earlier than the
/// previous event, and the previous event, about to be classified, is no
/// receipt of the worker's own progress message.
pub open spec fn local_accepts(w: Option<Window>, curr: Event) -> bool {
    match w {
        None => true,
        Some(w) => match w.prev {
            None => true,
            Some(p) => p.t <= curr.t && (w.prev2 is Some ==> !own_progress_recv(p)),
        },
    }
}

/// The window `w` holds events of worker `wid` in time order.
pub open spec fn window_wf(wid: usize, w: Window) -> bool {
    &&& w.prev matches Some(p) ==> p.wid == wid
    &&& w.prev2 matches Some(p2) ==> {
        &&& p2.wid == wid
        &&& w.prev matches Some(p) && p2.t <= p.t
    }
}

/// The window after the events `s` of one worker, taken one after another
/// from an empty window, and the edges they produce, in order.
pub open spec fn local_run(s: Seq<Event>) -> (Window, Seq<PagEdge>)
    decreases s.len(),
{
    if s.len() == 0 {
        (empty_window(), Seq::empty())
    } else {
        let prev = local_run(s.drop_last());
        let step = local_step(Some(prev.0), s.last());
        (
            step.0,
            match step.1 {
                Some(e) => prev.1.push(e),
                None => prev.1,
            },
        )
    }
}

/// The events `s` all belong to worker `wid` and come in time order.
pub open spec fn is_worker_trace(s: Seq<Event>, wid: usize) -> bool {
    &&& forall|i: int| 0 <= i < s.len() ==> (#[trigger] s[i]).wid == wid
    &&& forall|i: int, j: int| 0 <= i < j < s.len() ==> (#[trigger] s[i]).t <= (#[trigger] s[j]).t
}

proof fn lemma_local_run_shape(s: Seq<Event>)
    ensures
        ({
            let (w, out) = local_run(s);
            &&& s.len() == 0 ==> w.prev is None && w.prev2 is None
            &&& s.len() >= 1 ==> w.prev == Some(s.last())
            &&& s.len() == 1 ==> w.prev2 is None
            &&& s.len() >= 2 ==> w.prev2 == Some(s[s.len() - 2])
            &&& out.len() == (if s.len() >= 2 {
                s.len() - 2
            } else {
                0
            })
            &&& forall|k: int|
                0 <= k < out.len() ==> (#[trigger] out[k]).src == s[k].node() && out[k].dst
                    == s[k + 1].node()
        }),
    decreases s.len(),
{
    if s.len() > 0 {
        let u = s.drop_last();
        lemma_local_run_shape(u);
        let (w, out) = local_run(u);
        let step = local_step(Some(w), s.last());
        if step.1 is Some {
            let o2 = out.push(step.1.unwrap());
            assert forall|k: int| 0 <= k < o2.len() implies (#[trigger] o2[k]).src == s[k].node()
                && o2[k].dst == s[k + 1].node() by {
                if k < out.len() {
                    assert(o2[k] == out[k]);
                    assert(u[k] == s[k] && u[k + 1] == s[k + 1]);
                } else {
                    assert(u[u.len() - 2] == s[k]);
                    assert(u.last() == s[k + 1]);
                }
            }
        } else {
            assert forall|k: int| 0 <= k < out.len() implies (#[trigger] out[k]).src == s[k].node()
                && out[k].dst == s[k + 1].node() by {
                assert(u[k] == s[k] && u[k + 1] == s[k + 1]);
            }
        }
    }
}

/// The local edges of one worker's events in time order stay on that
/// worker and follow one another in time: each edge ends where the next
/// begins.
pub proof fn lemma_local_edges_chained(s: Seq<Event>, wid: usize)
    requires
        is_worker_trace(s, wid),
    ensures
        crate::trim::is_chained(local_run(s).1),
        forall|k: int|
            0 <= k < local_run(s).1.len() ==> (#[trigger] local_run(s).1[k]).src.wid == wid
                && local_run(s).1[k].dst.wid == wid,
        forall|k: int|
            0 <= k < local_run(s).1.len() - 1 ==> (#[trigger] local_run(s).1[k]).dst == local_run(
                s,
            ).1[k + 1].src,
{
    lemma_local_run_shape(s);
    let out = local_run(s).1;
    assert forall|i: int, j: int| 0 <= i < j < out.len() implies (#[trigger] out[i]).dst.t <= (
    #[trigger] out[j]).src.t by {
        assert(s[i + 1].t <= s[j].t || i + 1 == j);
    }
    assert forall|k: int| 0 <= k < out.len() implies (#[trigger] out[k]).src.t <= out[k].dst.t by {
        assert(s[k].t <= s[k + 1].t);
    }
    assert forall|k: int| 0 <= k < out.len() - 1 implies (#[trigger] out[k]).dst == out[k + 1].src by {
        assert(out[k + 1].src == s[k + 1].node());
    }
}

/// For any events of one worker in time order, no two of the trimmed local
/// edges overlap in time.
pub proof fn lemma_trimmed_local_edges_disjoint(s: Seq<Event>, wid: usize)
    requires
        is_worker_trace(s, wid),
    ensures
        crate::trim::is_chained(crate::trim::trimmed(local_run(s).1)),
{
    lemma_local_edges_chained(s, wid);
    crate::trim::lemma_trim_chained(local_run(s).1);
}

/// The local-edge stage: a window for each worker.
pub struct LocalEdges {
    windows: HashMap<usize, Window>,
}

impl LocalEdges {
    pub closed spec fn windows(&self) -> Map<usize, Window> {
        self.windows@
    }

    pub open spec fn window(&self, wid: usize) -> Option<Window> {
        if self.windows().contains_key(wid) {
            Some(self.windows()[wid])
        } else {
            None
        }
    }

    pub open spec fn wf(&self) -> bool {
        forall|wid: usize| #[trigger]
            self.windows().contains_key(wid) ==> window_wf(wid, self.windows()[wid])
    }

    /// A stage that has seen no event.
    pub fn new() -> (r: LocalEdges)
        ensures
            r.wf(),
            r.windows() == Map::<usize, Window>::empty(),
    {
        LocalEdges { windows: HashMap::new() }
    }

    /// Whether `step` accepts `e` as the next event of its worker.
    pub fn accepts(&self, e: &Event) -> (r: bool)
        ensures
            r == local_accepts(self.window(e.wid), *e),
    {
        match self.windows.get(&e.wid) {
            None => true,
            Some(w) => match &w.prev {
                None => true,
                Some(p) => {
                    let own = match &p.kind {
                        EventKind::Progress { source, is_send, .. } => !*is_send && *source == p.wid,
                        _ => false,
                    };
                    p.t <= e.t && (w.prev2.is_none() || !own)
                },
            },
        }
    }

    /// Takes the next event of worker `curr.wid`, and returns the edge between
    /// the two events before it, classified with `curr` as look-ahead.
    pub fn step(&mut self, curr: Event) -> (r: Option<PagEdge>)
        requires
            old(self).wf(),
            local_accepts(old(self).window(curr.wid), curr),
        ensures
            final(self).wf(),
            r == local_step(old(self).window(curr.wid), curr).1,
            final(self).windows() == old(self).windows().insert(
                curr.wid,
                local_step(old(self).window(curr.wid), curr).0,
            ),
            r matches Some(e) ==> e.src.wid == curr.wid && e.dst.wid == curr.wid && e.src.t
                <= e.dst.t,
    {
        let wid = curr.wid;
        let ghost w = self.window(wid);
        let (prev, prev2, mut oid) = match self.windows.remove(&wid) {
            Some(w) => (w.prev, w.prev2, w.oid),
            None => (None, None, None),
        };
        match prev {
            None => {
                self.windows.insert(wid, Window { prev: Some(curr), prev2, oid });
                None
            },
            Some(p) => match prev2 {
                None => {
                    self.windows.insert(wid, Window { prev: Some(curr), prev2: Some(p), oid });
                    None
                },
                Some(p2) => {
                    let edge = build_local_edge(&p2, &p, &curr, &mut oid);
                    self.windows.insert(wid, Window { prev: Some(curr), prev2: Some(p), oid });
                    Some(edge)
                },
            },
        }
    }
}

} // verus!
