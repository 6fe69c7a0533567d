//! Cross-worker edges: a symmetric hash join of message sends with the
//! matching receives.
use vstd::prelude::*;

use crate::{EdgeType, Event, EventKind, PagEdge, PagNode};

verus! {

/// Which half of a message an event records.
#[derive(Clone, Copy, PartialEq, Eq, Structural, Debug)]
pub enum Side {
    Send,
    Recv,
}

impl Side {
    pub open spec fn flip(self) -> Side {
        match self {
            Side::Send => Side::Recv,
            Side::Recv => Side::Send,
        }
    }
}

/// The identity of a message: its sending worker, its receiving worker for
/// data messages, its sequence number and its channel.
#[derive(Clone, Copy, PartialEq, Eq, Structural, Hash, Debug)]
pub struct JoinKey {
    pub source: usize,
    pub target: Option<usize>,
    pub seq_no: usize,
    pub channel: usize,
}

/// One half of a message as the join keeps it: the PAG node of its event,
/// and the type of the edge that the message makes.
#[derive(Clone, Copy, Debug)]
pub struct Endpoint {
    pub node: PagNode,
    pub edge_type: EdgeType,
}

/// An entry of one side of the join.
pub type Entry = (JoinKey, Endpoint);

/// The half of a remote message that the event `e` records, its key and its
/// endpoint; `None` for an event that is no such half.
pub open spec fn remote_entry_of(e: Event) -> Option<(Side, JoinKey, Endpoint)> {
    match e.kind {
        EventKind::Progress { source, seq_no, channel, is_send } => Some(
            (
                if is_send {
                    Side::Send
                } else {
                    Side::Recv
                },
                JoinKey { source, target: None, seq_no, channel },
                Endpoint { node: e.node(), edge_type: EdgeType::Progress },
            ),
        ),
        EventKind::Messages { source, target, seq_no, channel, length, is_send } => {
            if source != target {
                Some(
                    (
                        if is_send {
                            Side::Send
                        } else {
                            Side::Recv
                        },
                        JoinKey { source, target: Some(target), seq_no, channel },
                        Endpoint { node: e.node(), edge_type: EdgeType::Data(length) },
                    ),
                )
            } else {
                None
            }
        },
        _ => None,
    }
}

/// Extracts the join entry of a send or receive of a remote message.
pub fn remote_entry(e: &Event) -> (r: Option<(Side, JoinKey, Endpoint)>)
    ensures
        r == remote_entry_of(*e),
{
    let node = PagNode { t: e.t, wid: e.wid };
    match &e.kind {
        EventKind::Progress { source, seq_no, channel, is_send } => {
            let side = if *is_send {
                Side::Send
            } else {
                Side::Recv
            };
            let key = JoinKey { source: *source, target: None, seq_no: *seq_no, channel: *channel };
            Some((side, key, Endpoint { node, edge_type: EdgeType::Progress }))
        },
        EventKind::Messages { source, target, seq_no, channel, length, is_send } => {
            if *source != *target {
                let side = if *is_send {
                    Side::Send
                } else {
                    Side::Recv
                };
                let key = JoinKey {
                    source: *source,
                    target: Some(*target),
                    seq_no: *seq_no,
                    channel: *channel,
                };
                Some((side, key, Endpoint { node, edge_type: EdgeType::Data(*length) }))
            } else {
                None
            }
        },
        _ => None,
    }
}

/// The partition that joins the messages of `key`: both halves of a message
/// go to the partition of its sending worker.
pub fn route(key: &JoinKey) -> (r: u64)
    ensures
        r == key.source as u64,
{
    key.source as u64
}

/// The edge between the two halves of a message: from the send to the
/// receive, typed by the send.
pub open spec fn remote_edge_of(send: Endpoint, recv: Endpoint) -> PagEdge {
    PagEdge { src: send.node, dst: recv.node, edge_type: send.edge_type }
}

/// Builds the edge between the two halves of a message.
pub fn remote_edge(send: &Endpoint, recv: &Endpoint) -> (r: PagEdge)
    ensures
        r == remote_edge_of(*send, *recv),
{
    PagEdge { src: send.node, dst: recv.node, edge_type: send.edge_type }
}

/// The endpoints of the entries of `s` under `key`, in order.
pub open spec fn matching(s: Seq<Entry>, key: JoinKey) -> Seq<Endpoint>
    decreases s.len(),
{
    if s.len() == 0 {
        Seq::empty()
    } else {
        let m = matching(s.drop_last(), key);
        if s.last().0 == key {
            m.push(s.last().1)
        } else {
            m
        }
    }
}

/// The pairs, send first, of the endpoint `end` of side `side` with each of
/// the endpoints `others` of the other side.
pub open spec fn pairs_with(side: Side, end: Endpoint, others: Seq<Endpoint>) -> Seq<
    (Endpoint, Endpoint),
> {
    others.map_values(
        |o: Endpoint|
            match side {
                Side::Send => (end, o),
                Side::Recv => (o, end),
            },
    )
}

/// The join after one more arrival: the entries of each side, and the pairs
/// that the arrival completes.
pub open spec fn join_step(
    sends: Seq<Entry>,
    recvs: Seq<Entry>,
    side: Side,
    key: JoinKey,
    end: Endpoint,
) -> (Seq<Entry>, Seq<Entry>, Seq<(Endpoint, Endpoint)>) {
    match side {
        Side::Send => (sends.push((key, end)), recvs, pairs_with(side, end, matching(recvs, key))),
        Side::Recv => (sends, recvs.push((key, end)), pairs_with(side, end, matching(sends, key))),
    }
}

/// The join of a sequence of arrivals: the entries of each side, and every
/// pair completed, in the order of completion.
pub open spec fn join_run(arr: Seq<(Side, JoinKey, Endpoint)>) -> (
    Seq<Entry>,
    Seq<Entry>,
    Seq<(Endpoint, Endpoint)>,
)
    decreases arr.len(),
{
    if arr.len() == 0 {
        (Seq::empty(), Seq::empty(), Seq::empty())
    } else {
        let prev = join_run(arr.drop_last());
        let a = arr.last();
        let step = join_step(prev.0, prev.1, a.0, a.1, a.2);
        (step.0, step.1, prev.2 + step.2)
    }
}

/// The arrivals `arr` with the two sides exchanged.
pub open spec fn flipped(arr: Seq<(Side, JoinKey, Endpoint)>) -> Seq<(Side, JoinKey, Endpoint)> {
    arr.map_values(|a: (Side, JoinKey, Endpoint)| (a.0.flip(), a.1, a.2))
}

/// The pairs `p` with their two halves exchanged.
pub open spec fn swapped(p: Seq<(Endpoint, Endpoint)>) -> Seq<(Endpoint, Endpoint)> {
    p.map_values(|x: (Endpoint, Endpoint)| (x.1, x.0))
}

/// The join is symmetric: with the two sides exchanged, the same pairs are
/// completed in the same order, each with its halves exchanged.
pub proof fn lemma_join_symmetric(arr: Seq<(Side, JoinKey, Endpoint)>)
    ensures
        join_run(flipped(arr)).0 == join_run(arr).1,
        join_run(flipped(arr)).1 == join_run(arr).0,
        join_run(flipped(arr)).2 == swapped(join_run(arr).2),
    decreases arr.len(),
{
    let f = flipped(arr);
    if arr.len() == 0 {
        assert(swapped(Seq::empty()) =~= Seq::empty());
    } else {
        let u = arr.drop_last();
        lemma_join_symmetric(u);
        assert(f.drop_last() =~= flipped(u));
        let a = arr.last();
        assert(f.last() == (a.0.flip(), a.1, a.2));
        let prev = join_run(u);
        let step = join_step(prev.0, prev.1, a.0, a.1, a.2);
        let fprev = join_run(flipped(u));
        let fstep = join_step(fprev.0, fprev.1, a.0.flip(), a.1, a.2);
        assert(fstep.2 =~= swapped(step.2));
        assert(swapped(prev.2 + step.2) =~= swapped(prev.2) + swapped(step.2));
    }
}

/// The edge between the two halves of a message joins two different
/// workers, runs forward in time and is a `Progress` or a `Data` edge, in a
/// consistent trace: the sending worker logs the send no later than the
/// receipt is logged, a data message is received by its target, and a
/// progress receipt is one that peeling keeps, logged by another worker than
/// the sending one.
pub proof fn lemma_remote_edge_crosses(send: Event, recv: Event)
    requires
        remote_entry_of(send) is Some,
        remote_entry_of(recv) is Some,
        remote_entry_of(send).unwrap().0 == Side::Send,
        remote_entry_of(recv).unwrap().0 == Side::Recv,
        remote_entry_of(send).unwrap().1 == remote_entry_of(recv).unwrap().1,
        send.wid == remote_entry_of(send).unwrap().1.source,
        send.t <= recv.t,
        match remote_entry_of(recv).unwrap().1.target {
            Some(target) => recv.wid == target,
            None => recv.wid != remote_entry_of(recv).unwrap().1.source,
        },
    ensures
        ({
            let e = remote_edge_of(remote_entry_of(send).unwrap().2, remote_entry_of(recv).unwrap().2);
            &&& e.src.wid != e.dst.wid
            &&& e.src.t <= e.dst.t
            &&& e.edge_type is Progress || e.edge_type is Data
        }),
{
}

/// The state of the join: every entry that arrived on each side.
pub struct Join {
    sends: Vec<Entry>,
    recvs: Vec<Entry>,
}

impl Join {
    pub closed spec fn sends(&self) -> Seq<Entry> {
        self.sends@
    }

    pub closed spec fn recvs(&self) -> Seq<Entry> {
        self.recvs@
    }

    /// A join that holds no entry.
    pub fn new() -> (r: Join)
        ensures
            r.sends() == Seq::<Entry>::empty(),
            r.recvs() == Seq::<Entry>::empty(),
    {
        Join { sends: Vec::new(), recvs: Vec::new() }
    }

    /// Takes the entry `(key, end)` of side `side`, and returns the pairs,
    /// send first, of it with every entry of the other side under `key`.
    pub fn push(&mut self, side: Side, key: JoinKey, end: Endpoint) -> (r: Vec<(Endpoint, Endpoint)>)
        ensures
            ({
                let step = join_step(old(self).sends(), old(self).recvs(), side, key, end);
                &&& final(self).sends() == step.0
                &&& final(self).recvs() == step.1
                &&& r@ == step.2
            }),
    {
        let r = match side {
            Side::Send => pairs_of(side, key, end, &self.recvs),
            Side::Recv => pairs_of(side, key, end, &self.sends),
        };
        match side {
            Side::Send => self.sends.push((key, end)),
            Side::Recv => self.recvs.push((key, end)),
        }
        r
    }
}

fn pairs_of(side: Side, key: JoinKey, end: Endpoint, others: &Vec<Entry>) -> (r: Vec<
    (Endpoint, Endpoint),
>)
    ensures
        r@ == pairs_with(side, end, matching(others@, key)),
{
    let mut r: Vec<(Endpoint, Endpoint)> = Vec::new();
    let mut i: usize = 0;
    while i < others.len()
        invariant
            i <= others.len(),
            r@ == pairs_with(side, end, matching(others@.take(i as int), key)),
        decreases others.len() - i,
    {
        let (k, o) = others[i];
        assert(others@.take(i as int + 1).drop_last() =~= others@.take(i as int));
        if k == key {
            match side {
                Side::Send => r.push((end, o)),
                Side::Recv => r.push((o, end)),
            }
        }
        i = i + 1;
        assert(r@ =~= pairs_with(side, end, matching(others@.take(i as int), key)));
    }
    assert(others@.take(others.len() as int) =~= others@);
    r
}

} // verus!
