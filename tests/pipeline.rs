use st2::local::{build_local_edge, LocalEdges};
use st2::peel::Peel;
use st2::remote::{remote_edge, remote_entry, route, Endpoint, Join, JoinKey, Side};
use st2::trim::{merge_edge_types, Trim};
use st2::{EdgeType, Event, EventKind, PagEdge, PagNode, StartStop};

fn ev(t: u64, wid: usize, kind: EventKind) -> Event {
    Event { t, wid, kind }
}

fn start(id: usize) -> EventKind {
    EventKind::Schedule { id, start_stop: StartStop::Start }
}

fn stop(id: usize) -> EventKind {
    EventKind::Schedule { id, start_stop: StartStop::Stop }
}

fn msg(source: usize, target: usize, length: usize, is_send: bool) -> EventKind {
    EventKind::Messages { source, target, seq_no: 0, channel: 0, length, is_send }
}

fn edge(src: u64, dst: u64, wid: usize, edge_type: EdgeType) -> PagEdge {
    PagEdge { src: PagNode { t: src, wid }, dst: PagNode { t: dst, wid }, edge_type }
}

/// Compares every field, payloads included (`==` on edge types is relaxed).
fn same(a: &PagEdge, b: &PagEdge) -> bool {
    format!("{:?}", a) == format!("{:?}", b)
}

fn proc(oid: usize, send: Option<usize>, recv: Option<usize>) -> EdgeType {
    EdgeType::Processing { oid: Some(oid), send, recv }
}

/// Runs the local-edge stage over `events`, checking each event first.
fn local_run(events: Vec<Event>) -> Vec<PagEdge> {
    let mut stage = LocalEdges::new();
    let mut out = Vec::new();
    for e in events {
        assert!(stage.accepts(&e));
        if let Some(x) = stage.step(e) {
            out.push(x);
        }
    }
    out
}

/// Trims `edges` and flushes each worker's pending edge at the end.
fn trim_flushed(edges: &[PagEdge]) -> Vec<PagEdge> {
    let mut stage = Trim::new();
    let mut out = Vec::new();
    let mut wids: Vec<usize> = Vec::new();
    for e in edges {
        assert!(stage.accepts(e));
        if !wids.contains(&e.src.wid) {
            wids.push(e.src.wid);
        }
        if let Some(x) = stage.step(*e) {
            out.push(x);
        }
    }
    for w in wids {
        if let Some(p) = stage.pending_edge(w) {
            out.push(p);
        }
    }
    out
}

#[test]
fn simplest_processing() {
    let events = vec![
        ev(10, 0, start(7)),
        ev(20, 0, msg(1, 0, 3, false)),
        ev(30, 0, stop(7)),
        ev(40, 0, start(7)),
    ];
    let local = local_run(events);
    assert_eq!(local.len(), 2);
    assert!(same(&local[0], &edge(10, 20, 0, proc(7, None, None))));
    assert!(same(&local[1], &edge(20, 30, 0, proc(7, None, Some(3)))));
    let trimmed = trim_flushed(&local);
    assert_eq!(trimmed.len(), 1);
    assert!(same(&trimmed[0], &edge(10, 30, 0, proc(7, None, Some(3)))));
}

#[test]
fn three_events_give_one_edge() {
    let local = local_run(vec![ev(10, 0, start(7)), ev(20, 0, msg(1, 0, 3, false)), ev(30, 0, stop(7))]);
    assert_eq!(local.len(), 1);
    assert!(same(&local[0], &edge(10, 20, 0, proc(7, None, None))));
}

#[test]
fn spinning() {
    let local = local_run(vec![ev(5, 0, start(2)), ev(6, 0, stop(2)), ev(7, 0, EventKind::Other)]);
    assert_eq!(local.len(), 1);
    assert!(same(&local[0], &edge(5, 6, 0, EdgeType::Spinning(2))));
}

#[test]
fn busy_between_schedules() {
    let mut oid = None;
    let a = ev(100, 0, stop(1));
    let b = ev(100_020_000, 0, start(1));
    let c = ev(100_030_000, 0, stop(1));
    let e = build_local_edge(&a, &b, &c, &mut oid);
    assert!(same(&e, &edge(100, 100_020_000, 0, EdgeType::Busy)));
}

#[test]
fn waiting_before_remote_message() {
    let mut oid = None;
    let a = ev(100, 0, stop(1));
    let b = ev(100_020_000, 0, start(1));
    let c = ev(100_030_000, 0, msg(1, 0, 5, false));
    let e = build_local_edge(&a, &b, &c, &mut oid);
    assert!(same(&e, &edge(100, 100_020_000, 0, EdgeType::Waiting)));
    // a message a worker sends itself is no reason to wait
    let d = ev(100_030_000, 0, msg(0, 0, 5, false));
    let e2 = build_local_edge(&a, &b, &d, &mut oid);
    assert!(same(&e2, &edge(100, 100_020_000, 0, EdgeType::Busy)));
}

#[test]
fn classifier_table() {
    let w = |t: u64, k: EventKind| ev(t, 3, k);
    let mut oid = Some(9);
    // a progress receipt means waiting
    let e = build_local_edge(
        &w(1, start(4)),
        &w(2, EventKind::Progress { source: 1, seq_no: 0, channel: 0, is_send: false }),
        &w(3, EventKind::Other),
        &mut oid,
    );
    assert!(same(&e, &PagEdge { src: PagNode { t: 1, wid: 3 }, dst: PagNode { t: 2, wid: 3 }, edge_type: EdgeType::Waiting }));
    assert_eq!(oid, Some(9));
    // a send followed by a start sets the operator id
    let e = build_local_edge(&w(1, msg(3, 1, 8, true)), &w(2, start(5)), &w(3, EventKind::Other), &mut oid);
    assert!(matches!(e.edge_type, EdgeType::Processing { oid: Some(5), send: Some(8), recv: None }));
    assert_eq!(oid, Some(5));
    // a send keeps the operator id in force
    let e = build_local_edge(&w(1, msg(3, 1, 8, true)), &w(2, EventKind::Other), &w(3, EventKind::Other), &mut oid);
    assert!(matches!(e.edge_type, EdgeType::Processing { oid: Some(5), send: Some(8), recv: None }));
    // a stop clears it
    let e = build_local_edge(&w(1, msg(1, 3, 6, false)), &w(2, stop(5)), &w(3, EventKind::Other), &mut oid);
    assert!(matches!(e.edge_type, EdgeType::Processing { oid: Some(5), send: None, recv: Some(6) }));
    assert_eq!(oid, None);
    // anything else is busy
    let e = build_local_edge(&w(1, stop(5)), &w(2, EventKind::Other), &w(3, EventKind::Other), &mut oid);
    assert!(matches!(e.edge_type, EdgeType::Busy));
}

#[test]
fn local_edges_per_worker() {
    let events = vec![
        ev(1, 0, start(1)),
        ev(2, 1, start(2)),
        ev(3, 0, stop(1)),
        ev(4, 1, stop(2)),
        ev(5, 0, start(1)),
        ev(6, 1, start(2)),
    ];
    let local = local_run(events);
    assert_eq!(local.len(), 2);
    assert!(same(&local[0], &edge(1, 3, 0, EdgeType::Spinning(1))));
    assert!(same(&local[1], &edge(2, 4, 1, EdgeType::Spinning(2))));
    for e in &local {
        assert_eq!(e.src.wid, e.dst.wid);
        assert!(e.src.t <= e.dst.t);
    }
}

#[test]
fn local_rejects_out_of_order() {
    let mut stage = LocalEdges::new();
    let a = ev(10, 0, start(1));
    assert!(stage.accepts(&a));
    stage.step(a);
    assert!(!stage.accepts(&ev(9, 0, stop(1))));
    assert!(stage.accepts(&ev(9, 1, stop(1))));
    assert!(stage.accepts(&ev(10, 0, stop(1))));
}

#[test]
fn local_rejects_own_progress_receipt() {
    let mut stage = LocalEdges::new();
    stage.step(ev(1, 0, start(1)));
    stage.step(ev(2, 0, EventKind::Progress { source: 0, seq_no: 0, channel: 0, is_send: false }));
    assert!(!stage.accepts(&ev(3, 0, stop(1))));
}

#[test]
fn remote_data_edge() {
    let send = ev(50, 0, EventKind::Messages { source: 0, target: 1, seq_no: 9, channel: 4, length: 128, is_send: true });
    let recv = ev(60, 1, EventKind::Messages { source: 0, target: 1, seq_no: 9, channel: 4, length: 128, is_send: false });
    let (s_side, s_key, s_end) = remote_entry(&send).unwrap();
    let (r_side, r_key, r_end) = remote_entry(&recv).unwrap();
    assert_eq!(s_side, Side::Send);
    assert_eq!(r_side, Side::Recv);
    assert_eq!(s_key, JoinKey { source: 0, target: Some(1), seq_no: 9, channel: 4 });
    assert_eq!(s_key, r_key);
    let mut join = Join::new();
    assert!(join.push(s_side, s_key, s_end).is_empty());
    let pairs = join.push(r_side, r_key, r_end);
    assert_eq!(pairs.len(), 1);
    let e = remote_edge(&pairs[0].0, &pairs[0].1);
    assert!(same(&e, &PagEdge { src: PagNode { t: 50, wid: 0 }, dst: PagNode { t: 60, wid: 1 }, edge_type: EdgeType::Data(128) }));
}

#[test]
fn remote_progress_edge() {
    let send = ev(70, 0, EventKind::Progress { source: 0, seq_no: 1, channel: 0, is_send: true });
    let recv = ev(71, 2, EventKind::Progress { source: 0, seq_no: 1, channel: 0, is_send: false });
    let (s_side, s_key, s_end) = remote_entry(&send).unwrap();
    let (r_side, r_key, r_end) = remote_entry(&recv).unwrap();
    assert_eq!(s_key, JoinKey { source: 0, target: None, seq_no: 1, channel: 0 });
    let mut join = Join::new();
    // the receipt arrives first: the pair comes with the send
    assert!(join.push(r_side, r_key, r_end).is_empty());
    let pairs = join.push(s_side, s_key, s_end);
    assert_eq!(pairs.len(), 1);
    let e = remote_edge(&pairs[0].0, &pairs[0].1);
    assert!(same(&e, &PagEdge { src: PagNode { t: 70, wid: 0 }, dst: PagNode { t: 71, wid: 2 }, edge_type: EdgeType::Progress }));
    assert_ne!(e.src.wid, e.dst.wid);
    assert!(e.src.t <= e.dst.t);
}

#[test]
fn remote_entry_drops_local_messages() {
    assert!(remote_entry(&ev(1, 0, msg(2, 2, 4, true))).is_none());
    assert!(remote_entry(&ev(1, 0, start(1))).is_none());
    assert!(remote_entry(&ev(1, 0, EventKind::Other)).is_none());
}

#[test]
fn route_by_source() {
    assert_eq!(route(&JoinKey { source: 5, target: Some(1), seq_no: 0, channel: 0 }), 5);
    assert_eq!(route(&JoinKey { source: 2, target: None, seq_no: 7, channel: 3 }), 2);
}

#[test]
fn join_keeps_duplicates_and_keys_apart() {
    let k1 = JoinKey { source: 0, target: None, seq_no: 1, channel: 0 };
    let k2 = JoinKey { source: 0, target: None, seq_no: 2, channel: 0 };
    let end = |t: u64, wid: usize| Endpoint { node: PagNode { t, wid }, edge_type: EdgeType::Progress };
    let mut join = Join::new();
    assert!(join.push(Side::Send, k1, end(1, 0)).is_empty());
    assert!(join.push(Side::Send, k1, end(2, 0)).is_empty());
    assert!(join.push(Side::Send, k2, end(3, 0)).is_empty());
    let pairs = join.push(Side::Recv, k1, end(4, 1));
    assert_eq!(pairs.len(), 2);
    assert_eq!(pairs[0].0.node.t, 1);
    assert_eq!(pairs[1].0.node.t, 2);
    assert_eq!(pairs[0].1.node.t, 4);
}

#[test]
fn join_symmetric() {
    let k = JoinKey { source: 0, target: None, seq_no: 1, channel: 0 };
    let kx = JoinKey { source: 1, target: None, seq_no: 1, channel: 0 };
    let end = |t: u64| Endpoint { node: PagNode { t, wid: t as usize % 3 }, edge_type: EdgeType::Progress };
    let arrivals = vec![(Side::Send, k, end(1)), (Side::Recv, k, end(2)), (Side::Recv, kx, end(3)), (Side::Send, k, end(4)), (Side::Recv, k, end(5))];
    let flip = |s: Side| if s == Side::Send { Side::Recv } else { Side::Send };
    let mut a = Join::new();
    let mut b = Join::new();
    let mut pa = Vec::new();
    let mut pb = Vec::new();
    for (side, key, e) in &arrivals {
        for (x, y) in a.push(*side, *key, *e) {
            pa.push((x.node.t, y.node.t));
        }
        for (x, y) in b.push(flip(*side), *key, *e) {
            pb.push((y.node.t, x.node.t));
        }
    }
    assert_eq!(pa, vec![(1, 2), (4, 2), (1, 5), (4, 5)]);
    assert_eq!(pa, pb);
}

#[test]
fn peel_nested_operator() {
    let mut peel = Peel::new();
    assert!(peel.step(ev(1, 0, EventKind::Operates { id: 1, addr: vec![0, 1] })).is_none());
    assert!(peel.step(ev(2, 0, EventKind::Operates { id: 2, addr: vec![0, 1, 3] })).is_none());
    assert!(peel.knows(1) && peel.knows(2) && !peel.knows(3));
    assert!(peel.step(ev(3, 0, start(1))).is_none());
    let kept = peel.step(ev(4, 0, start(2))).unwrap();
    assert_eq!(kept.t, 4);
    assert!(matches!(kept.kind, EventKind::Schedule { id: 2, start_stop: StartStop::Start }));
}

#[test]
fn peel_filters_progress_and_others() {
    let mut peel = Peel::new();
    let own_recv = EventKind::Progress { source: 0, seq_no: 0, channel: 0, is_send: false };
    let own_send = EventKind::Progress { source: 0, seq_no: 0, channel: 0, is_send: true };
    let other_recv = EventKind::Progress { source: 1, seq_no: 0, channel: 0, is_send: false };
    assert!(peel.step(ev(1, 0, own_recv)).is_none());
    assert!(peel.step(ev(2, 0, own_send)).is_some());
    assert!(peel.step(ev(3, 0, other_recv)).is_some());
    assert!(peel.step(ev(4, 0, msg(0, 0, 1, true))).is_some());
    assert!(peel.step(ev(5, 0, EventKind::Other)).is_none());
}

#[test]
fn relaxed_equality() {
    assert_eq!(proc(1, Some(2), None), proc(1, None, Some(5)));
    assert_ne!(proc(1, None, None), proc(2, None, None));
    assert_eq!(EdgeType::Data(1), EdgeType::Data(9));
    assert_ne!(EdgeType::Spinning(1), EdgeType::Spinning(2));
    assert_eq!(EdgeType::Spinning(3), EdgeType::Spinning(3));
    assert_ne!(EdgeType::Waiting, EdgeType::Busy);
    assert_eq!(EdgeType::Progress, EdgeType::Progress);
}

#[test]
fn merge_send_and_recv() {
    let m = merge_edge_types(proc(4, Some(2), None), proc(4, None, Some(3)));
    assert!(matches!(m, EdgeType::Processing { oid: Some(4), send: Some(2), recv: Some(3) }));
    let m = merge_edge_types(proc(4, Some(2), Some(1)), proc(4, Some(5), None));
    assert!(matches!(m, EdgeType::Processing { oid: Some(4), send: Some(7), recv: Some(1) }));
    assert!(matches!(merge_edge_types(EdgeType::Data(3), EdgeType::Data(4)), EdgeType::Data(7)));
}

#[test]
fn trim_absorbs_busy() {
    let edges = vec![
        edge(0, 1, 0, proc(1, None, None)),
        edge(1, 2, 0, EdgeType::Busy),
        edge(2, 3, 0, proc(1, Some(1), None)),
        edge(3, 4, 0, EdgeType::Spinning(2)),
    ];
    let t = trim_flushed(&edges);
    assert_eq!(t.len(), 2);
    assert!(same(&t[0], &edge(0, 3, 0, proc(1, Some(1), None))));
    assert!(same(&t[1], &edge(3, 4, 0, EdgeType::Spinning(2))));
}

#[test]
fn trim_busy_after_waiting() {
    let edges = vec![
        edge(0, 1, 0, EdgeType::Waiting),
        edge(1, 2, 0, EdgeType::Busy),
        edge(2, 3, 0, EdgeType::Busy),
        edge(3, 4, 0, EdgeType::Spinning(1)),
    ];
    let t = trim_flushed(&edges);
    assert_eq!(t.len(), 2);
    assert!(same(&t[0], &edge(0, 1, 0, EdgeType::Waiting)));
    assert!(same(&t[1], &edge(1, 4, 0, EdgeType::Spinning(1))));
}

#[test]
fn trim_emits_nothing_until_class_changes() {
    let mut stage = Trim::new();
    assert!(stage.step(edge(0, 1, 0, EdgeType::Data(2))).is_none());
    assert!(stage.step(edge(1, 2, 0, EdgeType::Data(3))).is_none());
    let out = stage.step(edge(2, 3, 0, EdgeType::Waiting)).unwrap();
    assert!(same(&out, &edge(0, 2, 0, EdgeType::Data(5))));
    assert!(same(&stage.pending_edge(0).unwrap(), &edge(2, 3, 0, EdgeType::Waiting)));
    assert!(stage.pending_edge(1).is_none());
}

#[test]
fn trim_rejects_overflow() {
    let mut stage = Trim::new();
    stage.step(edge(0, 1, 0, EdgeType::Data(usize::MAX)));
    assert!(!stage.accepts(&edge(1, 2, 0, EdgeType::Data(1))));
    assert!(stage.accepts(&edge(1, 2, 0, EdgeType::Data(0))));
    assert!(stage.accepts(&edge(1, 2, 0, EdgeType::Waiting)));
    assert!(stage.accepts(&edge(1, 2, 1, EdgeType::Data(1))));
}

#[test]
fn trim_idempotent() {
    let edges = vec![
        edge(0, 1, 0, EdgeType::Busy),
        edge(1, 2, 0, proc(1, None, Some(2))),
        edge(2, 3, 0, proc(1, Some(4), None)),
        edge(3, 4, 0, EdgeType::Waiting),
        edge(4, 5, 0, EdgeType::Busy),
        edge(5, 6, 0, EdgeType::Spinning(3)),
        edge(6, 7, 0, EdgeType::Spinning(3)),
        edge(7, 8, 0, EdgeType::Waiting),
        edge(8, 9, 0, EdgeType::Busy),
    ];
    let once = trim_flushed(&edges);
    let twice = trim_flushed(&once);
    assert_eq!(once.len(), 5);
    assert_eq!(once.len(), twice.len());
    for (a, b) in once.iter().zip(twice.iter()) {
        assert!(same(a, b));
    }
}

#[test]
fn trimmed_edges_do_not_overlap() {
    let events = vec![
        ev(1, 0, start(1)),
        ev(2, 0, msg(0, 1, 3, true)),
        ev(3, 0, stop(1)),
        ev(4, 0, start(2)),
        ev(5, 0, stop(2)),
        ev(6, 0, start(1)),
        ev(7, 0, msg(1, 0, 2, false)),
        ev(8, 0, stop(1)),
        ev(9, 0, EventKind::Other),
    ];
    let local = local_run(events);
    let trimmed = trim_flushed(&local);
    for i in 0..trimmed.len() {
        assert!(trimmed[i].src.t <= trimmed[i].dst.t);
        for j in i + 1..trimmed.len() {
            assert!(trimmed[i].dst.t <= trimmed[j].src.t);
        }
    }
    assert_eq!(trimmed.first().unwrap().src.t, 1);
    assert_eq!(trimmed.last().unwrap().dst.t, 8);
}
