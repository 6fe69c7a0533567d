//! Merging runs of equivalent adjacent local edges, per worker.
use std::collections::HashMap;
use vstd::prelude::*;

use crate::{EdgeType, PagEdge};

verus! {

broadcast use vstd::std_specs::hash::group_hash_axioms;

/// Addition of two optional counts, where an absent count is the identity.
pub open spec fn add_counts(a: Option<usize>, b: Option<usize>) -> Option<usize> {
    match (a, b) {
        (None, None) => None,
        (Some(x), None) => Some(x),
        (None, Some(y)) => Some(y),
        (Some(x), Some(y)) => Some((x + y) as usize),
    }
}

/// The sum of two optional counts fits in a `usize`.
pub open spec fn counts_fit(a: Option<usize>, b: Option<usize>) -> bool {
    match (a, b) {
        (Some(x), Some(y)) => x + y <= usize::MAX,
        _ => true,
    }
}

/// The edge type of `first` once `e`, of the same class, is merged into it:
/// counts and lengths add up, the rest is kept from `first`.
pub open spec fn merged(first: EdgeType, e: EdgeType) -> EdgeType {
    match (first, e) {
        (
            EdgeType::Processing { oid, send: fs, recv: fr },
            EdgeType::Processing { send: es, recv: er, .. },
        ) => EdgeType::Processing { oid, send: add_counts(fs, es), recv: add_counts(fr, er) },
        (EdgeType::Data(a), EdgeType::Data(b)) => EdgeType::Data((a + b) as usize),
        _ => first,
    }
}

/// The sums that merging `e` into `first` makes fit in a `usize`.
pub open spec fn merge_fits(first: EdgeType, e: EdgeType) -> bool {
    match (first, e) {
        (
            EdgeType::Processing { send: fs, recv: fr, .. },
            EdgeType::Processing { send: es, recv: er, .. },
        ) => counts_fit(fs, es) && counts_fit(fr, er),
        (EdgeType::Data(a), EdgeType::Data(b)) => a + b <= usize::MAX,
        _ => true,
    }
}

pub open spec fn is_busy(t: EdgeType) -> bool {
    t == EdgeType::Busy
}

pub open spec fn is_waiting(t: EdgeType) -> bool {
    t == EdgeType::Waiting
}

/// What trimming does with the edge `e` of a worker whose pending edge is
/// `pending`: the edge it emits, if any, and the new pending edge.
pub open spec fn trim_step(pending: Option<PagEdge>, e: PagEdge) -> (Option<PagEdge>, PagEdge) {
    match pending {
        None => (None, e),
        Some(first) => {
            if is_busy(e.edge_type) && !is_waiting(first.edge_type) {
                (None, PagEdge { src: first.src, dst: e.dst, edge_type: first.edge_type })
            } else if is_busy(first.edge_type) {
                (None, PagEdge { src: first.src, dst: e.dst, edge_type: e.edge_type })
            } else if e.edge_type.same_class(first.edge_type) {
                (
                    None,
                    PagEdge {
                        src: first.src,
                        dst: e.dst,
                        edge_type: merged(first.edge_type, e.edge_type),
                    },
                )
            } else {
                (Some(first), e)
            }
        },
    }
}

/// The step of `trim_step` on these arguments merges payloads only where
/// their sums fit in a `usize`.
pub open spec fn step_fits(pending: Option<PagEdge>, e: PagEdge) -> bool {
    match pending {
        None => true,
        Some(first) => {
            (!(is_busy(e.edge_type) && !is_waiting(first.edge_type)) && !is_busy(first.edge_type)
                && e.edge_type.same_class(first.edge_type)) ==> merge_fits(
                first.edge_type,
                e.edge_type,
            )
        },
    }
}

fn add_counts_exec(a: Option<usize>, b: Option<usize>) -> (r: Option<usize>)
    requires
        counts_fit(a, b),
    ensures
        r == add_counts(a, b),
{
    match (a, b) {
        (None, None) => None,
        (Some(x), None) => Some(x),
        (None, Some(y)) => Some(y),
        (Some(x), Some(y)) => Some(x + y),
    }
}

/// Merges the edge type `e` into `first`, summing send and receive counts
/// and data lengths.
pub fn merge_edge_types(first: EdgeType, e: EdgeType) -> (r: EdgeType)
    requires
        merge_fits(first, e),
    ensures
        r == merged(first, e),
{
    match (first, e) {
        (
            EdgeType::Processing { oid, send: fs, recv: fr },
            EdgeType::Processing { send: es, recv: er, .. },
        ) => EdgeType::Processing {
            oid,
            send: add_counts_exec(fs, es),
            recv: add_counts_exec(fr, er),
        },
        (EdgeType::Data(a), EdgeType::Data(b)) => EdgeType::Data(a + b),
        _ => first,
    }
}

/// Whether merging `e` into `first` keeps every sum within a `usize`.
pub fn merge_fits_exec(first: &EdgeType, e: &EdgeType) -> (r: bool)
    ensures
        r == merge_fits(*first, *e),
{
    match (first, e) {
        (
            EdgeType::Processing { send: fs, recv: fr, .. },
            EdgeType::Processing { send: es, recv: er, .. },
        ) => {
            let s_ok = match (fs, es) {
                (Some(x), Some(y)) => *x <= usize::MAX - *y,
                _ => true,
            };
            let r_ok = match (fr, er) {
                (Some(x), Some(y)) => *x <= usize::MAX - *y,
                _ => true,
            };
            s_ok && r_ok
        },
        (EdgeType::Data(a), EdgeType::Data(b)) => *a <= usize::MAX - *b,
        _ => true,
    }
}

/// The trimming stage: for each worker, at most one pending edge that later
/// edges of the same worker extend or replace.
pub struct Trim {
    first_edge: HashMap<usize, PagEdge>,
}

impl Trim {
    /// The pending edge of each worker.
    pub closed spec fn pending(&self) -> Map<usize, PagEdge> {
        self.first_edge@
    }

    pub open spec fn pending_of(&self, wid: usize) -> Option<PagEdge> {
        if self.pending().contains_key(wid) {
            Some(self.pending()[wid])
        } else {
            None
        }
    }

    /// A stage with no pending edge.
    pub fn new() -> (r: Trim)
        ensures
            r.pending() == Map::<usize, PagEdge>::empty(),
    {
        Trim { first_edge: HashMap::new() }
    }

    /// The pending edge of worker `wid`: the edge that its next edges extend
    /// or complete, and that a stream's end leaves unemitted.
    pub fn pending_edge(&self, wid: usize) -> (r: Option<PagEdge>)
        ensures
            r == self.pending_of(wid),
    {
        match self.first_edge.get(&wid) {
            Some(e) => Some(*e),
            None => None,
        }
    }

    /// Whether `step` accepts `e`: merging it keeps every sum within a `usize`.
    pub fn accepts(&self, e: &PagEdge) -> (r: bool)
        ensures
            r == step_fits(self.pending_of(e.src.wid), *e),
    {
        match self.first_edge.get(&e.src.wid) {
            None => true,
            Some(first) => {
                if e.edge_type == EdgeType::Busy && first.edge_type != EdgeType::Waiting {
                    true
                } else if first.edge_type == EdgeType::Busy {
                    true
                } else if e.edge_type == first.edge_type {
                    merge_fits_exec(&first.edge_type, &e.edge_type)
                } else {
                    true
                }
            },
        }
    }

    /// Takes the next edge of worker `e.src.wid`, and returns the edge that
    /// it completes, if any.
    pub fn step(&mut self, e: PagEdge) -> (r: Option<PagEdge>)
        requires
            step_fits(old(self).pending_of(e.src.wid), e),
        ensures
            r == trim_step(old(self).pending_of(e.src.wid), e).0,
            final(self).pending() == old(self).pending().insert(
                e.src.wid,
                trim_step(old(self).pending_of(e.src.wid), e).1,
            ),
    {
        let wid = e.src.wid;
        match self.first_edge.remove(&wid) {
            None => {
                self.first_edge.insert(wid, e);
                None
            },
            Some(first) => {
                if e.edge_type == EdgeType::Busy && first.edge_type != EdgeType::Waiting {
                    let next = PagEdge { src: first.src, dst: e.dst, edge_type: first.edge_type };
                    self.first_edge.insert(wid, next);
                    None
                } else if first.edge_type == EdgeType::Busy {
                    let next = PagEdge { src: first.src, dst: e.dst, edge_type: e.edge_type };
                    self.first_edge.insert(wid, next);
                    None
                } else if e.edge_type == first.edge_type {
                    let t = merge_edge_types(first.edge_type, e.edge_type);
                    let next = PagEdge { src: first.src, dst: e.dst, edge_type: t };
                    self.first_edge.insert(wid, next);
                    None
                } else {
                    self.first_edge.insert(wid, e);
                    Some(first)
                }
            },
        }
    }
}

/// Trimming the edges `s` of one worker, one after another from a stage with
/// nothing pending: the edges emitted, and the edge left pending.
pub open spec fn trim_run(s: Seq<PagEdge>) -> (Seq<PagEdge>, Option<PagEdge>)
    decreases s.len(),
{
    if s.len() == 0 {
        (Seq::empty(), None)
    } else {
        let prev = trim_run(s.drop_last());
        let step = trim_step(prev.1, s.last());
        match step.0 {
            Some(x) => (prev.0.push(x), Some(step.1)),
            None => (prev.0, Some(step.1)),
        }
    }
}

/// The trimmed stream of one worker's edges `s`, its pending edge flushed
/// at the end.
pub open spec fn trimmed(s: Seq<PagEdge>) -> Seq<PagEdge> {
    let run = trim_run(s);
    match run.1 {
        Some(p) => run.0.push(p),
        None => run.0,
    }
}

/// `s` has a `Waiting` edge, then one or more `Busy` edges, then another
/// `Waiting` edge. Trimming merges the two `Waiting` edges only in a second
/// pass, so trimming is idempotent on the other streams alone.
pub open spec fn has_waiting_gap(s: Seq<PagEdge>) -> bool {
    exists|i: int, k: int|
        0 <= i && i + 1 < k && k < s.len() && is_waiting(#[trigger] s[i].edge_type) && is_waiting(
            #[trigger] s[k].edge_type,
        ) && (forall|j: int| i < j < k ==> is_busy(s[j].edge_type))
}

/// `s` ends in a `Waiting` edge followed by one or more `Busy` edges.
pub open spec fn busy_after_waiting(s: Seq<PagEdge>) -> bool {
    exists|i: int|
        0 <= i && i + 1 < s.len() && is_waiting(#[trigger] s[i].edge_type) && (forall|j: int|
            i < j < s.len() ==> is_busy(s[j].edge_type))
}

/// No edge of `t` merges with its successor when trimmed: no edge but the
/// last is `Busy`, neighbours differ in class, and a final `Busy` edge
/// follows a `Waiting` one.
pub open spec fn is_trim_normal(t: Seq<PagEdge>) -> bool {
    &&& forall|i: int| 0 <= i < t.len() - 1 ==> !is_busy(#[trigger] t[i].edge_type)
    &&& forall|i: int, j: int|
        0 <= i && j == i + 1 && j < t.len() ==> !(#[trigger] t[i].edge_type).same_class(
            #[trigger] t[j].edge_type,
        )
    &&& (t.len() >= 2 && is_busy(t.last().edge_type)) ==> is_waiting(t[t.len() - 2].edge_type)
}

/// The edges of `s` follow one another in time: none ends before it
/// starts, and none starts before an earlier one ends.
pub open spec fn is_chained(s: Seq<PagEdge>) -> bool {
    &&& forall|i: int| 0 <= i < s.len() ==> (#[trigger] s[i]).src.t <= s[i].dst.t
    &&& forall|i: int, j: int| 0 <= i < j < s.len() ==> (#[trigger] s[i]).dst.t <= (#[trigger] s[j]).src.t
}

proof fn lemma_normal_run(t: Seq<PagEdge>)
    requires
        is_trim_normal(t),
        t.len() > 0,
    ensures
        trim_run(t) == (t.drop_last(), Some(t.last())),
    decreases t.len(),
{
    if t.len() > 1 {
        let u = t.drop_last();
        assert forall|i: int, j: int|
            0 <= i && j == i + 1 && j < u.len() implies !(#[trigger] u[i].edge_type).same_class(
            #[trigger] u[j].edge_type,
        ) by {
            assert(u[i] == t[i] && u[j] == t[j]);
        }
        assert(is_trim_normal(u));
        lemma_normal_run(u);
        let k = t.len() - 2;
        assert(!is_busy(t[k].edge_type));
        assert(!t[k].edge_type.same_class(t[k + 1].edge_type));
        assert(u.last() == t[k]);
        assert(u.drop_last().push(u.last()) =~= u);
    } else {
        assert(t.drop_last() =~= Seq::<PagEdge>::empty());
        assert(trim_run(t.drop_last()) == (Seq::<PagEdge>::empty(), None::<PagEdge>));
    }
}

/// A stream in which no edge merges with its successor is left as it is by
/// trimming.
pub proof fn lemma_trim_normal_fixed(t: Seq<PagEdge>)
    requires
        is_trim_normal(t),
    ensures
        trimmed(t) == t,
{
    if t.len() > 0 {
        lemma_normal_run(t);
        assert(t.drop_last().push(t.last()) =~= t);
    }
}

proof fn lemma_same_class_facts(a: EdgeType, b: EdgeType, c: EdgeType)
    ensures
        a.same_class(b) && b.same_class(c) ==> a.same_class(c),
        a.same_class(b) ==> b.same_class(a),
        merged(a, b).same_class(a),
        is_busy(a) && a.same_class(b) ==> is_busy(b),
        is_waiting(a) && a.same_class(b) ==> is_waiting(b),
{
}

proof fn lemma_gap_prefix(s: Seq<PagEdge>)
    requires
        s.len() > 0,
        !has_waiting_gap(s),
    ensures
        !has_waiting_gap(s.drop_last()),
{
    let u = s.drop_last();
    if has_waiting_gap(u) {
        let (i, k) = choose|i: int, k: int|
            0 <= i && i + 1 < k && k < u.len() && is_waiting(#[trigger] u[i].edge_type)
                && is_waiting(#[trigger] u[k].edge_type) && (forall|j: int|
                i < j < k ==> is_busy(u[j].edge_type));
        assert(s[i] == u[i] && s[k] == u[k]);
        assert(forall|j: int| i < j < k ==> s[j] == u[j]);
    }
}

/// What `trim_run` keeps true of the emitted edges `out` and the pending
/// edge `p` after the stream `s`.
spec fn run_shape(s: Seq<PagEdge>, out: Seq<PagEdge>, p: Option<PagEdge>) -> bool {
    &&& s.len() > 0 <==> p is Some
    &&& forall|i: int| 0 <= i < out.len() ==> !is_busy(#[trigger] out[i].edge_type)
    &&& forall|i: int, j: int|
        0 <= i && j == i + 1 && j < out.len() ==> !(#[trigger] out[i].edge_type).same_class(
            #[trigger] out[j].edge_type,
        )
    &&& p is Some ==> {
        let q = p.unwrap();
        &&& is_waiting(q.edge_type) ==> is_waiting(s.last().edge_type)
        &&& out.len() > 0 && is_busy(q.edge_type) ==> is_waiting(out.last().edge_type)
            && busy_after_waiting(s)
        &&& out.len() > 0 && !is_busy(q.edge_type) ==> !out.last().edge_type.same_class(
            q.edge_type,
        )
    }
}

proof fn lemma_push_keeps(out: Seq<PagEdge>, q: PagEdge)
    requires
        forall|i: int| 0 <= i < out.len() ==> !is_busy(#[trigger] out[i].edge_type),
        forall|i: int, j: int|
            0 <= i && j == i + 1 && j < out.len() ==> !(#[trigger] out[i].edge_type).same_class(
                #[trigger] out[j].edge_type,
            ),
        !is_busy(q.edge_type),
        out.len() > 0 ==> !out.last().edge_type.same_class(q.edge_type),
    ensures
        ({
            let o2 = out.push(q);
            &&& forall|i: int| 0 <= i < o2.len() ==> !is_busy(#[trigger] o2[i].edge_type)
            &&& forall|i: int, j: int|
                0 <= i && j == i + 1 && j < o2.len() ==> !(#[trigger] o2[i].edge_type).same_class(
                    #[trigger] o2[j].edge_type,
                )
        }),
{
    let o2 = out.push(q);
    assert forall|i: int, j: int|
        0 <= i && j == i + 1 && j < o2.len() implies !(#[trigger] o2[i].edge_type).same_class(
        #[trigger] o2[j].edge_type,
    ) by {
        assert(o2[i] == out[i]);
        if j < out.len() {
            assert(o2[j] == out[j]);
        }
    }
    assert forall|i: int| 0 <= i < o2.len() implies !is_busy(#[trigger] o2[i].edge_type) by {
        if i < out.len() {
            assert(o2[i] == out[i]);
        }
    }
}

proof fn lemma_busy_tail_extends(u: Seq<PagEdge>, e: PagEdge)
    requires
        busy_after_waiting(u),
        is_busy(e.edge_type),
    ensures
        busy_after_waiting(u.push(e)),
{
    let s = u.push(e);
    let i = choose|i: int|
        0 <= i && i + 1 < u.len() && is_waiting(#[trigger] u[i].edge_type) && (forall|j: int|
            i < j < u.len() ==> is_busy(u[j].edge_type));
    assert(is_waiting(s[i].edge_type));
    assert(forall|j: int| i < j < u.len() ==> s[j] == u[j]);
}

proof fn lemma_busy_tail_starts(u: Seq<PagEdge>, e: PagEdge)
    requires
        u.len() > 0,
        is_waiting(u.last().edge_type),
        is_busy(e.edge_type),
    ensures
        busy_after_waiting(u.push(e)),
{
    let s = u.push(e);
    let i = u.len() - 1;
    assert(is_waiting(s[i].edge_type));
}

proof fn lemma_busy_tail_gap(u: Seq<PagEdge>, e: PagEdge)
    requires
        busy_after_waiting(u),
        is_waiting(e.edge_type),
    ensures
        has_waiting_gap(u.push(e)),
{
    let s = u.push(e);
    let i = choose|i: int|
        0 <= i && i + 1 < u.len() && is_waiting(#[trigger] u[i].edge_type) && (forall|j: int|
            i < j < u.len() ==> is_busy(u[j].edge_type));
    let k = s.len() - 1;
    assert(is_waiting(s[i].edge_type));
    assert(is_waiting(s[k].edge_type));
    assert(forall|j: int| i < j < k ==> s[j] == u[j]);
}

proof fn lemma_shape_step(s: Seq<PagEdge>)
    requires
        s.len() > 0,
        !has_waiting_gap(s),
        run_shape(s.drop_last(), trim_run(s.drop_last()).0, trim_run(s.drop_last()).1),
    ensures
        run_shape(s, trim_run(s).0, trim_run(s).1),
{
    let u = s.drop_last();
    let e = s.last();
    assert(s == u.push(e));
    let (out, p) = trim_run(u);
    if u.len() > 0 {
        let q = p.unwrap();
        let (em, q2) = trim_step(p, e);
        let m = merged(q.edge_type, e.edge_type);
        lemma_same_class_facts(q.edge_type, e.edge_type, q.edge_type);
        lemma_same_class_facts(e.edge_type, q.edge_type, q.edge_type);
        lemma_same_class_facts(m, q.edge_type, e.edge_type);
        if out.len() > 0 {
            let o = out.last().edge_type;
            lemma_same_class_facts(o, q.edge_type, e.edge_type);
            lemma_same_class_facts(o, e.edge_type, q.edge_type);
            lemma_same_class_facts(o, m, q.edge_type);
            lemma_same_class_facts(m, q.edge_type, o);
            lemma_same_class_facts(q.edge_type, m, o);
        }
        if is_busy(e.edge_type) && !is_waiting(q.edge_type) {
            if out.len() > 0 && is_busy(q.edge_type) {
                lemma_busy_tail_extends(u, e);
            }
        } else if is_busy(q.edge_type) {
            if out.len() > 0 && is_waiting(e.edge_type) {
                lemma_busy_tail_gap(u, e);
            }
        } else if !e.edge_type.same_class(q.edge_type) {
            lemma_push_keeps(out, q);
            if is_busy(e.edge_type) {
                lemma_busy_tail_starts(u, e);
            }
        }
    }
}

proof fn lemma_run_shape(s: Seq<PagEdge>)
    requires
        !has_waiting_gap(s),
    ensures
        run_shape(s, trim_run(s).0, trim_run(s).1),
    decreases s.len(),
{
    if s.len() > 0 {
        lemma_gap_prefix(s);
        lemma_run_shape(s.drop_last());
        lemma_shape_step(s);
    }
}

/// Trimming twice gives what trimming once gives, on every stream of one
/// worker's edges without a `Waiting`, `Busy`.., `Waiting` run.
pub proof fn lemma_trim_idempotent(s: Seq<PagEdge>)
    requires
        !has_waiting_gap(s),
    ensures
        trimmed(trimmed(s)) == trimmed(s),
{
    lemma_run_shape(s);
    let t = trimmed(s);
    let (out, p) = trim_run(s);
    if p is Some {
        assert(t == out.push(p.unwrap()));
        assert forall|i: int| 0 <= i < t.len() - 1 implies !is_busy(#[trigger] t[i].edge_type) by {
            assert(t[i] == out[i]);
        }
        assert forall|i: int, j: int|
            0 <= i && j == i + 1 && j < t.len() implies !(#[trigger] t[i].edge_type).same_class(
            #[trigger] t[j].edge_type,
        ) by {
            assert(t[i] == out[i]);
            if j < out.len() {
                assert(t[j] == out[j]);
            }
        }
    }
    lemma_trim_normal_fixed(t);
}

/// Trimming a chained stream of one worker's edges gives a chained stream:
/// no two trimmed edges overlap in time.
pub proof fn lemma_trim_chained(s: Seq<PagEdge>)
    requires
        is_chained(s),
    ensures
        is_chained(trimmed(s)),
{
    lemma_run_chained(s);
    let (out, p) = trim_run(s);
    if p is Some {
        let q = p.unwrap();
        let t = trimmed(s);
        assert forall|i: int| 0 <= i < t.len() implies (#[trigger] t[i]).src.t <= t[i].dst.t by {
            if i < out.len() {
                assert(t[i] == out[i]);
            }
        }
        assert forall|i: int, j: int| 0 <= i < j < t.len() implies (#[trigger] t[i]).dst.t <= (
        #[trigger] t[j]).src.t by {
            assert(t[i] == out[i]);
            if j < out.len() {
                assert(t[j] == out[j]);
            }
        }
    }
}

proof fn lemma_run_chained(s: Seq<PagEdge>)
    requires
        is_chained(s),
    ensures
        ({
            let (out, p) = trim_run(s);
            &&& is_chained(out)
            &&& s.len() > 0 <==> p is Some
            &&& p is Some ==> {
                let q = p.unwrap();
                &&& q.src.t <= q.dst.t
                &&& q.dst == s.last().dst
                &&& forall|i: int| 0 <= i < out.len() ==> (#[trigger] out[i]).dst.t <= q.src.t
            }
        }),
    decreases s.len(),
{
    if s.len() > 0 {
        let u = s.drop_last();
        assert(is_chained(u)) by {
            assert forall|i: int| 0 <= i < u.len() implies (#[trigger] u[i]).src.t <= u[i].dst.t by {
                assert(u[i] == s[i]);
            }
            assert forall|i: int, j: int| 0 <= i < j < u.len() implies (#[trigger] u[i]).dst.t <= (
            #[trigger] u[j]).src.t by {
                assert(u[i] == s[i] && u[j] == s[j]);
            }
        }
        lemma_run_chained(u);
        let e = s.last();
        assert(e.src.t <= e.dst.t);
        if u.len() > 0 {
            assert(u.last() == s[s.len() - 2]);
            assert(u.last().dst.t <= e.src.t);
        }
        let (out, p) = trim_run(u);
        let (em, q2) = trim_step(p, e);
        if em is Some {
            let q = p.unwrap();
            let o2 = out.push(q);
            assert forall|i: int| 0 <= i < o2.len() implies (#[trigger] o2[i]).src.t
                <= o2[i].dst.t by {
                if i < out.len() {
                    assert(o2[i] == out[i]);
                }
            }
            assert forall|i: int, j: int| 0 <= i < j < o2.len() implies (#[trigger] o2[i]).dst.t
                <= (#[trigger] o2[j]).src.t by {
                assert(o2[i] == out[i]);
                if j < out.len() {
                    assert(o2[j] == out[j]);
                }
            }
            assert forall|i: int| 0 <= i < o2.len() implies (#[trigger] o2[i]).dst.t <= q2.src.t by {
                if i < out.len() {
                    assert(o2[i] == out[i]);
                }
            }
        }
    }
}

/// Merging a `Processing` edge that only sent into one of the same operator
/// that only received gives one that did both.
pub proof fn lemma_merge_send_recv(oid: Option<usize>, a: usize, b: usize)
    ensures
        (merged(
            EdgeType::Processing { oid, send: Some(a), recv: None },
            EdgeType::Processing { oid, send: None, recv: Some(b) },
        ) == EdgeType::Processing { oid, send: Some(a), recv: Some(b) }),
        (merge_fits(
            EdgeType::Processing { oid, send: Some(a), recv: None },
            EdgeType::Processing { oid, send: None, recv: Some(b) },
        )),
{
}

} // verus!
