//! Peeling: the filter from raw runtime events down to those that the PAG
//! reads, without the scheduling of operators that hold nested scopes.
use std::collections::HashMap;
use vstd::prelude::*;

use crate::{Event, EventKind};

verus! {

broadcast use vstd::std_specs::hash::group_hash_axioms;

/// The address of the scope that holds the operator at `addr`.
pub open spec fn parent(addr: Seq<usize>) -> Seq<usize> {
    if addr.len() == 0 {
        addr
    } else {
        addr.drop_last()
    }
}

/// Whether peeling keeps the event `e`, where `outer` holds the addresses
/// of the scopes that hold operators and `addrs` the address of each
/// operator id.
pub open spec fn peel_keeps(outer: Set<Seq<usize>>, addrs: Map<usize, Seq<usize>>, e: Event) -> bool {
    match e.kind {
        EventKind::Operates { .. } => false,
        EventKind::Schedule { id, .. } => !outer.contains(addrs[id]),
        EventKind::Progress { source, is_send, .. } => source != e.wid || is_send,
        EventKind::Messages { .. } => true,
        EventKind::Other => false,
    }
}

/// The state of the peeling stage.
pub struct Peel {
    outer_operates: Vec<Vec<usize>>,
    ids_to_addrs: HashMap<usize, Vec<usize>>,
}

fn same_addr(a: &Vec<usize>, b: &Vec<usize>) -> (r: bool)
    ensures
        r == (a@ == b@),
{
    if a.len() != b.len() {
        return false;
    }
    let mut i: usize = 0;
    while i < a.len()
        invariant
            a.len() == b.len(),
            i <= a.len(),
            forall|j: int| 0 <= j < i ==> a@[j] == b@[j],
        decreases a.len() - i,
    {
        if a[i] != b[i] {
            return false;
        }
        i = i + 1;
    }
    assert(a@ =~= b@);
    true
}

fn parent_of(a: &Vec<usize>) -> (r: Vec<usize>)
    ensures
        r@ == parent(a@),
{
    let n: usize = if a.len() == 0 {
        0
    } else {
        a.len() - 1
    };
    let mut r: Vec<usize> = Vec::new();
    let mut i: usize = 0;
    while i < n
        invariant
            n <= a.len(),
            i <= n,
            r@ == a@.take(i as int),
        decreases n - i,
    {
        r.push(a[i]);
        i = i + 1;
        assert(r@ =~= a@.take(i as int));
    }
    assert(r@ =~= parent(a@));
    r
}

impl Peel {
    /// The addresses of the scopes that hold some operator.
    pub closed spec fn outer(&self) -> Set<Seq<usize>> {
        Set::new(|a: Seq<usize>| exists|i: int| 0 <= i < self.outer_operates@.len() && #[trigger] self.outer_operates@[i]@ == a)
    }

    /// The address of each operator id announced so far.
    pub closed spec fn addrs(&self) -> Map<usize, Seq<usize>> {
        self.ids_to_addrs@.map_values(|v: Vec<usize>| v@)
    }

    /// A stage that knows no operator.
    pub fn new() -> (r: Peel)
        ensures
            r.outer() == Set::<Seq<usize>>::empty(),
            r.addrs() == Map::<usize, Seq<usize>>::empty(),
    {
        let r = Peel { outer_operates: Vec::new(), ids_to_addrs: HashMap::new() };
        assert(r.outer() =~= Set::<Seq<usize>>::empty());
        assert(r.addrs() =~= Map::<usize, Seq<usize>>::empty());
        r
    }

    /// Whether the operator `id` was announced.
    pub fn knows(&self, id: usize) -> (r: bool)
        ensures
            r == self.addrs().contains_key(id),
    {
        self.ids_to_addrs.contains_key(&id)
    }

    fn is_outer(&self, a: &Vec<usize>) -> (r: bool)
        ensures
            r == self.outer().contains(a@),
    {
        let mut i: usize = 0;
        while i < self.outer_operates.len()
            invariant
                i <= self.outer_operates@.len(),
                forall|j: int| 0 <= j < i ==> self.outer_operates@[j]@ != a@,
            decreases self.outer_operates@.len() - i,
        {
            if same_addr(&self.outer_operates[i], a) {
                assert(self.outer_operates@[i as int]@ == a@);
                return true;
            }
            i = i + 1;
        }
        false
    }

    /// Takes the next event, and returns it where peeling keeps it. An
    /// `Operates` event records the operator's address and its scope's.
    pub fn step(&mut self, e: Event) -> (r: Option<Event>)
        requires
            e.kind matches EventKind::Schedule { id, .. } ==> old(self).addrs().contains_key(id),
        ensures
            r == (if peel_keeps(old(self).outer(), old(self).addrs(), e) {
                Some(e)
            } else {
                None
            }),
            e.kind matches EventKind::Operates { id, addr } ==> {
                &&& final(self).outer() == old(self).outer().insert(parent(addr@))
                &&& final(self).addrs() == old(self).addrs().insert(id, addr@)
            },
            !(e.kind is Operates) ==> {
                &&& final(self).outer() == old(self).outer()
                &&& final(self).addrs() == old(self).addrs()
            },
    {
        let keep = match &e.kind {
            EventKind::Operates { .. } => false,
            EventKind::Schedule { id, .. } => match self.ids_to_addrs.get(id) {
                Some(a) => !self.is_outer(a),
                None => false,
            },
            EventKind::Progress { source, is_send, .. } => *source != e.wid || *is_send,
            EventKind::Messages { .. } => true,
            EventKind::Other => false,
        };
        match e.kind {
            EventKind::Operates { id, addr } => {
                let ghost old_outer = self.outer();
                let ghost old_addrs = self.addrs();
                let ghost old_seq = self.outer_operates@;
                let p = parent_of(&addr);
                self.outer_operates.push(p);
                self.ids_to_addrs.insert(id, addr);
                assert(self.outer() =~= old_outer.insert(parent(addr@))) by {
                    let n = old_seq.len();
                    let cur = self.outer_operates@;
                    assert(cur[n as int]@ == parent(addr@));
                    assert forall|a: Seq<usize>|
                        old_outer.insert(parent(addr@)).contains(a) implies self.outer().contains(
                            a,
                        ) by {
                        if old_outer.contains(a) {
                            let i = choose|i: int| 0 <= i < n && #[trigger] old_seq[i]@ == a;
                            assert(cur[i] == old_seq[i]);
                        }
                    }
                    assert forall|a: Seq<usize>|
                        self.outer().contains(a) implies old_outer.insert(parent(addr@)).contains(
                            a,
                        ) by {
                        {
                            let i = choose|i: int| 0 <= i < cur.len() && #[trigger] cur[i]@ == a;
                            if i < n {
                                assert(cur[i] == old_seq[i]);
                            }
                        }
                    }
                }
                assert(self.addrs() =~= old_addrs.insert(id, addr@));
                None
            },
            _ => {
                if keep {
                    Some(e)
                } else {
                    None
                }
            },
        }
    }
}

} // verus!
