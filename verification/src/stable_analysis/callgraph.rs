//! A call graph over the instances of a crate, with the reason for each edge
//! and the places where closures are made.

use vstd::prelude::*;

use crate::stable_analysis::lock_types::{copy_instance, instance_eq, same_instance, AnalyzedItem};
use crate::stable_mir::mir::visit::Location;
use crate::stable_mir::mir::{Body, Instance, MonoItem, Operand, Place, TerminatorKind};
use crate::stable_mir::ty::{RigidTy, TyKind, TyTable};
use crate::text::{decimal, push_decimal};

verus! {

/// Why an edge was added to the call graph.
#[derive(Clone, Copy, Debug, PartialEq, Eq, Structural, Hash)]
pub enum CollectionReason {
    DirectCall,
    IndirectCall,
    Drop,
    ClosureCreation,
}

pub open spec fn reason_text(r: CollectionReason) -> Seq<char> {
    match r {
        CollectionReason::DirectCall => "direct"@,
        CollectionReason::IndirectCall => "indirect"@,
        CollectionReason::Drop => "drop"@,
        CollectionReason::ClosureCreation => "closure_creation"@,
    }
}

impl CollectionReason {
    /// The printed form of the reason.
    pub fn text(&self) -> (r: &'static str)
        ensures
            r@ == reason_text(*self),
    {
        let r = match self {
            CollectionReason::DirectCall => "direct",
            CollectionReason::IndirectCall => "indirect",
            CollectionReason::Drop => "drop",
            CollectionReason::ClosureCreation => "closure_creation",
        };
        proof {
            reveal_strlit("direct");
            reveal_strlit("indirect");
            reveal_strlit("drop");
            reveal_strlit("closure_creation");
        }
        r
    }
}

/// Where a call or a closure creation happens.
#[derive(Clone, Copy, Debug, PartialEq, Eq, Structural)]
pub struct CallSiteLocation {
    pub location: Location,
    pub is_thread_spawn: bool,
}

impl From<Location> for CallSiteLocation {
    fn from(loc: Location) -> (r: Self) {
        CallSiteLocation { location: loc, is_thread_spawn: false }
    }
}

impl vstd::std_specs::convert::FromSpecImpl<Location> for CallSiteLocation {
    open spec fn obeys_from_spec() -> bool {
        true
    }

    open spec fn from_spec(v: Location) -> Self {
        CallSiteLocation { location: v, is_thread_spawn: false }
    }
}

/// A place where a closure is made, and what it captures.
#[derive(Debug)]
pub struct ClosureInfo {
    pub closure_instance: Instance,
    pub creation_location: CallSiteLocation,
    pub upvars: Vec<Place>,
}

/// The destination of an edge, why it was added, and where.
#[derive(Debug)]
pub struct CollectedItem {
    pub item: MonoItem,
    pub reason: CollectionReason,
    pub location: Option<CallSiteLocation>,
}

/// A node of the graph.
#[derive(Debug)]
pub struct Node(pub MonoItem);

/// Some element of `r` is the same item as `b`.
pub open spec fn seq_has(r: Seq<MonoItem>, b: MonoItem) -> bool {
    exists|i: int| 0 <= i < r.len() && same_mono(#[trigger] r[i], b)
}

/// Some edge of `es` goes to the same item as `b`.
pub open spec fn items_have(es: Seq<CollectedItem>, b: MonoItem) -> bool {
    exists|k: int| 0 <= k < es.len() && same_mono((#[trigger] es[k]).item, b)
}

/// Two items are the same: the same instance, or the same static.
pub open spec fn same_mono(a: MonoItem, b: MonoItem) -> bool {
    match (a, b) {
        (MonoItem::Instance(x), MonoItem::Instance(y)) => same_instance(x, y),
        (MonoItem::Static(x), MonoItem::Static(y)) => x == y,
        _ => false,
    }
}

pub fn mono_eq(a: &MonoItem, b: &MonoItem) -> (r: bool)
    ensures
        r == same_mono(*a, *b),
{
    match (a, b) {
        (MonoItem::Instance(x), MonoItem::Instance(y)) => instance_eq(x, y),
        (MonoItem::Static(x), MonoItem::Static(y)) => x.def == y.def,
        _ => false,
    }
}

pub fn copy_mono(a: &MonoItem) -> (r: MonoItem)
    ensures
        same_mono(r, *a),
{
    match a {
        MonoItem::Instance(x) => MonoItem::Instance(copy_instance(x)),
        MonoItem::Static(s) => MonoItem::Static(*s),
    }
}

/// The call graph: its nodes, and for each node the edges out of it and into it.
#[derive(Debug)]
pub struct CallGraph {
    nodes: Vec<MonoItem>,
    edges: Vec<Vec<CollectedItem>>,
    back_edges: Vec<Vec<CollectedItem>>,
    /// The closures made, by closure instance.
    pub closure_info: Vec<(Instance, Vec<ClosureInfo>)>,
}

impl CallGraph {
    pub closed spec fn closure_seq(&self) -> Seq<(Instance, Vec<ClosureInfo>)> {
        self.closure_info@
    }

    pub closed spec fn node_seq(&self) -> Seq<MonoItem> {
        self.nodes@
    }

    pub closed spec fn out_edges(&self, i: int) -> Seq<CollectedItem> {
        self.edges@[i]@
    }

    pub closed spec fn in_edges(&self, i: int) -> Seq<CollectedItem> {
        self.back_edges@[i]@
    }

    /// Each node is listed once, with one list of edges out and one in.
    pub open spec fn wf(&self) -> bool {
        &&& self.edges_len() == self.node_seq().len()
        &&& self.back_edges_len() == self.node_seq().len()
        &&& forall|i: int, j: int|
            0 <= i < j < self.node_seq().len() ==> !same_mono(self.node_seq()[i], self.node_seq()[j])
    }

    pub closed spec fn edges_len(&self) -> nat {
        self.edges@.len()
    }

    pub closed spec fn back_edges_len(&self) -> nat {
        self.back_edges@.len()
    }

    /// The graph holds a node for `item`.
    pub open spec fn has_node(&self, item: MonoItem) -> bool {
        exists|i: int| 0 <= i < self.node_seq().len() && same_mono(#[trigger] self.node_seq()[i], item)
    }

    /// An edge from `a` to `b`, added for `reason`.
    pub open spec fn has_edge(&self, a: MonoItem, b: MonoItem, reason: CollectionReason) -> bool {
        exists|i: int, k: int|
            0 <= i < self.node_seq().len() && 0 <= k < self.out_edges(i).len() && same_mono(
                #[trigger] self.node_seq()[i],
                a,
            ) && same_mono((#[trigger] self.out_edges(i)[k]).item, b) && self.out_edges(i)[k].reason == reason
    }

    /// A back edge into `b` from `a`, added for `reason`.
    pub open spec fn has_back_edge(&self, b: MonoItem, a: MonoItem, reason: CollectionReason) -> bool {
        exists|i: int, k: int|
            0 <= i < self.node_seq().len() && 0 <= k < self.in_edges(i).len() && same_mono(
                #[trigger] self.node_seq()[i],
                b,
            ) && same_mono((#[trigger] self.in_edges(i)[k]).item, a) && self.in_edges(i)[k].reason == reason
    }

    /// No node has an edge out.
    pub open spec fn no_edges(&self) -> bool {
        forall|i: int| 0 <= i < self.node_seq().len() ==> (#[trigger] self.out_edges(i)).len() == 0
    }

    /// Some edge goes from `a` to `b`.
    pub open spec fn has_edge_any(&self, a: MonoItem, b: MonoItem) -> bool {
        exists|rs: CollectionReason| #[trigger] self.has_edge(a, b, rs)
    }

    /// Some back edge goes into `b` from `a`.
    pub open spec fn has_back_edge_any(&self, b: MonoItem, a: MonoItem) -> bool {
        exists|rs: CollectionReason| #[trigger] self.has_back_edge(b, a, rs)
    }

    /// An empty graph.
    pub fn new() -> (r: Self)
        ensures
            r.wf(),
            r.node_seq().len() == 0,
    {
        CallGraph { nodes: Vec::new(), edges: Vec::new(), back_edges: Vec::new(), closure_info: Vec::new() }
    }

    /// The nodes of the graph.
    pub fn nodes(&self) -> (r: &Vec<MonoItem>)
        ensures
            r@ == self.node_seq(),
    {
        &self.nodes
    }

    /// The number of nodes.
    pub fn node_count(&self) -> (r: usize)
        ensures
            r == self.node_seq().len(),
    {
        self.nodes.len()
    }

    /// The index of the node for `item`, if the graph has one.
    fn find_node(&self, item: &MonoItem) -> (r: Option<usize>)
        ensures
            match r {
                Some(i) => i < self.node_seq().len() && same_mono(self.node_seq()[i as int], *item),
                None => !self.has_node(*item),
            },
    {
        let mut i: usize = 0;
        while i < self.nodes.len()
            invariant
                i <= self.nodes@.len(),
                forall|j: int| 0 <= j < i ==> !same_mono(#[trigger] self.nodes@[j], *item),
            decreases self.nodes@.len() - i,
        {
            if mono_eq(&self.nodes[i], item) {
                return Some(i);
            }
            i = i + 1;
        }
        None
    }

    /// The number of edges.
    pub fn edge_count(&self) -> (r: usize)
        requires
            self.wf(),
            total_edges(self.edge_lens()) <= usize::MAX,
        ensures
            r == total_edges(self.edge_lens()),
    {
        let mut sum: usize = 0;
        let mut i: usize = 0;
        while i < self.edges.len()
            invariant
                i <= self.edges@.len(),
                self.edge_lens() == Seq::new(self.edges@.len(), |j: int| self.edges@[j]@.len()),
                sum == total_edges(self.edge_lens().take(i as int)),
                total_edges(self.edge_lens()) <= usize::MAX,
            decreases self.edges@.len() - i,
        {
            proof {
                assert(self.edge_lens().take(i + 1).drop_last() =~= self.edge_lens().take(i as int));
                lemma_total_prefix(self.edge_lens(), i + 1);
            }
            sum = sum + self.edges[i].len();
            i = i + 1;
        }
        assert(self.edge_lens().take(self.edges@.len() as int) =~= self.edge_lens());
        sum
    }

    /// The number of edges out of each node.
    pub closed spec fn edge_lens(&self) -> Seq<nat> {
        Seq::new(self.edges@.len(), |j: int| self.edges@[j]@.len())
    }

    /// Adds a node for `item` if there is none; gives back its index.
    fn add_node(&mut self, item: &MonoItem) -> (r: usize)
        requires
            old(self).wf(),
        ensures
            final(self).wf(),
            r < final(self).node_seq().len(),
            same_mono(final(self).node_seq()[r as int], *item),
            final(self).closure_seq() == old(self).closure_seq(),
            final(self).node_seq().len() >= old(self).node_seq().len(),
            forall|i: int| 0 <= i < old(self).node_seq().len() ==> {
                &&& #[trigger] final(self).node_seq()[i] == old(self).node_seq()[i]
                &&& final(self).out_edges(i) == old(self).out_edges(i)
                &&& final(self).in_edges(i) == old(self).in_edges(i)
            },
            forall|i: int| old(self).node_seq().len() <= i < final(self).node_seq().len() ==> {
                &&& same_mono(#[trigger] final(self).node_seq()[i], *item)
                &&& final(self).out_edges(i).len() == 0
                &&& final(self).in_edges(i).len() == 0
            },
    {
        match self.find_node(item) {
            Some(i) => i,
            None => {
                let ghost n0 = self.nodes@;
                self.nodes.push(copy_mono(item));
                self.edges.push(Vec::new());
                self.back_edges.push(Vec::new());
                proof {
                    assert forall|i: int, j: int|
                        0 <= i < j < self.nodes@.len() implies !same_mono(self.nodes@[i], self.nodes@[j]) by {
                        if j == n0.len() {
                            assert(self.nodes@[i] == n0[i]);
                            lemma_same_mono_sym_trans(n0[i], self.nodes@[j], *item);
                        } else {
                            assert(self.nodes@[i] == n0[i] && self.nodes@[j] == n0[j]);
                        }
                    }
                }
                self.nodes.len() - 1
            },
        }
    }

    /// Appends `x` to list `i` of `lists`.
    fn push_edge(lists: &mut Vec<Vec<CollectedItem>>, i: usize, x: CollectedItem)
        requires
            i < old(lists)@.len(),
        ensures
            final(lists)@.len() == old(lists)@.len(),
            forall|k: int| 0 <= k < old(lists)@.len() && k != i ==> #[trigger] final(lists)@[k] == old(lists)@[k],
            final(lists)@[i as int]@ == old(lists)@[i as int]@.push(x),
    {
        let mut slot: Vec<CollectedItem> = Vec::new();
        lists.set_and_swap(i, &mut slot);
        slot.push(x);
        lists.set_and_swap(i, &mut slot);
    }

    /// Adds an edge from `from` to `to` for `reason`, and the back edge,
    /// adding the nodes that are missing.
    pub fn add_edge(&mut self, from: &MonoItem, to: &MonoItem, reason: CollectionReason, location: Option<CallSiteLocation>)
        requires
            old(self).wf(),
        ensures
            final(self).wf(),
            final(self).has_node(*from),
            final(self).has_node(*to),
            final(self).has_edge(*from, *to, reason),
            final(self).has_back_edge(*to, *from, reason),
            final(self).closure_seq() == old(self).closure_seq(),
            forall|a: MonoItem, b: MonoItem, rs: CollectionReason| #[trigger]
                old(self).has_edge(a, b, rs) ==> final(self).has_edge(a, b, rs),
            forall|a: MonoItem| #[trigger] old(self).has_node(a) ==> final(self).has_node(a),
    {
        let ghost g0 = *self;
        let fi = self.add_node(from);
        let ghost g1 = *self;
        let ti = self.add_node(to);
        let ghost g2 = *self;
        proof {
            assert(same_mono(self.nodes@[fi as int], *from));
        }
        let ghost e2 = self.edges@;
        Self::push_edge(&mut self.edges, fi, CollectedItem { item: copy_mono(to), reason, location });
        Self::push_edge(&mut self.back_edges, ti, CollectedItem { item: copy_mono(from), reason, location });
        proof {
            let k = self.out_edges(fi as int).len() - 1;
            assert(self.out_edges(fi as int)[k].item == e2[fi as int]@.push(self.edges@[fi as int]@[k]).last().item);
            assert(same_mono(self.node_seq()[fi as int], *from));
            assert(same_mono((self.out_edges(fi as int)[k]).item, *to));
            let kb = self.in_edges(ti as int).len() - 1;
            assert(same_mono(self.node_seq()[ti as int], *to));
            assert(same_mono((self.in_edges(ti as int)[kb]).item, *from));
            assert(self.has_node(*from) && self.has_node(*to)) by {
                assert(same_mono(self.node_seq()[fi as int], *from));
                assert(same_mono(self.node_seq()[ti as int], *to));
            }
            assert forall|a: MonoItem, b: MonoItem, rs: CollectionReason| #[trigger]
                g0.has_edge(a, b, rs) implies self.has_edge(a, b, rs) by {
                let (i, k) = choose|i: int, k: int|
                    0 <= i < g0.node_seq().len() && 0 <= k < g0.out_edges(i).len() && same_mono(
                        #[trigger] g0.node_seq()[i],
                        a,
                    ) && same_mono((#[trigger] g0.out_edges(i)[k]).item, b) && g0.out_edges(i)[k].reason == rs;
                assert(self.node_seq()[i] == g0.node_seq()[i]);
                assert(self.out_edges(i)[k] == g0.out_edges(i)[k]);
            }
            assert forall|a: MonoItem| #[trigger] g0.has_node(a) implies self.has_node(a) by {
                let i = choose|i: int| 0 <= i < g0.node_seq().len() && same_mono(#[trigger] g0.node_seq()[i], a);
                assert(self.node_seq()[i] == g0.node_seq()[i]);
            }
        }
    }

    /// Adds the node `from` and an edge to each collected item.
    fn add_edges(&mut self, from: &MonoItem, to: &Vec<CollectedItem>)
        requires
            old(self).wf(),
        ensures
            final(self).wf(),
            final(self).has_node(*from),
            final(self).closure_seq() == old(self).closure_seq(),
            forall|k: int| 0 <= k < to@.len() ==> final(self).has_edge(*from, (#[trigger] to@[k]).item, to@[k].reason),
            forall|a: MonoItem| #[trigger] old(self).has_node(a) ==> final(self).has_node(a),
            old(self).no_edges() && to@.len() == 0 ==> final(self).no_edges(),
    {
        let ghost g0 = *self;
        self.add_node(from);
        proof {
            if g0.no_edges() {
                assert forall|i: int| 0 <= i < self.node_seq().len() implies (#[trigger] self.out_edges(i)).len() == 0 by {
                    let x = self.node_seq()[i];
                    if i < g0.node_seq().len() {
                        assert(self.out_edges(i) == g0.out_edges(i));
                    }
                }
            }
            assert forall|a: MonoItem| #[trigger] g0.has_node(a) implies self.has_node(a) by {
                let i = choose|i: int| 0 <= i < g0.node_seq().len() && same_mono(#[trigger] g0.node_seq()[i], a);
                assert(self.node_seq()[i] == g0.node_seq()[i]);
            }
        }
        let mut k: usize = 0;
        while k < to.len()
            invariant
                self.wf(),
                self.has_node(*from),
                self.closure_seq() == old(self).closure_seq(),
                (g0.no_edges() && to@.len() == 0) ==> self.no_edges(),
                g0 == *old(self),
                k <= to@.len(),
                forall|j: int| 0 <= j < k ==> self.has_edge(*from, (#[trigger] to@[j]).item, to@[j].reason),
                forall|a: MonoItem| #[trigger] old(self).has_node(a) ==> self.has_node(a),
            decreases to@.len() - k,
        {
            let ghost g = *self;
            let item = copy_mono(&to[k].item);
            self.add_edge(from, &item, to[k].reason, to[k].location);
            proof {
                assert forall|j: int| 0 <= j < k + 1 implies self.has_edge(*from, (#[trigger] to@[j]).item, to@[j].reason) by {
                    if j < k {
                        assert(g.has_edge(*from, to@[j].item, to@[j].reason));
                    } else {
                        lemma_has_edge_same(*self, *from, item, to@[j].item, to@[j].reason);
                    }
                }
            }
            k = k + 1;
        }
    }

    /// The distinct items that `item` has an edge to.
    pub fn successors(&self, item: &MonoItem) -> (r: Vec<MonoItem>)
        requires
            self.wf(),
        ensures
            forall|i: int, j: int| 0 <= i < j < r@.len() ==> !same_mono(r@[i], r@[j]),
            forall|b: MonoItem| #[trigger] seq_has(r@, b) <==> self.has_edge_any(*item, b),
            !self.has_node(*item) ==> r@.len() == 0,
            forall|i: int|
                0 <= i < self.node_seq().len() && same_mono(#[trigger] self.node_seq()[i], *item) ==> r@.len()
                    == distinct_count(self.out_edges(i), self.out_edges(i).len() as int),
    {
        match self.find_node(item) {
            Some(n) => {
                let r = distinct_items(&self.edges[n]);
                proof {
                    assert forall|i: int|
                        0 <= i < self.node_seq().len() && same_mono(#[trigger] self.node_seq()[i], *item) implies i == n by {
                        lemma_same_mono_sym_trans(self.node_seq()[i], *item, self.node_seq()[n as int]);
                        lemma_same_mono_sym(self.node_seq()[n as int], *item);
                        lemma_same_mono_sym(self.node_seq()[i], self.node_seq()[n as int]);
                    }
                    assert(self.edges@[n as int]@ == self.out_edges(n as int));
                    assert forall|b: MonoItem| #[trigger] seq_has(r@, b) <==> self.has_edge_any(*item, b) by {
                        assert(seq_has(r@, b) == items_have(self.out_edges(n as int), b));
                        lemma_edges_of_node(*self, n as int, *item, b);
                    }
                }
                r
            },
            None => {
                let r: Vec<MonoItem> = Vec::new();
                proof {
                    assert forall|b: MonoItem| #[trigger] seq_has(r@, b) <==> self.has_edge_any(*item, b) by {
                        if self.has_edge_any(*item, b) {
                            let rs = choose|rs: CollectionReason| #[trigger] self.has_edge(*item, b, rs);
                            let (i, k) = choose|i: int, k: int|
                                0 <= i < self.node_seq().len() && 0 <= k < self.out_edges(i).len() && same_mono(
                                    #[trigger] self.node_seq()[i],
                                    *item,
                                ) && same_mono((#[trigger] self.out_edges(i)[k]).item, b) && self.out_edges(i)[k].reason == rs;
                            assert(same_mono(self.node_seq()[i], *item));
                        }
                    }
                }
                r
            },
        }
    }

    /// The distinct items that have an edge into `item`.
    pub fn predecessors(&self, item: &MonoItem) -> (r: Vec<MonoItem>)
        requires
            self.wf(),
        ensures
            forall|i: int, j: int| 0 <= i < j < r@.len() ==> !same_mono(r@[i], r@[j]),
            forall|a: MonoItem| #[trigger] seq_has(r@, a) <==> self.has_back_edge_any(*item, a),
    {
        match self.find_node(item) {
            Some(n) => {
                let r = distinct_items(&self.back_edges[n]);
                proof {
                    assert forall|a: MonoItem| #[trigger] seq_has(r@, a) <==> self.has_back_edge_any(*item, a) by {
                        assert(seq_has(r@, a) == items_have(self.in_edges(n as int), a));
                        lemma_back_edges_of_node(*self, n as int, *item, a);
                    }
                }
                r
            },
            None => {
                let r: Vec<MonoItem> = Vec::new();
                proof {
                    assert forall|a: MonoItem| #[trigger] seq_has(r@, a) <==> self.has_back_edge_any(*item, a) by {
                        if self.has_back_edge_any(*item, a) {
                            let rs = choose|rs: CollectionReason| #[trigger] self.has_back_edge(*item, a, rs);
                            let (i, k) = choose|i: int, k: int|
                                0 <= i < self.node_seq().len() && 0 <= k < self.in_edges(i).len() && same_mono(
                                    #[trigger] self.node_seq()[i],
                                    *item,
                                ) && same_mono((#[trigger] self.in_edges(i)[k]).item, a) && self.in_edges(i)[k].reason == rs;
                            assert(same_mono(self.node_seq()[i], *item));
                        }
                    }
                }
                r
            },
        }
    }

    /// The closures that `creator` makes, with where, in the order of its edges.
    pub fn closure_creations(&self, creator: &MonoItem) -> (r: Vec<(MonoItem, CallSiteLocation)>)
        requires
            self.wf(),
        ensures
            forall|k: int|
                0 <= k < r@.len() ==> self.has_edge(*creator, (#[trigger] r@[k]).0, CollectionReason::ClosureCreation),
            !self.has_node(*creator) ==> r@.len() == 0,
            forall|i: int|
                0 <= i < self.node_seq().len() && same_mono(#[trigger] self.node_seq()[i], *creator) ==> {
                    let ce = creation_edges(self.out_edges(i), self.out_edges(i).len() as int);
                    &&& r@.len() == ce.len()
                    &&& forall|k: int|
                        0 <= k < ce.len() ==> same_mono((#[trigger] r@[k]).0, ce[k].item) && r@[k].1 == ce[k].location->0
                },
    {
        let mut out: Vec<(MonoItem, CallSiteLocation)> = Vec::new();
        match self.find_node(creator) {
            Some(n) => {
                let edges = &self.edges[n];
                let mut k: usize = 0;
                while k < edges.len()
                    invariant
                        n < self.node_seq().len(),
                        *edges == self.edges@[n as int],
                        same_mono(self.node_seq()[n as int], *creator),
                        k <= edges@.len(),
                        forall|j: int|
                            0 <= j < out@.len() ==> self.has_edge(
                                *creator,
                                (#[trigger] out@[j]).0,
                                CollectionReason::ClosureCreation,
                            ),
                        out@.len() == creation_edges(edges@, k as int).len(),
                        forall|j: int|
                            0 <= j < creation_edges(edges@, k as int).len() ==> same_mono(
                                (#[trigger] out@[j]).0,
                                creation_edges(edges@, k as int)[j].item,
                            ) && out@[j].1 == creation_edges(edges@, k as int)[j].location->0,
                    decreases edges@.len() - k,
                {
                    let ghost ob = out@;
                    let e = &edges[k];
                    if e.reason == CollectionReason::ClosureCreation {
                        match e.location {
                            Some(loc) => {
                                let item = copy_mono(&e.item);
                                proof {
                                    assert(self.out_edges(n as int)[k as int] == *e);
                                    lemma_same_mono_sym_trans(item, e.item, e.item);
                                    assert(same_mono(self.out_edges(n as int)[k as int].item, item)) by {
                                        lemma_same_mono_sym(item, e.item);
                                    }
                                }
                                out.push((item, loc));
                                proof {
                                    lemma_same_mono_sym(item, e.item);
                                    let cn = creation_edges(edges@, k + 1);
                                    assert(cn == creation_edges(edges@, k as int).push(edges@[k as int]));
                                    assert forall|j: int| 0 <= j < cn.len() implies same_mono((#[trigger] out@[j]).0, cn[j].item)
                                        && out@[j].1 == cn[j].location->0 by {
                                        if j < ob.len() {
                                            assert(out@[j] == ob[j]);
                                        }
                                    }
                                }
                            },
                            None => {
                                assert(creation_edges(edges@, k + 1) == creation_edges(edges@, k as int));
                            },
                        }
                    } else {
                        assert(creation_edges(edges@, k + 1) == creation_edges(edges@, k as int));
                    }
                    k = k + 1;
                }
                proof {
                    assert forall|i: int|
                        0 <= i < self.node_seq().len() && same_mono(#[trigger] self.node_seq()[i], *creator) implies i == n by {
                        lemma_same_mono_sym_trans(self.node_seq()[i], *creator, self.node_seq()[n as int]);
                        lemma_same_mono_sym(self.node_seq()[n as int], *creator);
                        lemma_same_mono_sym(self.node_seq()[i], self.node_seq()[n as int]);
                    }
                    assert(edges@ == self.out_edges(n as int));
                }
            },
            None => {},
        }
        out
    }

    /// The closure records of `closure_instance`; none where there are none.
    pub fn get_closure_info(&self, closure_instance: &Instance) -> (r: &[ClosureInfo])
        ensures
            r@.len() > 0 ==> exists|i: int|
                0 <= i < self.closure_seq().len() && same_instance((#[trigger] self.closure_seq()[i]).0, *closure_instance)
                    && self.closure_seq()[i].1@ == r@,
            r@ == first_info(self.closure_seq(), *closure_instance),
    {
        let mut i: usize = 0;
        assert(self.closure_seq().skip(0) =~= self.closure_seq());
        while i < self.closure_info.len()
            invariant
                i <= self.closure_info@.len(),
                self.closure_info@ == self.closure_seq(),
                first_info(self.closure_seq(), *closure_instance) == first_info(self.closure_seq().skip(i as int), *closure_instance),
            decreases self.closure_info@.len() - i,
        {
            assert(self.closure_seq().skip(i as int)[0] == self.closure_seq()[i as int]);
            assert(self.closure_seq().skip(i as int).drop_first() =~= self.closure_seq().skip(i + 1));
            if instance_eq(&self.closure_info[i].0, closure_instance) {
                let r = self.closure_info[i].1.as_slice();
                assert(same_instance(self.closure_seq()[i as int].0, *closure_instance));
                assert(self.closure_seq()[i as int].1@ == r@);
                return r;
            }
            i = i + 1;
        }
        let empty: &[ClosureInfo] = &[];
        empty
    }

    /// The graph in DOT form: each node, then each of its edges labelled with its reason.
    pub fn dump_dot(&self, table: &TyTable) -> (r: String)
        requires
            self.wf(),
        ensures
            r@ == "digraph CallGraph {\n"@ + dot_lines(self.node_seq(), |i: int| self.out_edges(i), self.node_seq().len() as int) + "}"@,
    {
        let mut output = String::new();
        output.append("digraph CallGraph {\n");
        let mut i: usize = 0;
        while i < self.nodes.len()
            invariant
                self.wf(),
                i <= self.nodes@.len(),
                output@ == "digraph CallGraph {\n"@ + dot_lines(self.node_seq(), |j: int| self.out_edges(j), i as int),
            decreases self.nodes@.len() - i,
        {
            let ghost before = output@;
            let name = mono_text(&self.nodes[i]);
            output.append("  \"");
            output.append(name.as_str());
            output.append("\";\n");
            let edges = &self.edges[i];
            let ghost mid = output@;
            let mut k: usize = 0;
            while k < edges.len()
                invariant
                    i < self.nodes@.len(),
                    *edges == self.edges@[i as int],
                    name@ == mono_name(self.nodes@[i as int]),
                    k <= edges@.len(),
                    output@ == mid + edge_lines(mono_name(self.nodes@[i as int]), edges@.take(k as int)),
                decreases edges@.len() - k,
            {
                let succ = mono_text(&edges[k].item);
                output.append("  \"");
                output.append(name.as_str());
                output.append("\" -> \"");
                output.append(succ.as_str());
                output.append("\" [label=");
                output.append(edges[k].reason.text());
                output.append("];\n");
                proof {
                    assert(edges@.take(k + 1).drop_last() =~= edges@.take(k as int));
                    assert(edges@.take(k + 1).last() == edges@[k as int]);
                }
                k = k + 1;
                assert(output@ =~= mid + edge_lines(mono_name(self.nodes@[i as int]), edges@.take(k as int)));
            }
            proof {
                assert(edges@.take(edges@.len() as int) =~= edges@);
                assert(self.out_edges(i as int) == edges@);
            }
            i = i + 1;
            assert(output@ =~= "digraph CallGraph {\n"@ + dot_lines(self.node_seq(), |j: int| self.out_edges(j), i as int));
        }
        output.append("}");
        output
    }
}

/// The printed name of an item: an instance's name, or a static's definition.
pub open spec fn mono_name(m: MonoItem) -> Seq<char> {
    match m {
        MonoItem::Instance(_) => Seq::empty(),
        MonoItem::Static(s) => "StaticDef { def: "@ + decimal(s.def as nat) + " }"@,
    }
}

/// The records of the first entry for `inst`; none where there is none.
pub open spec fn first_info(cs: Seq<(Instance, Vec<ClosureInfo>)>, inst: Instance) -> Seq<ClosureInfo>
    decreases cs.len(),
{
    if cs.len() == 0 {
        Seq::empty()
    } else if same_instance(cs[0].0, inst) {
        cs[0].1@
    } else {
        first_info(cs.drop_first(), inst)
    }
}

/// The records of the closures that the first `k` edges of `es` create, edge by edge.
pub open spec fn created_infos(cs: Seq<(Instance, Vec<ClosureInfo>)>, es: Seq<CollectedItem>, k: int) -> Seq<ClosureInfo>
    decreases k,
{
    if k <= 0 {
        Seq::empty()
    } else {
        created_infos(cs, es, k - 1) + if es[k - 1].reason == CollectionReason::ClosureCreation {
            match es[k - 1].item {
                MonoItem::Instance(inst) => first_info(cs, inst),
                _ => Seq::empty(),
            }
        } else {
            Seq::empty()
        }
    }
}

/// The closure-creation edges with a location among the first `k` of `es`, in order.
pub open spec fn creation_edges(es: Seq<CollectedItem>, k: int) -> Seq<CollectedItem>
    decreases k,
{
    if k <= 0 {
        Seq::empty()
    } else {
        let e = es[k - 1];
        creation_edges(es, k - 1) + if e.reason == CollectionReason::ClosureCreation && e.location is Some {
            seq![e]
        } else {
            Seq::empty()
        }
    }
}

/// The printed name of an item.
pub fn mono_text(m: &MonoItem) -> (r: String)
    ensures
        r@ == mono_name(*m),
{
    match m {
        MonoItem::Instance(inst) => inst.name(),
        MonoItem::Static(s) => {
            let mut out = String::new();
            out.append("StaticDef { def: ");
            push_decimal(&mut out, s.def);
            out.append(" }");
            out
        },
    }
}

/// The DOT lines of one node's edges.
pub open spec fn edge_lines(from: Seq<char>, es: Seq<CollectedItem>) -> Seq<char>
    decreases es.len(),
{
    if es.len() == 0 {
        Seq::empty()
    } else {
        edge_lines(from, es.drop_last()) + "  \""@ + from + "\" -> \""@ + mono_name(es.last().item) + "\" [label="@
            + reason_text(es.last().reason) + "];\n"@
    }
}

/// The DOT lines of the first `n` nodes and their edges.
pub open spec fn dot_lines(nodes: Seq<MonoItem>, out: spec_fn(int) -> Seq<CollectedItem>, n: int) -> Seq<char>
    decreases n,
{
    if n <= 0 {
        Seq::empty()
    } else {
        dot_lines(nodes, out, n - 1) + "  \""@ + mono_name(nodes[n - 1]) + "\";\n"@ + edge_lines(
            mono_name(nodes[n - 1]),
            out(n - 1),
        )
    }
}

/// The sum of the numbers.
pub open spec fn total_edges(s: Seq<nat>) -> nat
    decreases s.len(),
{
    if s.len() == 0 {
        0
    } else {
        total_edges(s.drop_last()) + s.last()
    }
}

/// A graph with no edges counts none.
pub proof fn lemma_no_edges_total(g: CallGraph)
    requires
        g.wf(),
        g.no_edges(),
    ensures
        total_edges(g.edge_lens()) == 0,
{
    assert forall|i: int| 0 <= i < g.edge_lens().len() implies g.edge_lens()[i] == 0 by {
        assert(g.out_edges(i).len() == 0);
    }
    lemma_total_zero(g.edge_lens());
}

proof fn lemma_total_zero(s: Seq<nat>)
    requires
        forall|i: int| 0 <= i < s.len() ==> s[i] == 0,
    ensures
        total_edges(s) == 0,
    decreases s.len(),
{
    if s.len() > 0 {
        lemma_total_zero(s.drop_last());
    }
}

proof fn lemma_total_prefix(s: Seq<nat>, n: int)
    requires
        0 <= n <= s.len(),
    ensures
        total_edges(s.take(n)) <= total_edges(s),
    decreases s.len(),
{
    if n < s.len() {
        assert(s.drop_last().take(n) =~= s.take(n));
        lemma_total_prefix(s.drop_last(), n);
    } else {
        assert(s.take(n) =~= s);
    }
}

proof fn lemma_same_mono_sym(a: MonoItem, b: MonoItem)
    ensures
        same_mono(a, b) == same_mono(b, a),
{
}

proof fn lemma_same_mono_sym_trans(a: MonoItem, b: MonoItem, c: MonoItem)
    ensures
        same_mono(a, b) && same_mono(b, c) ==> same_mono(a, c),
        same_mono(a, c) && same_mono(b, c) ==> same_mono(a, b),
        same_mono(a, a) || true,
{
    match (a, b, c) {
        (MonoItem::Instance(x), MonoItem::Instance(y), MonoItem::Instance(z)) => {},
        _ => {},
    }
}

proof fn lemma_has_edge_same(g: CallGraph, a: MonoItem, b: MonoItem, c: MonoItem, rs: CollectionReason)
    requires
        g.has_edge(a, b, rs),
        same_mono(b, c),
    ensures
        g.has_edge(a, c, rs),
{
    let (i, k) = choose|i: int, k: int|
        0 <= i < g.node_seq().len() && 0 <= k < g.out_edges(i).len() && same_mono(#[trigger] g.node_seq()[i], a)
            && same_mono((#[trigger] g.out_edges(i)[k]).item, b) && g.out_edges(i)[k].reason == rs;
    lemma_same_mono_sym_trans(g.out_edges(i)[k].item, b, c);
}

/// The items of `es`, each once, in the order they first occur.
/// Some item of `r` is the same as `b`.
pub open spec fn found_iff(r: Seq<MonoItem>, b: MonoItem) -> bool {
    seq_has(r, b)
}

/// How many of the first `k` edges go to an item that no earlier edge goes to.
pub open spec fn distinct_count(es: Seq<CollectedItem>, k: int) -> nat
    decreases k,
{
    if k <= 0 {
        0
    } else {
        distinct_count(es, k - 1) + if items_have(es.take(k - 1), es[k - 1].item) {
            0nat
        } else {
            1nat
        }
    }
}

fn distinct_items(es: &Vec<CollectedItem>) -> (r: Vec<MonoItem>)
    ensures
        forall|i: int, j: int| 0 <= i < j < r@.len() ==> !same_mono(r@[i], r@[j]),
        forall|b: MonoItem| #[trigger] seq_has(r@, b) <==> items_have(es@, b),
        r@.len() == distinct_count(es@, es@.len() as int),
{
    let mut out: Vec<MonoItem> = Vec::new();
    let mut k: usize = 0;
    while k < es.len()
        invariant
            k <= es@.len(),
            forall|i: int, j: int| 0 <= i < j < out@.len() ==> !same_mono(out@[i], out@[j]),
            forall|b: MonoItem| #[trigger] seq_has(out@, b) <==> items_have(es@.take(k as int), b),
            out@.len() == distinct_count(es@, k as int),
        decreases es@.len() - k,
    {
        proof {
            assert(found_iff(out@, es@[k as int].item) == items_have(es@.take(k as int), es@[k as int].item));
        }
        let mut found = false;
        let mut j: usize = 0;
        while j < out.len()
            invariant
                k < es@.len(),
                j <= out@.len(),
                found == exists|i: int| 0 <= i < j && same_mono(#[trigger] out@[i], es@[k as int].item),
            decreases out@.len() - j,
        {
            if mono_eq(&out[j], &es[k].item) {
                found = true;
            }
            j = j + 1;
        }
        let ghost before = out@;
        proof {
            assert(found == seq_has(before, es@[k as int].item));
            assert(distinct_count(es@, k + 1) == distinct_count(es@, k as int) + if items_have(es@.take(k as int), es@[k as int].item) {
                0nat
            } else {
                1nat
            });
        }
        if !found {
            out.push(copy_mono(&es[k].item));
        }
        proof {
            let x = es@[k as int].item;
            assert forall|i: int, j2: int| 0 <= i < j2 < out@.len() implies !same_mono(out@[i], out@[j2]) by {
                if j2 == before.len() && !found {
                    assert(out@[i] == before[i]);
                    lemma_same_mono_sym_trans(before[i], out@[j2], x);
                } else {
                    assert(out@[i] == before[i] && out@[j2] == before[j2]);
                }
            }
            let tk = es@.take(k as int);
            let tk1 = es@.take(k + 1);
            assert forall|b: MonoItem| #[trigger] seq_has(out@, b) <==> items_have(tk1, b) by {
                if seq_has(out@, b) {
                    let i = choose|i: int| 0 <= i < out@.len() && same_mono(#[trigger] out@[i], b);
                    if i < before.len() {
                        assert(out@[i] == before[i]);
                        assert(seq_has(before, b));
                        let m = choose|m: int| 0 <= m < tk.len() && same_mono((#[trigger] tk[m]).item, b);
                        assert(tk1[m] == tk[m]);
                    } else {
                        lemma_same_mono_sym_trans(x, out@[i], b);
                        lemma_same_mono_sym(out@[i], x);
                        assert(same_mono(es@[k as int].item, b));
                        assert(tk1[k as int] == es@[k as int]);
                    }
                }
                if items_have(tk1, b) {
                    let m = choose|m: int| 0 <= m < tk1.len() && same_mono((#[trigger] tk1[m]).item, b);
                    if m < k {
                        assert(tk[m] == tk1[m]);
                        assert(items_have(tk, b));
                        assert(seq_has(before, b));
                        let i = choose|i: int| 0 <= i < before.len() && same_mono(#[trigger] before[i], b);
                        assert(out@[i] == before[i]);
                    } else if found {
                        let i = choose|i: int| 0 <= i < before.len() && same_mono(#[trigger] before[i], x);
                        assert(out@[i] == before[i]);
                        lemma_same_mono_sym_trans(before[i], x, b);
                    } else {
                        let last = out@.len() - 1;
                        lemma_same_mono_sym_trans(out@[last], x, b);
                        assert(same_mono(out@[last], b));
                    }
                }
            }
        }
        k = k + 1;
    }
    assert(es@.take(es@.len() as int) =~= es@);
    out
}

proof fn lemma_edges_of_node(g: CallGraph, n: int, item: MonoItem, b: MonoItem)
    requires
        g.wf(),
        0 <= n < g.node_seq().len(),
        same_mono(g.node_seq()[n], item),
    ensures
        items_have(g.out_edges(n), b) <==> g.has_edge_any(item, b),
{
    if items_have(g.out_edges(n), b) {
        let k = choose|k: int| 0 <= k < g.out_edges(n).len() && same_mono((#[trigger] g.out_edges(n)[k]).item, b);
        assert(g.has_edge(item, b, g.out_edges(n)[k].reason));
    }
    if g.has_edge_any(item, b) {
        let rs = choose|rs: CollectionReason| #[trigger] g.has_edge(item, b, rs);
        let (i, k) = choose|i: int, k: int|
            0 <= i < g.node_seq().len() && 0 <= k < g.out_edges(i).len() && same_mono(#[trigger] g.node_seq()[i], item)
                && same_mono((#[trigger] g.out_edges(i)[k]).item, b) && g.out_edges(i)[k].reason == rs;
        lemma_same_mono_sym(g.node_seq()[i], item);
        lemma_same_mono_sym_trans(g.node_seq()[i], item, g.node_seq()[n]);
        lemma_same_mono_sym(item, g.node_seq()[n]);
        lemma_same_mono_sym_trans(g.node_seq()[i], g.node_seq()[n], g.node_seq()[n]);
        if i != n {
            if i < n {
                assert(!same_mono(g.node_seq()[i], g.node_seq()[n]));
            } else {
                assert(!same_mono(g.node_seq()[n], g.node_seq()[i]));
                lemma_same_mono_sym(g.node_seq()[n], g.node_seq()[i]);
            }
        }
        assert(i == n);
    }
}

proof fn lemma_back_edges_of_node(g: CallGraph, n: int, item: MonoItem, a: MonoItem)
    requires
        g.wf(),
        0 <= n < g.node_seq().len(),
        same_mono(g.node_seq()[n], item),
    ensures
        items_have(g.in_edges(n), a) <==> g.has_back_edge_any(item, a),
{
    if items_have(g.in_edges(n), a) {
        let k = choose|k: int| 0 <= k < g.in_edges(n).len() && same_mono((#[trigger] g.in_edges(n)[k]).item, a);
        assert(g.has_back_edge(item, a, g.in_edges(n)[k].reason));
    }
    if g.has_back_edge_any(item, a) {
        let rs = choose|rs: CollectionReason| #[trigger] g.has_back_edge(item, a, rs);
        let (i, k) = choose|i: int, k: int|
            0 <= i < g.node_seq().len() && 0 <= k < g.in_edges(i).len() && same_mono(#[trigger] g.node_seq()[i], item)
                && same_mono((#[trigger] g.in_edges(i)[k]).item, a) && g.in_edges(i)[k].reason == rs;
        lemma_same_mono_sym(g.node_seq()[i], item);
        lemma_same_mono_sym_trans(g.node_seq()[i], item, g.node_seq()[n]);
        lemma_same_mono_sym(item, g.node_seq()[n]);
        if i != n {
            if i < n {
                assert(!same_mono(g.node_seq()[i], g.node_seq()[n]));
            } else {
                assert(!same_mono(g.node_seq()[n], g.node_seq()[i]));
                lemma_same_mono_sym(g.node_seq()[n], g.node_seq()[i]);
            }
        }
        assert(i == n);
    }
}


// ---------------------------------------------------------------------------
// Building the graph
// ---------------------------------------------------------------------------

/// The item among `items` that is this instance, if any.
fn item_for<'a>(items: &'a [AnalyzedItem], instance: &Instance) -> (r: Option<&'a AnalyzedItem>)
    ensures
        match r {
            Some(it) => exists|i: int| 0 <= i < items@.len() && items@[i] == *it && same_instance(it.instance, *instance),
            None => forall|i: int| 0 <= i < items@.len() ==> !same_instance(#[trigger] items@[i].instance, *instance),
        },
{
    let mut i: usize = 0;
    while i < items.len()
        invariant
            i <= items@.len(),
            forall|j: int| 0 <= j < i ==> !same_instance(#[trigger] items@[j].instance, *instance),
        decreases items@.len() - i,
    {
        if instance_eq(&items[i].instance, instance) {
            return Some(&items[i]);
        }
        i = i + 1;
    }
    None
}

/// What one body calls, drops and names.
struct FnCollector<'a> {
    collected: Vec<CollectedItem>,
    body: &'a Body,
    table: &'a TyTable,
}

impl<'a> FnCollector<'a> {
    /// Records an edge to `instance` where it has a body among `items`.
    fn collect_instance(
        &mut self,
        instance: Instance,
        is_direct_call: bool,
        location: Option<CallSiteLocation>,
        items: &[AnalyzedItem],
    )
        ensures
            final(self).body == old(self).body,
            final(self).table == old(self).table,
            (exists|i: int| 0 <= i < items@.len() && same_instance(#[trigger] items@[i].instance, instance))
                ==> final(self).collected@ == old(self).collected@.push(
                CollectedItem {
                    item: MonoItem::Instance(instance),
                    reason: if is_direct_call {
                        CollectionReason::DirectCall
                    } else {
                        CollectionReason::IndirectCall
                    },
                    location,
                },
            ),
            !(exists|i: int| 0 <= i < items@.len() && same_instance(#[trigger] items@[i].instance, instance))
                ==> final(self).collected@ == old(self).collected@,
    {
        if item_for(items, &instance).is_none() {
            return;
        }
        let reason = if is_direct_call {
            CollectionReason::DirectCall
        } else {
            CollectionReason::IndirectCall
        };
        self.collected.push(CollectedItem { item: MonoItem::Instance(instance), reason, location });
    }

    /// Whether an instance is a `thread::spawn`.
    fn is_thread_spawn(&self, instance: &Instance) -> (r: bool)
        ensures
            r == crate::text::has_sub(instance.name_spec(), "thread::spawn"@),
    {
        let name = instance.name();
        let chars = crate::text::chars_of(name.as_str());
        crate::text::vec_has(&chars, "thread::spawn")
    }

    /// A call edge for a call of a function item, and one for the closure
    /// handed to a `thread::spawn`; a drop edge for a drop.
    fn visit_terminator(&mut self, kind: &TerminatorKind, location: Location, items: &[AnalyzedItem])
        ensures
            final(self).body == old(self).body,
            final(self).table == old(self).table,
            final(self).collected@ == old(self).collected@,
    {
        match kind {
            TerminatorKind::Call { func, args, .. } => {
                let fn_ty = match func.ty(self.body.locals(), self.table) {
                    Ok(t) => t,
                    Err(_) => return,
                };
                match self.table.kind(&fn_ty) {
                    Some(TyKind::RigidTy(RigidTy::FnDef(fn_def, args_ty))) => {
                        match Instance::resolve(*fn_def, args_ty.as_slice()) {
                            Ok(instance) => {
                                let is_spawn = self.is_thread_spawn(&instance);
                                let call_site_loc = CallSiteLocation { location, is_thread_spawn: is_spawn };
                                if is_spawn && args.len() > 0 {
                                    match &args[0] {
                                        Operand::Move(place) | Operand::Copy(place) => {
                                            match place.ty(self.body.locals(), self.table) {
                                                Ok(place_ty) => match self.table.kind(&place_ty) {
                                                    Some(TyKind::RigidTy(RigidTy::Closure(closure_def, closure_args))) => {
                                                        match Instance::resolve(*closure_def, closure_args.as_slice()) {
                                                            Ok(closure_instance) => {
                                                                self.collect_instance(
                                                                    closure_instance,
                                                                    true,
                                                                    Some(call_site_loc),
                                                                    items,
                                                                );
                                                            },
                                                            Err(_) => {},
                                                        }
                                                    },
                                                    _ => {},
                                                },
                                                Err(_) => {},
                                            }
                                        },
                                        _ => {},
                                    }
                                }
                                self.collect_instance(instance, true, Some(call_site_loc), items);
                            },
                            Err(_) => {},
                        }
                    },
                    _ => {},
                }
            },
            _ => {},
        }
    }

    /// An edge for each function item among the types of the locals.
    fn visit_local_types(&mut self, items: &[AnalyzedItem])
        ensures
            final(self).body == old(self).body,
            final(self).table == old(self).table,
            final(self).collected@ == old(self).collected@,
    {
        let locals = self.body.locals();
        let mut i: usize = 0;
        while i < locals.len()
            invariant
                self.body == old(self).body,
                self.table == old(self).table,
                self.collected@ == old(self).collected@,
                locals@ == self.body.locals_spec(),
                i <= locals@.len(),
            decreases locals@.len() - i,
        {
            let ty = locals[i].ty;
            match self.table.kind(&ty) {
                Some(TyKind::RigidTy(RigidTy::FnDef(fn_def, args))) => {
                    match Instance::resolve(*fn_def, args.as_slice()) {
                        Ok(instance) => self.collect_instance(instance, true, None, items),
                        Err(_) => {},
                    }
                },
                _ => {},
            }
            i = i + 1;
        }
    }

    /// Walks the whole body; with instances resolved only by a compiler
    /// session, nothing is collected.
    fn visit_body(&mut self, items: &[AnalyzedItem])
        ensures
            final(self).collected@ == old(self).collected@,
    {
        let body = self.body;
        let blocks = body.basic_blocks();
        let mut b: usize = 0;
        while b < blocks.len()
            invariant
                self.collected@ == old(self).collected@,
                self.body == body,
                b <= blocks@.len(),
            decreases blocks@.len() - b,
        {
            let loc = Location::new(b, blocks[b].statements.len());
            self.visit_terminator(&blocks[b].terminator.kind, loc, items);
            b = b + 1;
        }
        self.visit_local_types(items);
    }
}

/// The collector: the items reached so far, those waiting, and the graph.
struct CallGraphCollector {
    collected: Vec<MonoItem>,
    queue: Vec<MonoItem>,
    call_graph: CallGraph,
}

impl CallGraphCollector {
    fn new() -> (r: Self)
        ensures
            r.call_graph.wf(),
            r.call_graph.node_seq().len() == 0,
            r.collected@.len() == 0,
            r.queue@.len() == 0,
    {
        CallGraphCollector { collected: Vec::new(), queue: Vec::new(), call_graph: CallGraph::new() }
    }

    /// Whether `item` was reached already.
    fn is_collected(&self, item: &MonoItem) -> (r: bool)
        ensures
            r == seq_has(self.collected@, *item),
    {
        let mut i: usize = 0;
        while i < self.collected.len()
            invariant
                i <= self.collected@.len(),
                forall|j: int| 0 <= j < i ==> !same_mono(#[trigger] self.collected@[j], *item),
            decreases self.collected@.len() - i,
        {
            if mono_eq(&self.collected[i], item) {
                return true;
            }
            i = i + 1;
        }
        false
    }

    /// Starts from every item of the crate and walks what they reach.
    fn collect_crate(&mut self, items: &[AnalyzedItem], table: &TyTable)
        requires
            old(self).call_graph.wf(),
            forall|x: MonoItem| #[trigger] seq_has(old(self).collected@, x) ==> old(self).call_graph.has_node(x),
        ensures
            final(self).call_graph.wf(),
            old(self).call_graph.no_edges() ==> final(self).call_graph.no_edges(),
            forall|i: int| 0 <= i < items@.len() ==> final(self).call_graph.has_node(MonoItem::Instance((#[trigger] items@[i]).instance)),
    {
        let mut i: usize = 0;
        while i < items.len()
            invariant
                self.call_graph.wf(),
                self.call_graph == old(self).call_graph,
                self.collected@ == old(self).collected@,
                forall|x: MonoItem| #[trigger] seq_has(self.collected@, x) ==> self.call_graph.has_node(x),
                i <= items@.len(),
                forall|j: int| 0 <= j < i ==> seq_has(self.collected@, MonoItem::Instance((#[trigger] items@[j]).instance))
                    || seq_has(self.queue@, MonoItem::Instance(items@[j].instance)),
            decreases items@.len() - i,
        {
            let mono_item = MonoItem::Instance(copy_instance(&items[i].instance));
            if !self.is_collected(&mono_item) {
                let ghost q0 = self.queue@;
                let ghost m = mono_item;
                self.queue.push(mono_item);
                proof {
                    assert(same_mono(m, MonoItem::Instance(items@[i as int].instance)));
                    assert(self.queue@[q0.len() as int] == m);
                    assert forall|j: int| 0 <= j < i + 1 implies seq_has(self.collected@, MonoItem::Instance((#[trigger] items@[j]).instance))
                        || seq_has(self.queue@, MonoItem::Instance(items@[j].instance)) by {
                        if j < i {
                            if seq_has(q0, MonoItem::Instance(items@[j].instance)) {
                                let k = choose|k: int| 0 <= k < q0.len() && same_mono(#[trigger] q0[k], MonoItem::Instance(items@[j].instance));
                                assert(self.queue@[k] == q0[k]);
                            }
                        } else {
                            assert(same_mono(self.queue@[q0.len() as int], MonoItem::Instance(items@[j].instance)));
                        }
                    }
                }
            } else {
                proof {
                    let k = choose|k: int| 0 <= k < self.collected@.len() && same_mono(#[trigger] self.collected@[k], mono_item);
                    lemma_same_mono_sym_trans(self.collected@[k], mono_item, MonoItem::Instance(items@[i as int].instance));
                }
            }
            i = i + 1;
        }
        self.reachable_items(items, table);
        proof {
            assert forall|i: int| 0 <= i < items@.len() implies self.call_graph.has_node(MonoItem::Instance((#[trigger] items@[i]).instance)) by {
            }
        }
    }

    /// Takes items off the queue until it is empty; each item not reached
    /// before becomes a node with an edge to each item it calls, which join
    /// the queue.
    fn reachable_items(&mut self, items: &[AnalyzedItem], table: &TyTable)
        requires
            old(self).call_graph.wf(),
            forall|x: MonoItem| #[trigger] seq_has(old(self).collected@, x) ==> old(self).call_graph.has_node(x),
        ensures
            final(self).call_graph.wf(),
            old(self).call_graph.no_edges() ==> final(self).call_graph.no_edges(),
            final(self).queue@.len() == 0,
            forall|x: MonoItem| #[trigger] seq_has(old(self).collected@, x) ==> seq_has(final(self).collected@, x),
            forall|x: MonoItem| #[trigger] seq_has(old(self).queue@, x) ==> seq_has(final(self).collected@, x),
            forall|x: MonoItem| #[trigger] seq_has(final(self).collected@, x) ==> final(self).call_graph.has_node(x),
    {
        let ghost c0 = self.collected@;
        let ghost q0 = self.queue@;
        let ghost ne0 = self.call_graph.no_edges();
        loop
            invariant
                self.call_graph.wf(),
                ne0 ==> self.call_graph.no_edges(),
                forall|x: MonoItem| #[trigger] seq_has(self.collected@, x) ==> self.call_graph.has_node(x),
                forall|x: MonoItem| #[trigger] seq_has(c0, x) ==> seq_has(self.collected@, x),
                forall|x: MonoItem| #[trigger] seq_has(q0, x) ==> seq_has(self.collected@, x) || seq_has(self.queue@, x),
            ensures
                self.call_graph.wf(),
                ne0 ==> self.call_graph.no_edges(),
                self.queue@.len() == 0,
                forall|x: MonoItem| #[trigger] seq_has(self.collected@, x) ==> self.call_graph.has_node(x),
                forall|x: MonoItem| #[trigger] seq_has(c0, x) ==> seq_has(self.collected@, x),
                forall|x: MonoItem| #[trigger] seq_has(q0, x) ==> seq_has(self.collected@, x),
            decreases usize::MAX - self.collected@.len(), self.queue@.len(),
        {
            let n: usize = self.collected.len();
            let ghost cb = self.collected@;
            let ghost qb = self.queue@;
            let to_visit = match self.queue.pop() {
                Some(x) => x,
                None => {
                    proof {
                        assert forall|x: MonoItem| #[trigger] seq_has(q0, x) implies seq_has(self.collected@, x) by {
                            if seq_has(self.queue@, x) {
                                let k = choose|k: int| 0 <= k < self.queue@.len() && same_mono(#[trigger] self.queue@[k], x);
                            }
                        }
                    }
                    break;
                },
            };
            proof {
                assert forall|x: MonoItem| #[trigger] seq_has(qb, x) implies seq_has(self.queue@, x) || same_mono(to_visit, x) by {
                    let k = choose|k: int| 0 <= k < qb.len() && same_mono(#[trigger] qb[k], x);
                    if k < qb.len() - 1 {
                        assert(self.queue@[k] == qb[k]);
                    } else {
                        assert(qb[k] == to_visit);
                    }
                }
            }
            let ghost q1 = self.queue@;
            if !self.is_collected(&to_visit) {
                let ghost cg0 = self.call_graph;
                self.collected.push(copy_mono(&to_visit));
                let n2: usize = self.collected.len();
                let next_items: Vec<CollectedItem> = match &to_visit {
                    MonoItem::Instance(instance) => self.visit_fn(instance, items, table),
                    MonoItem::Static(def) => self.visit_static(*def),
                };
                self.call_graph.add_edges(&to_visit, &next_items);
                let ghost c1 = self.collected@;
                let ghost g1 = self.call_graph;
                let mut k: usize = 0;
                while k < next_items.len()
                    invariant
                        k <= next_items@.len(),
                        self.collected@ == c1,
                        self.call_graph == g1,
                        forall|x: MonoItem| #[trigger] seq_has(q1, x) ==> seq_has(self.queue@, x),
                    decreases next_items@.len() - k,
                {
                    if !self.is_collected(&next_items[k].item) {
                        let ghost qp = self.queue@;
                        self.queue.push(copy_mono(&next_items[k].item));
                        proof {
                            assert forall|x: MonoItem| #[trigger] seq_has(q1, x) implies seq_has(self.queue@, x) by {
                                let j = choose|j: int| 0 <= j < qp.len() && same_mono(#[trigger] qp[j], x);
                                assert(self.queue@[j] == qp[j]);
                            }
                        }
                    }
                    k = k + 1;
                }
                proof {
                    assert forall|x: MonoItem| #[trigger] seq_has(self.collected@, x) implies self.call_graph.has_node(x) by {
                        let k = choose|k: int| 0 <= k < self.collected@.len() && same_mono(#[trigger] self.collected@[k], x);
                        if k < cb.len() {
                            assert(self.collected@[k] == cb[k]);
                            assert(seq_has(cb, x));
                            assert(cg0.has_node(x));
                        } else {
                            let i = choose|i: int| 0 <= i < self.call_graph.node_seq().len() && same_mono(#[trigger] self.call_graph.node_seq()[i], to_visit);
                            lemma_same_mono_sym_trans(self.call_graph.node_seq()[i], to_visit, x);
                            lemma_same_mono_sym(self.collected@[k], to_visit);
                            lemma_same_mono_sym_trans(self.call_graph.node_seq()[i], to_visit, self.collected@[k]);
                            lemma_same_mono_sym_trans(to_visit, self.collected@[k], x);
                        }
                    }
                    assert forall|x: MonoItem| #[trigger] seq_has(cb, x) implies seq_has(self.collected@, x) by {
                        let k = choose|k: int| 0 <= k < cb.len() && same_mono(#[trigger] cb[k], x);
                        assert(self.collected@[k] == cb[k]);
                    }
                    assert forall|x: MonoItem| #[trigger] seq_has(q0, x) implies seq_has(self.collected@, x) || seq_has(self.queue@, x) by {
                        if seq_has(cb, x) {
                        } else if seq_has(qb, x) {
                            if same_mono(to_visit, x) {
                                let last = self.collected@.len() - 1;
                                lemma_same_mono_sym_trans(self.collected@[last], to_visit, x);
                                assert(same_mono(self.collected@[last], x));
                            }
                        }
                    }
                }
            } else {
                proof {
                    assert forall|x: MonoItem| #[trigger] seq_has(q0, x) implies seq_has(self.collected@, x) || seq_has(self.queue@, x) by {
                        if seq_has(cb, x) {
                        } else if seq_has(qb, x) {
                            if same_mono(to_visit, x) {
                                let k = choose|k: int| 0 <= k < cb.len() && same_mono(#[trigger] cb[k], to_visit);
                                lemma_same_mono_sym_trans(cb[k], to_visit, x);
                            }
                        }
                    }
                }
            }
        }
    }

    /// The edges out of a static: none.
    fn visit_static(&self, def: crate::stable_mir::mir::StaticDef) -> (r: Vec<CollectedItem>)
        ensures
            r@.len() == 0,
    {
        Vec::new()
    }

    /// The edges out of a function instance: what its body calls, where the
    /// crate gives a body for it.
    fn visit_fn(&self, instance: &Instance, items: &[AnalyzedItem], table: &TyTable) -> (r: Vec<CollectedItem>)
        ensures
            r@.len() == 0,
    {
        match item_for(items, instance) {
            Some(item) => {
                let mut collector = FnCollector { collected: Vec::new(), body: &item.body, table };
                collector.visit_body(items);
                collector.collected
            },
            None => Vec::new(),
        }
    }
}

impl CallGraph {
    /// Builds the graph of the crate's items: a node for each item and for
    /// each instance they reach, and an edge for each call.
    pub fn analyze(&mut self, items: &[AnalyzedItem], table: &TyTable)
        ensures
            final(self).wf(),
            final(self).no_edges(),
            forall|i: int| 0 <= i < items@.len() ==> final(self).has_node(MonoItem::Instance((#[trigger] items@[i]).instance)),
            final(self).closure_seq() == old(self).closure_seq(),
    {
        let mut collector = CallGraphCollector::new();
        assert(collector.call_graph.no_edges());
        assert forall|x: MonoItem| #[trigger] seq_has(collector.collected@, x) implies collector.call_graph.has_node(x) by {}
        collector.collect_crate(items, table);
        let ghost cs = self.closure_seq();
        self.nodes = collector.call_graph.nodes;
        self.edges = collector.call_graph.edges;
        self.back_edges = collector.call_graph.back_edges;
        proof {
            assert forall|i: int| 0 <= i < items@.len() implies self.has_node(MonoItem::Instance((#[trigger] items@[i]).instance)) by {
                assert(collector.call_graph.has_node(MonoItem::Instance(items@[i].instance)));
                let k = choose|k: int| 0 <= k < collector.call_graph.node_seq().len() && same_mono(#[trigger] collector.call_graph.node_seq()[k], MonoItem::Instance(items@[i].instance));
                assert(self.node_seq()[k] == collector.call_graph.node_seq()[k]);
            }
            assert forall|i: int| 0 <= i < self.node_seq().len() implies (#[trigger] self.out_edges(i)).len() == 0 by {
                assert(self.out_edges(i) == collector.call_graph.out_edges(i));
            }
        }
    }

    /// The records of every closure that `creator` makes, in the order of its edges.
    pub fn get_closures_created_in(&self, creator: &MonoItem) -> (r: Vec<&ClosureInfo>)
        requires
            self.wf(),
        ensures
            !self.has_node(*creator) ==> r@.len() == 0,
            forall|i: int|
                0 <= i < self.node_seq().len() && same_mono(#[trigger] self.node_seq()[i], *creator) ==> r@.map_values(
                    |x: &ClosureInfo| *x,
                ) == created_infos(self.closure_seq(), self.out_edges(i), self.out_edges(i).len() as int),
    {
        let mut closures: Vec<&ClosureInfo> = Vec::new();
        match self.find_node(creator) {
            Some(n) => {
                let edges = &self.edges[n];
                let mut k: usize = 0;
                while k < edges.len()
                    invariant
                        k <= edges@.len(),
                        closures@.map_values(|x: &ClosureInfo| *x) == created_infos(self.closure_seq(), edges@, k as int),
                    decreases edges@.len() - k,
                {
                    let ghost c0 = closures@.map_values(|x: &ClosureInfo| *x);
                    if edges[k].reason == CollectionReason::ClosureCreation {
                        match &edges[k].item {
                            MonoItem::Instance(instance) => {
                                let infos = self.get_closure_info(instance);
                                let mut j: usize = 0;
                                while j < infos.len()
                                    invariant
                                        j <= infos@.len(),
                                        closures@.map_values(|x: &ClosureInfo| *x) == c0 + infos@.take(j as int),
                                    decreases infos@.len() - j,
                                {
                                    let ghost pv = closures@;
                                    closures.push(&infos[j]);
                                    assert(closures@.map_values(|x: &ClosureInfo| *x) =~= pv.map_values(|x: &ClosureInfo| *x).push(
                                        infos@[j as int],
                                    ));
                                    assert(infos@.take(j + 1) =~= infos@.take(j as int).push(infos@[j as int]));
                                    j = j + 1;
                                    assert(closures@.map_values(|x: &ClosureInfo| *x) =~= c0 + infos@.take(j as int));
                                }
                                assert(infos@.take(infos@.len() as int) =~= infos@);
                            },
                            _ => {},
                        }
                    }
                    assert(closures@.map_values(|x: &ClosureInfo| *x) =~= created_infos(self.closure_seq(), edges@, k + 1));
                    k = k + 1;
                }
                proof {
                    assert forall|i: int|
                        0 <= i < self.node_seq().len() && same_mono(#[trigger] self.node_seq()[i], *creator) implies i == n by {
                        lemma_same_mono_sym_trans(self.node_seq()[i], *creator, self.node_seq()[n as int]);
                        lemma_same_mono_sym(self.node_seq()[n as int], *creator);
                        lemma_same_mono_sym(self.node_seq()[i], self.node_seq()[n as int]);
                    }
                    assert(edges@ == self.out_edges(n as int));
                }
            },
            None => {},
        }
        closures
    }
}

} // verus!
