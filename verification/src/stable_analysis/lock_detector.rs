//! Deadlock detection over lock guards: guards of the same mutex held together (double
//! locks), and cycles among the orders in which mutexes are taken (conflicting locks).

use vstd::prelude::*;

use crate::stable_analysis::lock_identity::{identity_text, same_mutex_spec, MutexIdentity, MutexIdentityAnalyzer};
use crate::stable_analysis::lock_lifecycle::LockLifecycleCollector;
use crate::stable_analysis::lock_types::{
    alive_at, copy_instance, deadlock_with_spec, guard_data, guard_head, instance_eq, loc_le, same_guard,
    same_instance, same_ty, same_ty_text, AnalyzedItem, DeadlockPossibility, LockGuardId, LockGuardInfo,
    LockGuardTy, MirLocation,
};
use crate::stable_mir::mir::Instance;
use crate::stable_mir::ty::{Ty, TyTable};
use crate::text::{push_decimal, string_of, views};

verus! {

broadcast use {vstd::seq_lib::lemma_seq_contains_after_push, vstd::seq::Seq::lemma_push_to_set_commute};

/// Whether `a` and `b` are the same type: the session prints them alike.
pub fn ty_equal(a: &Ty, b: &Ty, table: &TyTable) -> (r: bool)
    ensures
        r == same_ty_text(*table, *a, *b),
{
    same_ty(table, a, b)
}

// ---------------------------------------------------------------------------
// The lock graph
// ---------------------------------------------------------------------------

/// The graph of lock orders: an edge from one mutex to another where the second is taken
/// while the first is held, with the locations where that happens.
pub struct LockGraph {
    nodes: Vec<(Instance, String, usize)>,
    edges: Vec<((String, String), Vec<MirLocation>)>,
}

/// The entries name each edge once.
pub open spec fn edges_unique(edges: Seq<((String, String), Vec<MirLocation>)>) -> bool {
    forall|i: int, j: int|
        0 <= i < edges.len() && 0 <= j < edges.len() && (#[trigger] edges[i]).0.0@ == (#[trigger] edges[j]).0.0@
            && edges[i].0.1@ == edges[j].0.1@ ==> i == j
}

/// There is an edge from `a` to `b`.
pub open spec fn has_edge(edges: Seq<((String, String), Vec<MirLocation>)>, a: Seq<char>, b: Seq<char>) -> bool {
    exists|i: int| 0 <= i < edges.len() && (#[trigger] edges[i]).0.0@ == a && edges[i].0.1@ == b
}


/// `c` is a cycle of the lock-order graph: distinct mutexes, each with an edge to the
/// next, and the last with one to the first.
pub open spec fn is_cycle(edges: Seq<((String, String), Vec<MirLocation>)>, c: Seq<Seq<char>>) -> bool {
    &&& c.len() >= 1
    &&& c.no_duplicates()
    &&& forall|k: int| 0 <= k < c.len() - 1 ==> has_edge(edges, #[trigger] c[k], c[k + 1])
    &&& has_edge(edges, c.last(), c[0])
}

/// The number of entries not yet marked.
pub open spec fn unmarked(v: Seq<bool>) -> nat
    decreases v.len(),
{
    if v.len() == 0 {
        0
    } else {
        unmarked(v.drop_last()) + if v.last() {
            0nat
        } else {
            1nat
        }
    }
}

/// Marking more entries leaves fewer unmarked, strictly fewer where a new one is marked.
proof fn lemma_unmarked_mono(a: Seq<bool>, b: Seq<bool>, k: int)
    requires
        a.len() == b.len(),
        forall|i: int| 0 <= i < a.len() && #[trigger] a[i] ==> b[i],
    ensures
        unmarked(b) <= unmarked(a),
        0 <= k < a.len() && !a[k] && b[k] ==> unmarked(b) < unmarked(a),
    decreases a.len(),
{
    if a.len() > 0 {
        let a2 = a.drop_last();
        let b2 = b.drop_last();
        assert forall|i: int| 0 <= i < a2.len() && #[trigger] a2[i] implies b2[i] by {
            assert(a[i]);
        }
        lemma_unmarked_mono(a2, b2, k);
    }
}

/// A path that is a prefix of another path is a path.
proof fn lemma_suffix_cycle(
    edges: Seq<((String, String), Vec<MirLocation>)>,
    names: Seq<Seq<char>>,
    stack: Seq<usize>,
    p: int,
    node: usize,
)
    requires
        0 <= p < stack.len(),
        stack.last() == node,
        stack.no_duplicates(),
        forall|i: int| 0 <= i < stack.len() ==> (#[trigger] stack[i]) < names.len(),
        names.no_duplicates(),
        forall|k: int| 0 <= k < stack.len() - 1 ==> has_edge(edges, names[#[trigger] stack[k] as int], names[stack[k + 1] as int]),
        has_edge(edges, names[node as int], names[stack[p] as int]),
    ensures
        is_cycle(edges, stack.subrange(p, stack.len() as int).map_values(|i: usize| names[i as int])),
{
    let c = stack.subrange(p, stack.len() as int).map_values(|i: usize| names[i as int]);
    assert forall|k: int| 0 <= k < c.len() - 1 implies has_edge(edges, #[trigger] c[k], c[k + 1]) by {
        assert(c[k] == names[stack[p + k] as int]);
        assert(c[k + 1] == names[stack[p + k + 1] as int]);
    }
    assert forall|a: int, b: int| 0 <= a < b < c.len() implies c[a] != c[b] by {
        assert(stack[p + a] != stack[p + b]);
    }
    assert(c.last() == names[node as int]);
}

impl LockGraph {
    /// Each edge is listed once.
    pub closed spec fn wf(&self) -> bool {
        edges_unique(self.edges@)
    }

    /// The edges of the graph.
    pub closed spec fn edges_spec(&self) -> Seq<((String, String), Vec<MirLocation>)> {
        self.edges@
    }

    /// A graph without nodes or edges.
    pub fn new() -> (r: Self)
        ensures
            r.wf(),
            r.edges_spec().len() == 0,
    {
        Self { nodes: Vec::new(), edges: Vec::new() }
    }

    /// Records that `to` is taken at `loc` while `from` is held.
    pub fn add_edge(&mut self, from: String, to: String, loc: MirLocation)
        requires
            old(self).wf(),
        ensures
            final(self).wf(),
            forall|a: Seq<char>, b: Seq<char>| #[trigger] has_edge(final(self).edges_spec(), a, b) <==> (has_edge(
                old(self).edges_spec(),
                a,
                b,
            ) || (a == from@ && b == to@)),
    {
        let mut i: usize = 0;
        while i < self.edges.len()
            invariant
                i <= self.edges@.len(),
                self.edges@ == old(self).edges@,
                edges_unique(self.edges@),
                forall|k: int| 0 <= k < i ==> !((#[trigger] self.edges@[k]).0.0@ == from@ && self.edges@[k].0.1@ == to@),
            decreases self.edges@.len() - i,
        {
            if self.edges[i].0.0 == from && self.edges[i].0.1 == to {
                let ghost old_edges = self.edges@;
                let mut entry = self.edges.remove(i);
                entry.1.push(loc);
                self.edges.insert(i, entry);
                proof {
                    let e = self.edges@;
                    assert forall|a: int| 0 <= a < e.len() implies e[a].0 == old_edges[a].0 by {}
                    assert forall|a: int, b: int|
                        0 <= a < e.len() && 0 <= b < e.len() && (#[trigger] e[a]).0.0@ == (#[trigger] e[b]).0.0@
                            && e[a].0.1@ == e[b].0.1@ implies a == b by {
                        assert(e[a].0 == old_edges[a].0);
                        assert(e[b].0 == old_edges[b].0);
                    }
                    assert forall|a: Seq<char>, b: Seq<char>| #[trigger] has_edge(e, a, b) <==> (has_edge(old_edges, a, b) || (
                    a == from@ && b == to@)) by {
                        if has_edge(e, a, b) {
                            let k = choose|k: int| 0 <= k < e.len() && (#[trigger] e[k]).0.0@ == a && e[k].0.1@ == b;
                            assert(e[k].0 == old_edges[k].0);
                        }
                        if has_edge(old_edges, a, b) {
                            let k = choose|k: int| 0 <= k < old_edges.len() && (#[trigger] old_edges[k]).0.0@ == a && old_edges[k].0.1@ == b;
                            assert(e[k].0 == old_edges[k].0);
                        }
                        if a == from@ && b == to@ {
                            assert(e[i as int].0 == old_edges[i as int].0);
                        }
                    }
                }
                return;
            }
            i = i + 1;
        }
        let ghost old_edges = self.edges@;
        let mut v: Vec<MirLocation> = Vec::new();
        v.push(loc);
        self.edges.push(((from, to), v));
        proof {
            let e = self.edges@;
            let last = e.len() - 1;
            assert forall|a: int, b: int|
                0 <= a < e.len() && 0 <= b < e.len() && (#[trigger] e[a]).0.0@ == (#[trigger] e[b]).0.0@
                    && e[a].0.1@ == e[b].0.1@ implies a == b by {
                if a < last && b < last {
                    assert(e[a] == old_edges[a] && e[b] == old_edges[b]);
                } else if a < last {
                    assert(e[a] == old_edges[a]);
                } else if b < last {
                    assert(e[b] == old_edges[b]);
                }
            }
            assert forall|a: Seq<char>, b: Seq<char>| #[trigger] has_edge(e, a, b) <==> (has_edge(old_edges, a, b) || (a
                == from@ && b == to@)) by {
                if has_edge(e, a, b) {
                    let k = choose|k: int| 0 <= k < e.len() && (#[trigger] e[k]).0.0@ == a && e[k].0.1@ == b;
                    if k < last {
                        assert(e[k] == old_edges[k]);
                    }
                }
                if has_edge(old_edges, a, b) {
                    let k = choose|k: int| 0 <= k < old_edges.len() && (#[trigger] old_edges[k]).0.0@ == a && old_edges[k].0.1@ == b;
                    assert(e[k] == old_edges[k]);
                }
                if a == from@ && b == to@ {
                    assert(e[last].0.0@ == a);
                }
            }
        }
    }

    /// Whether there is an edge from `a` to `b`.
    fn edge_from(&self, a: &String, b: &String) -> (r: bool)
        ensures
            r == has_edge(self.edges@, a@, b@),
    {
        let mut i: usize = 0;
        while i < self.edges.len()
            invariant
                i <= self.edges@.len(),
                forall|k: int| 0 <= k < i ==> !((#[trigger] self.edges@[k]).0.0@ == a@ && self.edges@[k].0.1@ == b@),
            decreases self.edges@.len() - i,
        {
            if self.edges[i].0.0 == *a && self.edges[i].0.1 == *b {
                return true;
            }
            i = i + 1;
        }
        false
    }

    /// The mutexes that occur in some edge, each once, in the order they first occur.
    fn node_names(&self) -> (r: Vec<String>)
        ensures
            views_nodup(r@),
            crate::text::views(r@) == names_upto(self.edges_spec(), self.edges_spec().len() as int),
    {
        let mut r: Vec<String> = Vec::new();
        let mut i: usize = 0;
        while i < self.edges.len()
            invariant
                i <= self.edges@.len(),
                views_nodup(r@),
                crate::text::views(r@) == names_upto(self.edges@, i as int),
            decreases self.edges@.len() - i,
        {
            let from = self.edges[i].0.0.clone();
            push_name(&mut r, from);
            let to = self.edges[i].0.1.clone();
            push_name(&mut r, to);
            i = i + 1;
        }
        r
    }

    /// The cycles of the lock-order graph as a depth-first walk from each mutex in
    /// turn finds them: each edge that reaches a mutex still on the walk's stack
    /// closes the cycle from that mutex to the top of the stack. None is found
    /// exactly where the graph has no cycle.
    pub fn find_cycles(&self) -> (r: Vec<Vec<String>>)
        ensures
            forall|k: int| 0 <= k < r@.len() ==> is_cycle(self.edges_spec(), crate::text::views((#[trigger] r@[k])@)),
            r@.len() == 0 <==> !exists|c: Seq<Seq<char>>| #[trigger] is_cycle(self.edges_spec(), c),
    {
        let mut cycles: Vec<Vec<String>> = Vec::new();
        let nodes = self.node_names();
        let ghost names = crate::text::views(nodes@);
        let mut visited: Vec<bool> = Vec::new();
        let mut i: usize = 0;
        while i < nodes.len()
            invariant
                i <= nodes@.len(),
                visited@.len() == i,
                forall|k: int| 0 <= k < i ==> !(#[trigger] visited@[k]),
            decreases nodes@.len() - i,
        {
            visited.push(false);
            i = i + 1;
        }
        let mut rec_stack: Vec<usize> = Vec::new();
        let mut order: Ghost<Seq<usize>> = Ghost(Seq::empty());
        let mut n: usize = 0;
        while n < nodes.len()
            invariant
                n <= nodes@.len(),
                names == crate::text::views(nodes@),
                views_nodup(nodes@),
                visited@.len() == nodes@.len(),
                rec_stack@.len() == 0,
                forall|k: int| 0 <= k < cycles@.len() ==> is_cycle(self.edges@, crate::text::views((#[trigger] cycles@[k])@)),
                forall|x: int| 0 <= x < n ==> #[trigger] visited@[x],
                forall|x: int| 0 <= x < visited@.len() ==> (#[trigger] visited@[x] <==> order@.contains(x as usize)),
                order@.no_duplicates(),
                forall|k: int| 0 <= k < order@.len() ==> (#[trigger] order@[k]) < nodes@.len(),
                cycles@.len() == 0 ==> finished_ok(self.edges@, names, order@),
            decreases nodes@.len() - n,
        {
            if !visited[n] {
                proof {
                    assert forall|x: int| 0 <= x < visited@.len() implies (#[trigger] visited@[x] <==> (rec_stack@.contains(
                        x as usize,
                    ) || order@.contains(x as usize))) by {}
                }
                let ghost vb = visited@;
                let ghost cb = cycles@.len();
                self.dfs_cycle(n, &nodes, &mut visited, &mut rec_stack, &mut cycles, &mut order);
                proof {
                    assert forall|x: int| 0 <= x < n + 1 implies #[trigger] visited@[x] by {
                        if x < n {
                            assert(vb[x]);
                        }
                    }
                    assert forall|x: int| 0 <= x < visited@.len() implies (#[trigger] visited@[x] <==> order@.contains(x as usize)) by {
                        assert(rec_stack@.len() == 0);
                        if rec_stack@.contains(x as usize) {
                            let w = choose|w: int| 0 <= w < rec_stack@.len() && rec_stack@[w] == x as usize;
                        }
                    }
                }
            }
            n = n + 1;
        }
        proof {
            if cycles@.len() == 0 {
                assert forall|x: int| 0 <= x < names.len() implies #[trigger] order@.contains(x as usize) by {
                    assert(visited@[x]);
                }
                assert(names.no_duplicates()) by {
                    assert forall|a: int, b: int| 0 <= a < b < names.len() implies names[a] != names[b] by {
                        assert(names[a] == nodes@[a]@ && names[b] == nodes@[b]@);
                    }
                }
                lemma_names_cover(self.edges@, self.edges@.len() as int);
                lemma_acyclic(self.edges@, names, order@);
            } else {
                assert(is_cycle(self.edges_spec(), crate::text::views(cycles@[0]@)));
            }
        }
        cycles
    }

    /// Walks depth first from mutex `node` along the edges, recording each cycle
    /// closed on the stack; `order` gets the mutexes whose walk is finished, in
    /// the order they finish.
    fn dfs_cycle(
        &self,
        node: usize,
        all_nodes: &Vec<String>,
        visited: &mut Vec<bool>,
        rec_stack: &mut Vec<usize>,
        cycles: &mut Vec<Vec<String>>,
        order: &mut Ghost<Seq<usize>>,
    )
        requires
            node < all_nodes@.len(),
            views_nodup(all_nodes@),
            old(visited)@.len() == all_nodes@.len(),
            !old(visited)@[node as int],
            old(rec_stack)@.no_duplicates(),
            forall|i: int| 0 <= i < old(rec_stack)@.len() ==> (#[trigger] old(rec_stack)@[i]) < all_nodes@.len() && old(visited)@[old(rec_stack)@[i] as int],
            forall|k: int| 0 <= k < old(rec_stack)@.len() - 1 ==> has_edge(self.edges@, all_nodes@[#[trigger] old(rec_stack)@[k] as int]@, all_nodes@[old(rec_stack)@[k + 1] as int]@),
            old(rec_stack)@.len() > 0 ==> has_edge(self.edges@, all_nodes@[old(rec_stack)@.last() as int]@, all_nodes@[node as int]@),
            forall|k: int| 0 <= k < old(cycles)@.len() ==> is_cycle(self.edges@, crate::text::views((#[trigger] old(cycles)@[k])@)),
            forall|x: int| 0 <= x < old(visited)@.len() ==> (#[trigger] old(visited)@[x] <==> (old(rec_stack)@.contains(x as usize) || old(order)@.contains(x as usize))),
            old(order)@.no_duplicates(),
            forall|k: int| 0 <= k < old(order)@.len() ==> (#[trigger] old(order)@[k]) < all_nodes@.len(),
        ensures
            final(visited)@.len() == old(visited)@.len(),
            final(visited)@[node as int],
            forall|i: int| 0 <= i < old(visited)@.len() && #[trigger] old(visited)@[i] ==> final(visited)@[i],
            final(rec_stack)@ == old(rec_stack)@,
            forall|k: int| 0 <= k < final(cycles)@.len() ==> is_cycle(self.edges@, crate::text::views((#[trigger] final(cycles)@[k])@)),
            final(cycles)@.len() >= old(cycles)@.len(),
            forall|x: int| 0 <= x < final(visited)@.len() ==> (#[trigger] final(visited)@[x] <==> (final(rec_stack)@.contains(x as usize) || final(order)@.contains(x as usize))),
            final(order)@.no_duplicates(),
            forall|k: int| 0 <= k < final(order)@.len() ==> (#[trigger] final(order)@[k]) < all_nodes@.len(),
            final(order)@.len() >= old(order)@.len(),
            forall|k: int| 0 <= k < old(order)@.len() ==> #[trigger] final(order)@[k] == old(order)@[k],
            forall|k: int| old(order)@.len() <= k < final(order)@.len() ==> !old(visited)@[#[trigger] final(order)@[k] as int],
            final(order)@.contains(node),
            finished_ok(self.edges@, crate::text::views(all_nodes@), old(order)@) && final(cycles)@.len() == old(cycles)@.len()
                ==> finished_ok(self.edges@, crate::text::views(all_nodes@), final(order)@),
        decreases unmarked(old(visited)@),
    {
        let ghost names = crate::text::views(all_nodes@);
        let ghost v0 = visited@;
        let ghost o0 = order@;
        let ghost c0 = cycles@.len();
        let n_nodes = all_nodes.len();
        visited.set(node, true);
        proof {
            assert forall|i: int| 0 <= i < rec_stack@.len() implies rec_stack@[i] != node by {}
            crate::seqs::lemma_push_nodup(rec_stack@, node);
        }
        rec_stack.push(node);
        let ghost stack = rec_stack@;
        let ghost v1 = visited@;
        proof {
            lemma_unmarked_mono(v0, v1, node as int);
            assert forall|k: int| 0 <= k < stack.len() - 1 implies has_edge(self.edges@, names[#[trigger] stack[k] as int], names[stack[k + 1] as int]) by {
                assert(names[stack[k] as int] == all_nodes@[stack[k] as int]@);
                assert(names[stack[k + 1] as int] == all_nodes@[stack[k + 1] as int]@);
            }
            assert(!o0.contains(node));
            assert forall|x: int| 0 <= x < visited@.len() implies (#[trigger] visited@[x] <==> (stack.contains(x as usize)
                || order@.contains(x as usize))) by {
                if x == node {
                    assert(stack[stack.len() - 1] == node);
                } else {
                    assert(visited@[x] == v0[x]);
                    if old(rec_stack)@.contains(x as usize) {
                        let w = choose|w: int| 0 <= w < old(rec_stack)@.len() && old(rec_stack)@[w] == x as usize;
                        assert(stack[w] == x as usize);
                    }
                    if stack.contains(x as usize) {
                        let w = choose|w: int| 0 <= w < stack.len() && stack[w] == x as usize;
                        assert(stack =~= old(rec_stack)@.push(node));
                        assert(stack[stack.len() - 1] == node);
                        assert(x < n_nodes);
                        assert((x as usize) as int == x);
                        assert(w < old(rec_stack)@.len());
                        assert(stack[w] == old(rec_stack)@[w]);
                    }
                }
            }
        }
        let mut j: usize = 0;
        while j < n_nodes
            invariant
                n_nodes == all_nodes@.len(),
                node < all_nodes@.len(),
                names == crate::text::views(all_nodes@),
                views_nodup(all_nodes@),
                rec_stack@ == stack,
                stack.last() == node,
                stack.no_duplicates(),
                forall|i: int| 0 <= i < stack.len() ==> (#[trigger] stack[i]) < all_nodes@.len() && visited@[stack[i] as int],
                forall|k: int| 0 <= k < stack.len() - 1 ==> has_edge(self.edges@, names[#[trigger] stack[k] as int], names[stack[k + 1] as int]),
                visited@.len() == all_nodes@.len(),
                forall|i: int| 0 <= i < v1.len() && #[trigger] v1[i] ==> visited@[i],
                v1.len() == v0.len(),
                v0.len() == all_nodes@.len(),
                v0 == old(visited)@,
                unmarked(v1) < unmarked(v0),
                visited@[node as int],
                forall|i: int| 0 <= i < v0.len() && #[trigger] v0[i] ==> visited@[i],
                forall|k: int| 0 <= k < cycles@.len() ==> is_cycle(self.edges@, crate::text::views((#[trigger] cycles@[k])@)),
                cycles@.len() >= c0,
                c0 == old(cycles)@.len(),
                o0 == old(order)@,
                forall|x: int| 0 <= x < visited@.len() ==> (#[trigger] visited@[x] <==> (stack.contains(x as usize) || order@.contains(x as usize))),
                order@.no_duplicates(),
                forall|k: int| 0 <= k < order@.len() ==> (#[trigger] order@[k]) < all_nodes@.len(),
                order@.len() >= o0.len(),
                forall|k: int| 0 <= k < o0.len() ==> #[trigger] order@[k] == o0[k],
                forall|k: int| o0.len() <= k < order@.len() ==> !v0[#[trigger] order@[k] as int],
                !order@.contains(node),
                finished_ok(self.edges@, names, o0) && cycles@.len() == c0 ==> finished_ok(self.edges@, names, order@)
                    && forall|jj: int| 0 <= jj < j && #[trigger] has_edge(self.edges@, names[node as int], names[jj]) ==> order@.contains(jj as usize),
                j <= all_nodes@.len(),
            decreases all_nodes@.len() - j,
        {
            let ghost ob = order@;
            let ghost cb = cycles@.len();
            if self.edge_from(&all_nodes[node], &all_nodes[j]) {
                proof {
                    assert(names[node as int] == all_nodes@[node as int]@ && names[j as int] == all_nodes@[j as int]@);
                }
                if !visited[j] {
                    proof {
                        lemma_unmarked_mono(v1, visited@, node as int);
                        assert forall|k: int| 0 <= k < stack.len() - 1 implies has_edge(self.edges@, all_nodes@[#[trigger] stack[k] as int]@, all_nodes@[stack[k + 1] as int]@) by {
                            assert(names[stack[k] as int] == all_nodes@[stack[k] as int]@);
                            assert(names[stack[k + 1] as int] == all_nodes@[stack[k + 1] as int]@);
                        }
                    }
                    let ghost vb = visited@;
                    assert(unmarked(visited@) < unmarked(old(visited)@));
                    self.dfs_cycle(j, all_nodes, visited, rec_stack, cycles, order);
                    proof {
                        assert forall|i: int| 0 <= i < v1.len() && #[trigger] v1[i] implies visited@[i] by {
                            assert(vb[i]);
                        }
                        assert forall|i: int| 0 <= i < v0.len() && #[trigger] v0[i] implies visited@[i] by {
                            assert(vb[i]);
                        }
                        assert forall|i: int| 0 <= i < stack.len() implies (#[trigger] stack[i]) < all_nodes@.len() && visited@[stack[i] as int] by {
                            assert(vb[stack[i] as int]);
                        }
                        assert forall|k: int| 0 <= k < o0.len() implies #[trigger] order@[k] == o0[k] by {
                            assert(order@[k] == ob[k]);
                        }
                        assert forall|k: int| o0.len() <= k < order@.len() implies !v0[#[trigger] order@[k] as int] by {
                            if k < ob.len() {
                                assert(order@[k] == ob[k]);
                            } else {
                                assert(!vb[order@[k] as int]);
                            }
                        }
                        if order@.contains(node) {
                            let w = choose|w: int| 0 <= w < order@.len() && order@[w] == node;
                            if w < ob.len() {
                                assert(ob[w] == node);
                            } else {
                                assert(!vb[node as int]);
                            }
                        }
                        if finished_ok(self.edges@, names, o0) && cycles@.len() == c0 {
                            assert forall|jj: int| 0 <= jj < j + 1 && #[trigger] has_edge(self.edges@, names[node as int], names[jj])
                                implies order@.contains(jj as usize) by {
                                if jj < j {
                                    let w = choose|w: int| 0 <= w < ob.len() && ob[w] == jj as usize;
                                    assert(order@[w] == ob[w]);
                                }
                            }
                        }
                    }
                } else {
                    let p = position_of(rec_stack, j);
                    if p < rec_stack.len() {
                        let mut cycle: Vec<String> = Vec::new();
                        let mut q: usize = p;
                        while q < rec_stack.len()
                            invariant
                                p <= q <= stack.len(),
                                rec_stack@ == stack,
                                forall|i: int| 0 <= i < stack.len() ==> (#[trigger] stack[i]) < all_nodes@.len(),
                                names == crate::text::views(all_nodes@),
                                crate::text::views(cycle@) == stack.subrange(p as int, q as int).map_values(|i: usize| names[i as int]),
                            decreases stack.len() - q,
                        {
                            let ghost before = cycle@;
                            cycle.push(all_nodes[rec_stack[q]].clone());
                            proof {
                                assert(crate::text::views(cycle@) =~= crate::text::views(before).push(all_nodes@[stack[q as int] as int]@));
                                assert(stack.subrange(p as int, q + 1).map_values(|i: usize| names[i as int]) =~= stack.subrange(p as int, q as int).map_values(|i: usize| names[i as int]).push(names[stack[q as int] as int]));
                            }
                            q = q + 1;
                        }
                        proof {
                            assert(names[node as int] == all_nodes@[node as int]@);
                            assert(names[stack[p as int] as int] == all_nodes@[j as int]@);
                            assert(names.no_duplicates());
                            lemma_suffix_cycle(self.edges@, names, stack, p as int, node);
                        }
                        let ghost before_cycles = cycles@;
                        cycles.push(cycle);
                        proof {
                            assert forall|k: int| 0 <= k < cycles@.len() implies is_cycle(self.edges@, crate::text::views((#[trigger] cycles@[k])@)) by {
                                if k < before_cycles.len() {
                                    assert(cycles@[k] == before_cycles[k]);
                                }
                            }
                        }
                    } else {
                        proof {
                            assert(visited@[j as int]);
                            assert(order@.contains(j));
                        }
                    }
                }
            }
            j = j + 1;
        }
        let ghost st = rec_stack@;
        rec_stack.pop();
        let ghost om = order@;
        proof {
            assert(rec_stack@ =~= st.drop_last());
            assert(st.drop_last() =~= old(rec_stack)@);
            order@ = order@.push(node);
            crate::seqs::lemma_push_nodup(om, node);
            assert forall|x: int| 0 <= x < visited@.len() implies (#[trigger] visited@[x] <==> (rec_stack@.contains(x as usize)
                || order@.contains(x as usize))) by {
                if x == node {
                    assert(order@[om.len() as int] == node);
                } else {
                    if stack.contains(x as usize) {
                        let w = choose|w: int| 0 <= w < stack.len() && stack[w] == x as usize;
                        assert(w < stack.len() - 1);
                        assert(rec_stack@[w] == x as usize);
                    }
                    if rec_stack@.contains(x as usize) {
                        let w = choose|w: int| 0 <= w < rec_stack@.len() && rec_stack@[w] == x as usize;
                        assert(stack[w] == x as usize);
                    }
                    if om.contains(x as usize) {
                        let w = choose|w: int| 0 <= w < om.len() && om[w] == x as usize;
                        assert(order@[w] == x as usize);
                    }
                    if order@.contains(x as usize) {
                        let w = choose|w: int| 0 <= w < order@.len() && order@[w] == x as usize;
                        assert(w < om.len());
                        assert(om[w] == x as usize);
                    }
                }
            }
            assert(order@[om.len() as int] == node);
            if finished_ok(self.edges@, names, o0) && cycles@.len() == c0 {
                assert forall|i: int, jj: int|
                    0 <= i < order@.len() && 0 <= jj < names.len() && #[trigger] has_edge(self.edges@, names[order@[i] as int], names[jj])
                    implies exists|k: int| 0 <= k < i && order@[k] == jj by {
                    if i < om.len() {
                        assert(order@[i] == om[i]);
                        let k = choose|k: int| 0 <= k < i && om[k] == jj;
                        assert(order@[k] == om[k]);
                    } else {
                        assert(order@[i] == node);
                        assert(om.contains(jj as usize));
                        let k = choose|k: int| 0 <= k < om.len() && om[k] == jj as usize;
                        assert(order@[k] == om[k]);
                    }
                }
            }
            assert forall|k: int| 0 <= k < o0.len() implies #[trigger] order@[k] == o0[k] by {
                assert(order@[k] == om[k]);
            }
            assert forall|k: int| o0.len() <= k < order@.len() implies !v0[#[trigger] order@[k] as int] by {
                if k < om.len() {
                    assert(order@[k] == om[k]);
                }
            }
        }
    }
}

/// Where no cycle was closed, each mutex on `order` has the mutexes its edges
/// lead to earlier on `order`.
pub open spec fn finished_ok(edges: Seq<((String, String), Vec<MirLocation>)>, names: Seq<Seq<char>>, order: Seq<usize>) -> bool {
    forall|i: int, j: int|
        0 <= i < order.len() && 0 <= j < names.len() && #[trigger] has_edge(edges, names[order[i] as int], names[j])
            ==> exists|k: int| 0 <= k < i && order[k] == j
}

/// The names of the first `i` edges hold both ends of each of them.
proof fn lemma_names_cover(edges: Seq<((String, String), Vec<MirLocation>)>, i: int)
    requires
        0 <= i <= edges.len(),
    ensures
        forall|k: int| 0 <= k < i ==> names_upto(edges, i).contains((#[trigger] edges[k]).0.0@) && names_upto(edges, i).contains(edges[k].0.1@),
    decreases i,
{
    if i > 0 {
        lemma_names_cover(edges, i - 1);
        let a = names_upto(edges, i - 1);
        let e = edges[i - 1];
        let b = add_name(a, e.0.0@);
        let c = add_name(b, e.0.1@);
        assert(b.contains(e.0.0@)) by {
            if !a.contains(e.0.0@) {
                assert(b[a.len() as int] == e.0.0@);
            }
        }
        assert(c.contains(e.0.1@)) by {
            if !b.contains(e.0.1@) {
                assert(c[b.len() as int] == e.0.1@);
            }
        }
        assert forall|x: Seq<char>| a.contains(x) implies c.contains(x) by {
            let w = choose|w: int| 0 <= w < a.len() && a[w] == x;
            assert(b[w] == x);
            assert(c[w] == x);
        }
        assert forall|x: Seq<char>| b.contains(x) implies c.contains(x) by {
            let w = choose|w: int| 0 <= w < b.len() && b[w] == x;
            assert(c[w] == x);
        }
    }
}

/// The position of name `x` among `names`.
spec fn name_index(names: Seq<Seq<char>>, x: Seq<char>) -> int {
    choose|i: int| 0 <= i < names.len() && names[i] == x
}

/// The position of `x` on `order`.
spec fn order_pos(order: Seq<usize>, x: int) -> int {
    choose|p: int| 0 <= p < order.len() && order[p] as int == x
}

/// Along an edge the position on a finished order goes down.
proof fn lemma_edge_down(
    edges: Seq<((String, String), Vec<MirLocation>)>,
    names: Seq<Seq<char>>,
    order: Seq<usize>,
    u: Seq<char>,
    v: Seq<char>,
)
    requires
        names.len() <= usize::MAX,
        finished_ok(edges, names, order),
        order.no_duplicates(),
        forall|x: int| 0 <= x < names.len() ==> #[trigger] order.contains(x as usize),
        names.contains(u),
        names.contains(v),
        has_edge(edges, u, v),
    ensures
        0 <= order_pos(order, name_index(names, v)) < order_pos(order, name_index(names, u)) < order.len(),
{
    let iu = name_index(names, u);
    let iv = name_index(names, v);
    assert(0 <= iu < names.len() && names[iu] == u);
    assert(0 <= iv < names.len() && names[iv] == v);
    assert(order.contains(iu as usize));
    assert(order.contains(iv as usize));
    let wu = choose|w: int| 0 <= w < order.len() && order[w] == iu as usize;
    assert(order[wu] as int == iu);
    let wv = choose|w: int| 0 <= w < order.len() && order[w] == iv as usize;
    assert(order[wv] as int == iv);
    let pu = order_pos(order, iu);
    let pv = order_pos(order, iv);
    assert(0 <= pu < order.len() && order[pu] as int == iu);
    assert(0 <= pv < order.len() && order[pv] as int == iv);
    assert(has_edge(edges, names[order[pu] as int], names[iv]));
    let k = choose|k: int| 0 <= k < pu && order[k] == iv;
    assert(k == pv);
}

/// Along the first `k + 1` mutexes of a cycle the position on a finished order goes down by `k` at least.
proof fn lemma_chain_down(
    edges: Seq<((String, String), Vec<MirLocation>)>,
    names: Seq<Seq<char>>,
    order: Seq<usize>,
    c: Seq<Seq<char>>,
    k: int,
)
    requires
        names.len() <= usize::MAX,
        finished_ok(edges, names, order),
        order.no_duplicates(),
        forall|x: int| 0 <= x < names.len() ==> #[trigger] order.contains(x as usize),
        forall|x: int| 0 <= x < c.len() ==> names.contains(#[trigger] c[x]),
        forall|x: int| 0 <= x < c.len() - 1 ==> has_edge(edges, #[trigger] c[x], c[x + 1]),
        0 <= k < c.len(),
    ensures
        order_pos(order, name_index(names, c[k])) <= order_pos(order, name_index(names, c[0])) - k,
    decreases k,
{
    if k > 0 {
        lemma_chain_down(edges, names, order, c, k - 1);
        assert(has_edge(edges, c[k - 1], c[k]));
        lemma_edge_down(edges, names, order, c[k - 1], c[k]);
    }
}

/// A graph whose every mutex lies on a finished order has no cycle.
proof fn lemma_acyclic(edges: Seq<((String, String), Vec<MirLocation>)>, names: Seq<Seq<char>>, order: Seq<usize>)
    requires
        names.len() <= usize::MAX,
        finished_ok(edges, names, order),
        order.no_duplicates(),
        forall|x: int| 0 <= x < names.len() ==> #[trigger] order.contains(x as usize),
        names == names_upto(edges, edges.len() as int),
        forall|k: int| 0 <= k < edges.len() ==> names_upto(edges, edges.len() as int).contains((#[trigger] edges[k]).0.0@)
            && names_upto(edges, edges.len() as int).contains(edges[k].0.1@),
    ensures
        !exists|c: Seq<Seq<char>>| #[trigger] is_cycle(edges, c),
{
    if exists|c: Seq<Seq<char>>| #[trigger] is_cycle(edges, c) {
        let c = choose|c: Seq<Seq<char>>| #[trigger] is_cycle(edges, c);
        assert forall|x: int| 0 <= x < c.len() implies names.contains(#[trigger] c[x]) by {
            if x < c.len() - 1 {
                assert(has_edge(edges, c[x], c[x + 1]));
            } else {
                assert(has_edge(edges, c.last(), c[0]));
            }
            let w = choose|w: int| 0 <= w < edges.len() && (#[trigger] edges[w]).0.0@ == c[x] && edges[w].0.1@ == if x < c.len() - 1 { c[x + 1] } else { c[0] };
        }
        lemma_chain_down(edges, names, order, c, c.len() - 1);
        lemma_edge_down(edges, names, order, c.last(), c[0]);
    }
}

/// The strings hold no two equal texts.
pub open spec fn views_nodup(v: Seq<String>) -> bool {
    forall|i: int, j: int| 0 <= i < v.len() && 0 <= j < v.len() && (#[trigger] v[i])@ == (#[trigger] v[j])@ ==> i == j
}

/// `acc` with `x` added at the end, unless it holds `x` already.
pub open spec fn add_name(acc: Seq<Seq<char>>, x: Seq<char>) -> Seq<Seq<char>> {
    if acc.contains(x) {
        acc
    } else {
        acc.push(x)
    }
}

/// The mutexes of the first `i` edges, each once, in the order they first occur.
pub open spec fn names_upto(edges: Seq<((String, String), Vec<MirLocation>)>, i: int) -> Seq<Seq<char>>
    decreases i,
{
    if i <= 0 {
        Seq::empty()
    } else {
        let e = edges[i - 1];
        add_name(add_name(names_upto(edges, i - 1), e.0.0@), e.0.1@)
    }
}

/// Appends `s` unless a string with the same text is there.
fn push_name(v: &mut Vec<String>, s: String)
    requires
        views_nodup(old(v)@),
    ensures
        views_nodup(final(v)@),
        crate::text::views(final(v)@) == add_name(crate::text::views(old(v)@), s@),
        final(v)@.len() >= old(v)@.len(),
        forall|k: int| 0 <= k < old(v)@.len() ==> final(v)@[k] == old(v)@[k],
        forall|k: int| old(v)@.len() <= k < final(v)@.len() ==> (#[trigger] final(v)@[k])@ == s@,
{
    let ghost vs = crate::text::views(v@);
    let mut i: usize = 0;
    while i < v.len()
        invariant
            i <= v@.len(),
            v@ == old(v)@,
            views_nodup(v@),
            forall|k: int| 0 <= k < i ==> (#[trigger] v@[k])@ != s@,
            vs == crate::text::views(v@),
        decreases v@.len() - i,
    {
        if crate::text::str_eq(v[i].as_str(), s.as_str()) {
            proof {
                assert(vs[i as int] == v@[i as int]@);
                assert(vs.contains(s@));
            }
            return;
        }
        i = i + 1;
    }
    proof {
        assert(!vs.contains(s@)) by {
            if vs.contains(s@) {
                let k = choose|k: int| 0 <= k < vs.len() && vs[k] == s@;
                assert(vs[k] == v@[k]@);
            }
        }
    }
    v.push(s);
    assert(crate::text::views(v@) =~= vs.push(s@));
}

/// The first position of `x` on the stack, or the stack's length where it is not there.
fn position_of(v: &Vec<usize>, x: usize) -> (r: usize)
    ensures
        r <= v@.len(),
        r < v@.len() ==> v@[r as int] == x,
        r == v@.len() ==> !v@.contains(x),
{
    let mut i: usize = 0;
    while i < v.len()
        invariant
            i <= v@.len(),
            forall|k: int| 0 <= k < i ==> v@[k] != x,
        decreases v@.len() - i,
    {
        if v[i] == x {
            return i;
        }
        i = i + 1;
    }
    i
}


// ---------------------------------------------------------------------------
// Reports
// ---------------------------------------------------------------------------

/// A possible deadlock: its kind, how likely it is, the two locks and how they meet.
#[derive(Clone, Debug)]
pub struct LockReport {
    pub kind: LockBugKind,
    pub possibility: DeadlockPossibility,
    pub first_lock: LockDesc,
    pub second_lock: LockDesc,
    pub callchain: Vec<String>,
}

/// A lock of a report: its guard type, the function that takes it, the variable and source
/// location where known, and its local.
#[derive(Clone, Debug)]
pub struct LockDesc {
    pub lock_type: String,
    pub function: String,
    pub var_name: Option<String>,
    pub source_loc: Option<String>,
    pub mir_loc: String,
}

/// The two kinds of deadlock reported.
#[derive(Clone, Copy, Debug, PartialEq, Eq, Structural)]
pub enum LockBugKind {
    DoubleLock,
    ConflictLock,
}

/// The text of an optional string.
pub open spec fn opt_text(o: Option<String>) -> Option<Seq<char>> {
    match o {
        Some(s) => Some(s@),
        None => None,
    }
}

impl View for LockDesc {
    type V = (Seq<char>, Seq<char>, Option<Seq<char>>, Option<Seq<char>>, Seq<char>);

    open spec fn view(&self) -> (Seq<char>, Seq<char>, Option<Seq<char>>, Option<Seq<char>>, Seq<char>) {
        (self.lock_type@, self.function@, opt_text(self.var_name), opt_text(self.source_loc), self.mir_loc@)
    }
}

impl View for LockReport {
    type V = (
        LockBugKind,
        DeadlockPossibility,
        (Seq<char>, Seq<char>, Option<Seq<char>>, Option<Seq<char>>, Seq<char>),
        (Seq<char>, Seq<char>, Option<Seq<char>>, Option<Seq<char>>, Seq<char>),
        Seq<Seq<char>>,
    );

    open spec fn view(&self) -> Self::V {
        (self.kind, self.possibility, self.first_lock@, self.second_lock@, views(self.callchain@))
    }
}

/// The views of a sequence of reports.
pub open spec fn report_views(rs: Seq<LockReport>) -> Seq<<LockReport as View>::V> {
    rs.map_values(|r: LockReport| r@)
}

/// A copy of an optional string.
fn copy_opt_string(o: &Option<String>) -> (r: Option<String>)
    ensures
        opt_text(r) == opt_text(*o),
{
    match o {
        Some(s) => Some(s.clone()),
        None => None,
    }
}

/// A copy of a list of strings.
fn copy_strings(v: &Vec<String>) -> (r: Vec<String>)
    ensures
        views(r@) == views(v@),
{
    let mut r: Vec<String> = Vec::new();
    let mut i: usize = 0;
    while i < v.len()
        invariant
            i <= v@.len(),
            views(r@) == views(v@.subrange(0, i as int)),
        decreases v@.len() - i,
    {
        r.push(v[i].clone());
        proof {
            assert(views(v@.subrange(0, i + 1)) =~= views(v@.subrange(0, i as int)).push(v@[i as int]@));
            assert(views(r@) =~= views(v@.subrange(0, i + 1)));
        }
        i = i + 1;
    }
    assert(v@.subrange(0, v@.len() as int) =~= v@);
    r
}

impl LockDesc {
    /// A copy of this description.
    pub fn copy(&self) -> (r: Self)
        ensures
            r@ == self@,
    {
        LockDesc {
            lock_type: self.lock_type.clone(),
            function: self.function.clone(),
            var_name: copy_opt_string(&self.var_name),
            source_loc: copy_opt_string(&self.source_loc),
            mir_loc: self.mir_loc.clone(),
        }
    }
}

impl LockReport {
    /// A copy of this report.
    pub fn copy(&self) -> (r: Self)
        ensures
            r@ == self@,
    {
        LockReport {
            kind: self.kind,
            possibility: self.possibility,
            first_lock: self.first_lock.copy(),
            second_lock: self.second_lock.copy(),
            callchain: copy_strings(&self.callchain),
        }
    }
}

// ---------------------------------------------------------------------------
// Which guards lock the same mutex
// ---------------------------------------------------------------------------

/// The identity known for guard `g`, from entry `i` of `ids` on: the first entry for `g`.
pub open spec fn identity_at(ids: Seq<(LockGuardId, MutexIdentity)>, g: LockGuardId, i: int) -> Option<MutexIdentity>
    decreases ids.len() - i,
{
    if i < 0 || i >= ids.len() {
        None
    } else if same_guard(ids[i].0, g) {
        Some(ids[i].1)
    } else {
        identity_at(ids, g, i + 1)
    }
}

/// The identity known for guard `g`.
pub open spec fn identity_of(ids: Seq<(LockGuardId, MutexIdentity)>, g: LockGuardId) -> Option<MutexIdentity> {
    identity_at(ids, g, 0)
}

/// Where in `ids` the identity of `g` is, if it is there.
fn find_identity(ids: &Vec<(LockGuardId, MutexIdentity)>, g: &LockGuardId) -> (r: Option<usize>)
    ensures
        match r {
            Some(i) => i < ids@.len() && identity_of(ids@, *g) == Some(ids@[i as int].1),
            None => identity_of(ids@, *g) is None,
        },
{
    let mut i: usize = 0;
    while i < ids.len()
        invariant
            i <= ids@.len(),
            identity_of(ids@, *g) == identity_at(ids@, *g, i as int),
        decreases ids@.len() - i,
    {
        if instance_eq(&ids[i].0.instance, &g.instance) && ids[i].0.local == g.local {
            return Some(i);
        }
        i = i + 1;
    }
    None
}

/// Two guard kinds are of the same lock and access.
pub open spec fn same_lock_kind(a: LockGuardTy, b: LockGuardTy) -> bool {
    match (a, b) {
        (LockGuardTy::StdMutex(_), LockGuardTy::StdMutex(_)) => true,
        (LockGuardTy::ParkingLotMutex(_), LockGuardTy::ParkingLotMutex(_)) => true,
        (LockGuardTy::SpinMutex(_), LockGuardTy::SpinMutex(_)) => true,
        (LockGuardTy::StdRwLockRead(_), LockGuardTy::StdRwLockRead(_)) => true,
        (LockGuardTy::StdRwLockWrite(_), LockGuardTy::StdRwLockWrite(_)) => true,
        (LockGuardTy::ParkingLotRead(_), LockGuardTy::ParkingLotRead(_)) => true,
        (LockGuardTy::ParkingLotWrite(_), LockGuardTy::ParkingLotWrite(_)) => true,
        (LockGuardTy::SpinRead(_), LockGuardTy::SpinRead(_)) => true,
        (LockGuardTy::SpinWrite(_), LockGuardTy::SpinWrite(_)) => true,
        _ => false,
    }
}

/// Two guard kinds are a read and a write guard of the same library's `RwLock`.
pub open spec fn incompatible_rwlock(a: LockGuardTy, b: LockGuardTy) -> bool {
    match (a, b) {
        (LockGuardTy::StdRwLockRead(_), LockGuardTy::StdRwLockWrite(_)) => true,
        (LockGuardTy::StdRwLockWrite(_), LockGuardTy::StdRwLockRead(_)) => true,
        (LockGuardTy::ParkingLotRead(_), LockGuardTy::ParkingLotWrite(_)) => true,
        (LockGuardTy::ParkingLotWrite(_), LockGuardTy::ParkingLotRead(_)) => true,
        (LockGuardTy::SpinRead(_), LockGuardTy::SpinWrite(_)) => true,
        (LockGuardTy::SpinWrite(_), LockGuardTy::SpinRead(_)) => true,
        _ => false,
    }
}

/// Two guards protect the same data type, and are of the same kind or a read and a write
/// guard of the same library's `RwLock`.
pub open spec fn same_protected(table: TyTable, a: LockGuardTy, b: LockGuardTy) -> bool {
    (same_lock_kind(a, b) || incompatible_rwlock(a, b)) && same_ty_text(table, guard_data(a), guard_data(b))
}

/// Two guards are taken for guards of the same mutex: their identities are the same
/// mutex, or they are different locals of the same instance whose guards are of the same
/// or conflicting kinds over the same data type.
pub open spec fn guards_same_mutex_spec(
    table: TyTable,
    ids: Seq<(LockGuardId, MutexIdentity)>,
    g1: LockGuardId,
    info1: LockGuardInfo,
    g2: LockGuardId,
    info2: LockGuardInfo,
) -> bool {
    let o1 = identity_of(ids, g1);
    let o2 = identity_of(ids, g2);
    if o1 is Some && o2 is Some && same_mutex_spec(o1->0, o2->0) {
        true
    } else {
        match (o1, o2) {
            (Some(MutexIdentity::Local { instance: i1, local: l1 }), Some(MutexIdentity::Local { instance: i2, local: l2 })) => same_instance(i1, i2)
                && l1 != l2 && (same_lock_kind(info1.lockguard_ty, info2.lockguard_ty) || incompatible_rwlock(
                info1.lockguard_ty,
                info2.lockguard_ty,
            )) && same_protected(table, info1.lockguard_ty, info2.lockguard_ty),
            _ => false,
        }
    }
}

/// Guard `b` is acquired in a block from one where guard `a` is acquired up to one where
/// `a` is released.
pub open spec fn locks_overlap_spec(a: LockGuardInfo, b: LockGuardInfo) -> bool {
    exists|g1: int, k1: int, g2: int|
        0 <= g1 < a.gen_locs@.len() && 0 <= k1 < a.kill_locs@.len() && 0 <= g2 < b.gen_locs@.len() && (
        #[trigger] a.gen_locs@[g1]).block <= (#[trigger] b.gen_locs@[g2]).block && b.gen_locs@[g2].block
            <= (#[trigger] a.kill_locs@[k1]).block
}

/// Whether guards `a` and `b` are of the same lock kind.
fn same_lock_kind_exec(a: &LockGuardTy, b: &LockGuardTy) -> (r: bool)
    ensures
        r == same_lock_kind(*a, *b),
{
    match (a, b) {
        (LockGuardTy::StdMutex(_), LockGuardTy::StdMutex(_)) => true,
        (LockGuardTy::ParkingLotMutex(_), LockGuardTy::ParkingLotMutex(_)) => true,
        (LockGuardTy::SpinMutex(_), LockGuardTy::SpinMutex(_)) => true,
        (LockGuardTy::StdRwLockRead(_), LockGuardTy::StdRwLockRead(_)) => true,
        (LockGuardTy::StdRwLockWrite(_), LockGuardTy::StdRwLockWrite(_)) => true,
        (LockGuardTy::ParkingLotRead(_), LockGuardTy::ParkingLotRead(_)) => true,
        (LockGuardTy::ParkingLotWrite(_), LockGuardTy::ParkingLotWrite(_)) => true,
        (LockGuardTy::SpinRead(_), LockGuardTy::SpinRead(_)) => true,
        (LockGuardTy::SpinWrite(_), LockGuardTy::SpinWrite(_)) => true,
        _ => false,
    }
}

/// Whether guards `a` and `b` are a read and a write guard of the same library's `RwLock`.
fn incompatible_rwlock_exec(a: &LockGuardTy, b: &LockGuardTy) -> (r: bool)
    ensures
        r == incompatible_rwlock(*a, *b),
{
    match (a, b) {
        (LockGuardTy::StdRwLockRead(_), LockGuardTy::StdRwLockWrite(_)) => true,
        (LockGuardTy::StdRwLockWrite(_), LockGuardTy::StdRwLockRead(_)) => true,
        (LockGuardTy::ParkingLotRead(_), LockGuardTy::ParkingLotWrite(_)) => true,
        (LockGuardTy::ParkingLotWrite(_), LockGuardTy::ParkingLotRead(_)) => true,
        (LockGuardTy::SpinRead(_), LockGuardTy::SpinWrite(_)) => true,
        (LockGuardTy::SpinWrite(_), LockGuardTy::SpinRead(_)) => true,
        _ => false,
    }
}

/// The type of the data a guard protects.
fn data_ty(g: &LockGuardTy) -> (r: Ty)
    ensures
        r == guard_data(*g),
{
    match g {
        LockGuardTy::StdMutex(t) => *t,
        LockGuardTy::ParkingLotMutex(t) => *t,
        LockGuardTy::SpinMutex(t) => *t,
        LockGuardTy::StdRwLockRead(t) => *t,
        LockGuardTy::StdRwLockWrite(t) => *t,
        LockGuardTy::ParkingLotRead(t) => *t,
        LockGuardTy::ParkingLotWrite(t) => *t,
        LockGuardTy::SpinRead(t) => *t,
        LockGuardTy::SpinWrite(t) => *t,
    }
}

/// Whether guards `a` and `b` protect the same data in compatible ways.
fn same_protected_exec(a: &LockGuardTy, b: &LockGuardTy, table: &TyTable) -> (r: bool)
    ensures
        r == same_protected(*table, *a, *b),
{
    if same_lock_kind_exec(a, b) || incompatible_rwlock_exec(a, b) {
        ty_equal(&data_ty(a), &data_ty(b), table)
    } else {
        false
    }
}

/// The printed form of a guard kind.
pub open spec fn guard_text(table: TyTable, g: LockGuardTy) -> Seq<char> {
    guard_head(g) + table.text_of(guard_data(g)) + ">"@
}

/// The description of guard `g` with what is known of it.
pub open spec fn desc_of(table: TyTable, g: LockGuardId, info: LockGuardInfo) -> (Seq<char>, Seq<char>, Option<Seq<char>>, Option<Seq<char>>, Seq<char>) {
    (
        guard_text(table, info.lockguard_ty),
        info.func_name@,
        opt_text(info.var_name),
        opt_text(info.source_loc),
        "local"@ + crate::text::decimal(g.local as nat),
    )
}

/// The report of a double lock of guards `i` and `j` of `guards`.
pub open spec fn double_report(table: TyTable, guards: Seq<(LockGuardId, LockGuardInfo)>, i: int, j: int) -> <LockReport as View>::V {
    let d1 = desc_of(table, guards[i].0, guards[i].1);
    let d2 = desc_of(table, guards[j].0, guards[j].1);
    (
        LockBugKind::DoubleLock,
        deadlock_with_spec(table, guards[i].1.lockguard_ty, guards[j].1.lockguard_ty),
        d1,
        d2,
        seq![
            "1. Lock "@ + d1.0 + " in "@ + d1.1,
            "2. While holding, attempt to lock "@ + d2.0 + " in "@ + d2.1,
            "3. Deadlock! "@ + d1.0 + " and "@ + d2.0 + " are in conflict"@,
        ],
    )
}

/// Guards `i` and `j` of `guards` are a double lock: guards of the same instance taken for
/// guards of the same mutex (or both of unknown mutexes), of compatible kinds over the same
/// data, the second acquired while the first is held.
pub open spec fn double_lock_pair(
    table: TyTable,
    guards: Seq<(LockGuardId, LockGuardInfo)>,
    ids: Seq<(LockGuardId, MutexIdentity)>,
    i: int,
    j: int,
) -> bool {
    let (g1, info1) = guards[i];
    let (g2, info2) = guards[j];
    &&& same_instance(g1.instance, g2.instance)
    &&& match (identity_of(ids, g1), identity_of(ids, g2)) {
        (Some(_), Some(_)) => guards_same_mutex_spec(table, ids, g1, info1, g2, info2),
        (None, None) => true,
        _ => false,
    }
    &&& (same_lock_kind(info1.lockguard_ty, info2.lockguard_ty) || incompatible_rwlock(info1.lockguard_ty, info2.lockguard_ty))
    &&& same_protected(table, info1.lockguard_ty, info2.lockguard_ty)
    &&& locks_overlap_spec(info1, info2)
}

/// The double-lock reports for guard `i` paired with guards `j` on, in order.
pub open spec fn double_row(
    table: TyTable,
    guards: Seq<(LockGuardId, LockGuardInfo)>,
    ids: Seq<(LockGuardId, MutexIdentity)>,
    i: int,
    j: int,
) -> Seq<<LockReport as View>::V>
    decreases guards.len() - j,
{
    if j < 0 || j >= guards.len() {
        Seq::empty()
    } else {
        (if double_lock_pair(table, guards, ids, i, j) {
            seq![double_report(table, guards, i, j)]
        } else {
            Seq::empty()
        }) + double_row(table, guards, ids, i, j + 1)
    }
}

/// The double-lock reports for every pair of guards from guard `i` on, the earlier guard of
/// each pair first, in order.
pub open spec fn double_reports(
    table: TyTable,
    guards: Seq<(LockGuardId, LockGuardInfo)>,
    ids: Seq<(LockGuardId, MutexIdentity)>,
    i: int,
) -> Seq<<LockReport as View>::V>
    decreases guards.len() - i,
{
    if i < 0 || i >= guards.len() {
        Seq::empty()
    } else {
        double_row(table, guards, ids, i, i + 1) + double_reports(table, guards, ids, i + 1)
    }
}

/// The report of a lock cycle `c`.
pub open spec fn conflict_report(c: Seq<Seq<char>>) -> <LockReport as View>::V {
    (
        LockBugKind::ConflictLock,
        DeadlockPossibility::Possibly,
        ("Unknown"@, c[0], None, None, c[0]),
        ("Unknown"@, c.last(), None, None, c.last()),
        seq![
            "Lock cycle detected:"@,
            "  Thread 1: "@ + c[0] + " -> "@ + c[1],
            "  Thread 2: "@ + c.last() + " -> "@ + c[c.len() - 2],
            "  These form a cycle causing potential deadlock"@,
        ],
    )
}

/// `r` is the report of a cycle of at least two mutexes of the graph with these edges.
pub open spec fn report_from_cycle(edges: Seq<((String, String), Vec<MirLocation>)>, r: LockReport) -> bool {
    exists|c: Seq<Seq<char>>| is_cycle(edges, c) && c.len() >= 2 && r@ == conflict_report(c)
}

/// The report of the lock cycle `cycle`.
fn conflict_report_of(cycle: &Vec<String>) -> (r: LockReport)
    requires
        cycle@.len() >= 2,
    ensures
        r@ == conflict_report(views(cycle@)),
{
    let n = cycle.len();
    let first = &cycle[0];
    let last = &cycle[n - 1];
    let first_lock = LockDesc {
        lock_type: string_of("Unknown"),
        function: first.clone(),
        var_name: None,
        source_loc: None,
        mir_loc: first.clone(),
    };
    let second_lock = LockDesc {
        lock_type: string_of("Unknown"),
        function: last.clone(),
        var_name: None,
        source_loc: None,
        mir_loc: last.clone(),
    };
    let mut l2 = String::new();
    l2.append("  Thread 1: ");
    l2.append(first.as_str());
    l2.append(" -> ");
    l2.append(cycle[1].as_str());
    let mut l3 = String::new();
    l3.append("  Thread 2: ");
    l3.append(last.as_str());
    l3.append(" -> ");
    l3.append(cycle[n - 2].as_str());
    let mut callchain: Vec<String> = Vec::new();
    callchain.push(string_of("Lock cycle detected:"));
    callchain.push(l2);
    callchain.push(l3);
    callchain.push(string_of("  These form a cycle causing potential deadlock"));
    let report = LockReport {
        kind: LockBugKind::ConflictLock,
        possibility: DeadlockPossibility::Possibly,
        first_lock,
        second_lock,
        callchain,
    };
    proof {
        let c = views(cycle@);
        assert(c[0] == cycle@[0]@);
        assert(c.last() == cycle@[n - 1]@);
        assert(c[1] == cycle@[1]@);
        assert(c[c.len() - 2] == cycle@[n - 2]@);
        assert(views(report.callchain@) =~= conflict_report(c).4);
    }
    report
}

/// Reports deadlocks between the lock guards of a crate.
pub struct LockDetector {
    pub reports: Vec<LockReport>,
    lock_graph: LockGraph,
}

impl LockDetector {
    /// The graph of lock orders built so far.
    pub closed spec fn graph_edges(&self) -> Seq<((String, String), Vec<MirLocation>)> {
        self.lock_graph.edges@
    }

    /// The reports made so far.
    pub closed spec fn reports_spec(&self) -> Seq<LockReport> {
        self.reports@
    }

    /// The reports made so far, as held in the public list.
    pub fn report_list(&self) -> (r: &Vec<LockReport>)
        ensures
            r@ == self.reports_spec(),
    {
        &self.reports
    }

    /// The detector's graph lists each edge once.
    pub closed spec fn wf(&self) -> bool {
        self.lock_graph.wf()
    }

    /// No reports and an empty lock graph.
    pub fn new() -> (r: Self)
        ensures
            r.wf(),
            r.reports_spec().len() == 0,
            r.graph_edges().len() == 0,
    {
        Self { reports: Vec::new(), lock_graph: LockGraph::new() }
    }

    /// Whether guards `id1` and `id2` lock the same mutex, by their identities or, for
    /// different locals of one instance, by their kinds and data types.
    pub fn guards_on_same_mutex(
        &self,
        id1: &LockGuardId,
        info1: &LockGuardInfo,
        id2: &LockGuardId,
        info2: &LockGuardInfo,
        identities: &Vec<(LockGuardId, MutexIdentity)>,
        table: &TyTable,
    ) -> (r: bool)
        ensures
            r == guards_same_mutex_spec(*table, identities@, *id1, *info1, *id2, *info2),
    {
        let o1 = find_identity(identities, id1);
        let o2 = find_identity(identities, id2);
        let (a, b) = match (o1, o2) {
            (Some(a), Some(b)) => (a, b),
            _ => return false,
        };
        let analyzer = MutexIdentityAnalyzer::new();
        if analyzer.same_mutex(&identities[a].1, &identities[b].1) {
            return true;
        }
        match (&identities[a].1, &identities[b].1) {
            (MutexIdentity::Local { instance: i1, local: l1 }, MutexIdentity::Local { instance: i2, local: l2 }) => {
                if instance_eq(i1, i2) && *l1 != *l2 {
                    let same_lock_type = same_lock_kind_exec(&info1.lockguard_ty, &info2.lockguard_ty);
                    let incompatible = incompatible_rwlock_exec(&info1.lockguard_ty, &info2.lockguard_ty);
                    if same_lock_type || incompatible {
                        same_protected_exec(&info1.lockguard_ty, &info2.lockguard_ty, table)
                    } else {
                        false
                    }
                } else {
                    false
                }
            },
            _ => false,
        }
    }

    /// Whether guard `info2` is acquired in a block from one where `info1` is acquired up to
    /// one where `info1` is released.
    pub fn locks_overlap(&self, info1: &LockGuardInfo, info2: &LockGuardInfo) -> (r: bool)
        ensures
            r == locks_overlap_spec(*info1, *info2),
    {
        let mut a: usize = 0;
        while a < info1.gen_locs.len()
            invariant
                a <= info1.gen_locs@.len(),
                forall|g1: int, k1: int, g2: int|
                    0 <= g1 < a && 0 <= k1 < info1.kill_locs@.len() && 0 <= g2 < info2.gen_locs@.len() ==> !((
                    #[trigger] info1.gen_locs@[g1]).block <= (#[trigger] info2.gen_locs@[g2]).block
                        && info2.gen_locs@[g2].block <= (#[trigger] info1.kill_locs@[k1]).block),
            decreases info1.gen_locs@.len() - a,
        {
            let mut b: usize = 0;
            while b < info1.kill_locs.len()
                invariant
                    a < info1.gen_locs@.len(),
                    b <= info1.kill_locs@.len(),
                    forall|g1: int, k1: int, g2: int|
                        0 <= g1 < a && 0 <= k1 < info1.kill_locs@.len() && 0 <= g2 < info2.gen_locs@.len() ==> !((
                        #[trigger] info1.gen_locs@[g1]).block <= (#[trigger] info2.gen_locs@[g2]).block
                            && info2.gen_locs@[g2].block <= (#[trigger] info1.kill_locs@[k1]).block),
                    forall|k1: int, g2: int|
                        0 <= k1 < b && 0 <= g2 < info2.gen_locs@.len() ==> !(info1.gen_locs@[a as int].block
                            <= (#[trigger] info2.gen_locs@[g2]).block && info2.gen_locs@[g2].block
                            <= (#[trigger] info1.kill_locs@[k1]).block),
                decreases info1.kill_locs@.len() - b,
            {
                let mut c: usize = 0;
                while c < info2.gen_locs.len()
                    invariant
                        a < info1.gen_locs@.len(),
                        b < info1.kill_locs@.len(),
                        c <= info2.gen_locs@.len(),
                        forall|g2: int|
                            0 <= g2 < c ==> !(info1.gen_locs@[a as int].block <= (#[trigger] info2.gen_locs@[g2]).block
                                && info2.gen_locs@[g2].block <= info1.kill_locs@[b as int].block),
                    decreases info2.gen_locs@.len() - c,
                {
                    if info1.gen_locs[a].block <= info2.gen_locs[c].block && info2.gen_locs[c].block
                        <= info1.kill_locs[b].block {
                        return true;
                    }
                    c = c + 1;
                }
                b = b + 1;
            }
            a = a + 1;
        }
        false
    }

    /// The description of guard `guard_id` with what is known of it.
    fn create_lock_desc(&self, info: &LockGuardInfo, guard_id: &LockGuardId, table: &TyTable) -> (r: LockDesc)
        ensures
            r@ == desc_of(*table, *guard_id, *info),
    {
        let mut mir_loc = String::new();
        mir_loc.append("local");
        push_decimal(&mut mir_loc, guard_id.local);
        LockDesc {
            lock_type: info.lockguard_ty.text(table),
            function: info.func_name.clone(),
            var_name: copy_opt_string(&info.var_name),
            source_loc: copy_opt_string(&info.source_loc),
            mir_loc,
        }
    }

    /// Whether guards `i` and `j` of `lockguards` are a double lock.
    fn is_double_lock(
        &self,
        lockguards: &Vec<(LockGuardId, LockGuardInfo)>,
        identities: &Vec<(LockGuardId, MutexIdentity)>,
        i: usize,
        j: usize,
        table: &TyTable,
    ) -> (r: bool)
        requires
            i < lockguards@.len(),
            j < lockguards@.len(),
        ensures
            r == double_lock_pair(*table, lockguards@, identities@, i as int, j as int),
    {
        let (id1, info1) = (&lockguards[i].0, &lockguards[i].1);
        let (id2, info2) = (&lockguards[j].0, &lockguards[j].1);
        if !instance_eq(&id1.instance, &id2.instance) {
            return false;
        }
        let same_mutex = match (find_identity(identities, id1), find_identity(identities, id2)) {
            (Some(_), Some(_)) => self.guards_on_same_mutex(id1, info1, id2, info2, identities, table),
            (None, None) => true,
            _ => false,
        };
        if !same_mutex {
            return false;
        }
        let incompatible = incompatible_rwlock_exec(&info1.lockguard_ty, &info2.lockguard_ty);
        let same_lock_type = same_lock_kind_exec(&info1.lockguard_ty, &info2.lockguard_ty);
        if !same_lock_type && !incompatible {
            return false;
        }
        if !same_protected_exec(&info1.lockguard_ty, &info2.lockguard_ty, table) {
            return false;
        }
        self.locks_overlap(info1, info2)
    }

    /// The report of a double lock of guards `i` and `j` of `lockguards`.
    fn double_lock_report(
        &self,
        lockguards: &Vec<(LockGuardId, LockGuardInfo)>,
        i: usize,
        j: usize,
        table: &TyTable,
    ) -> (r: LockReport)
        requires
            i < lockguards@.len(),
            j < lockguards@.len(),
        ensures
            r@ == double_report(*table, lockguards@, i as int, j as int),
    {
        let (id1, info1) = (&lockguards[i].0, &lockguards[i].1);
        let (id2, info2) = (&lockguards[j].0, &lockguards[j].1);
        let possibility = info1.lockguard_ty.deadlock_with(&info2.lockguard_ty, table);
        let first_lock = self.create_lock_desc(info1, id1, table);
        let second_lock = self.create_lock_desc(info2, id2, table);
        let mut l1 = String::new();
        l1.append("1. Lock ");
        l1.append(first_lock.lock_type.as_str());
        l1.append(" in ");
        l1.append(first_lock.function.as_str());
        let mut l2 = String::new();
        l2.append("2. While holding, attempt to lock ");
        l2.append(second_lock.lock_type.as_str());
        l2.append(" in ");
        l2.append(second_lock.function.as_str());
        let mut l3 = String::new();
        l3.append("3. Deadlock! ");
        l3.append(first_lock.lock_type.as_str());
        l3.append(" and ");
        l3.append(second_lock.lock_type.as_str());
        l3.append(" are in conflict");
        let mut callchain: Vec<String> = Vec::new();
        callchain.push(l1);
        callchain.push(l2);
        callchain.push(l3);
        let r = LockReport { kind: LockBugKind::DoubleLock, possibility, first_lock, second_lock, callchain };
        proof {
            assert(views(r.callchain@) =~= double_report(*table, lockguards@, i as int, j as int).4);
        }
        r
    }

    /// Reports each pair of guards that is a double lock, the earlier guard of each pair
    /// first.
    pub fn detect_double_lock(
        &mut self,
        lockguards: &Vec<(LockGuardId, LockGuardInfo)>,
        identities: &Vec<(LockGuardId, MutexIdentity)>,
        table: &TyTable,
    )
        ensures
            report_views(final(self).reports_spec()) == report_views(old(self).reports_spec()) + double_reports(
                *table,
                lockguards@,
                identities@,
                0,
            ),
            final(self).graph_edges() == old(self).graph_edges(),
            final(self).wf() == old(self).wf(),
    {
        let ghost total = report_views(old(self).reports@) + double_reports(*table, lockguards@, identities@, 0);
        let mut i: usize = 0;
        while i < lockguards.len()
            invariant
                i <= lockguards@.len(),
                report_views(self.reports@) + double_reports(*table, lockguards@, identities@, i as int) == total,
                self.lock_graph == old(self).lock_graph,
            decreases lockguards@.len() - i,
        {
            let mut j: usize = i + 1;
            proof {
                assert(double_reports(*table, lockguards@, identities@, i as int) == double_row(
                    *table,
                    lockguards@,
                    identities@,
                    i as int,
                    j as int,
                ) + double_reports(*table, lockguards@, identities@, i + 1));
                assert(report_views(self.reports@) + double_row(*table, lockguards@, identities@, i as int, j as int)
                    + double_reports(*table, lockguards@, identities@, i + 1) =~= total);
            }
            while j < lockguards.len()
                invariant
                    i < lockguards@.len(),
                    i < j <= lockguards@.len(),
                    report_views(self.reports@) + double_row(*table, lockguards@, identities@, i as int, j as int)
                        + double_reports(*table, lockguards@, identities@, i + 1) == total,
                    self.lock_graph == old(self).lock_graph,
                decreases lockguards@.len() - j,
            {
                let ghost before = report_views(self.reports@);
                let ghost rest = double_row(*table, lockguards@, identities@, i as int, j + 1) + double_reports(
                    *table,
                    lockguards@,
                    identities@,
                    i + 1,
                );
                if self.is_double_lock(lockguards, identities, i, j, table) {
                    let report = self.double_lock_report(lockguards, i, j, table);
                    self.reports.push(report);
                    proof {
                        assert(report_views(self.reports@) =~= before.push(double_report(*table, lockguards@, i as int, j as int)));
                        assert(report_views(self.reports@) + rest =~= total);
                    }
                } else {
                    proof {
                        assert(before + rest =~= total);
                    }
                }
                j = j + 1;
            }
            proof {
                assert(double_row(*table, lockguards@, identities@, i as int, j as int) =~= Seq::empty());
                assert(report_views(self.reports@) + double_reports(*table, lockguards@, identities@, i + 1) =~= total);
            }
            i = i + 1;
        }
        proof {
            assert(double_reports(*table, lockguards@, identities@, i as int) =~= Seq::empty());
            assert(report_views(self.reports@) =~= total);
        }
    }
}

/// An edge from `a` to `b` is justified by guards `p` and `q` of one instance: `q` is acquired
/// at a location where `p` is held, they are not taken for guards of the same mutex, and
/// `a` and `b` are the printed identities of their mutexes.
pub open spec fn graph_edge_justified(
    table: TyTable,
    guards: Seq<(LockGuardId, LockGuardInfo)>,
    ids: Seq<(LockGuardId, MutexIdentity)>,
    a: Seq<char>,
    b: Seq<char>,
) -> bool {
    exists|p: int, q: int, l: MirLocation|
        0 <= p < guards.len() && 0 <= q < guards.len() && #[trigger] guards[q].1.gen_locs@.contains(l) && same_instance(
            guards[p].0.instance,
            guards[q].0.instance,
        ) && alive_at(#[trigger] guards[p].1, l) && !guards_same_mutex_spec(
            table,
            ids,
            guards[p].0,
            guards[p].1,
            guards[q].0,
            guards[q].1,
        ) && identity_of(ids, guards[p].0) is Some && identity_of(ids, guards[q].0) is Some && a == identity_text(
            table,
            identity_of(ids, guards[p].0)->0,
        ) && b == identity_text(table, identity_of(ids, guards[q].0)->0)
}

/// The acquisitions `acq` are of guards of `instance`, each at one of the guard's
/// acquisition locations.
pub open spec fn acquisitions_of(
    guards: Seq<(LockGuardId, LockGuardInfo)>,
    instance: Instance,
    acq: Seq<(usize, MirLocation)>,
) -> bool {
    forall|k: int|
        0 <= k < acq.len() ==> (#[trigger] acq[k]).0 < guards.len() && same_instance(guards[acq[k].0 as int].0.instance, instance)
            && guards[acq[k].0 as int].1.gen_locs@.contains(acq[k].1)
}

/// The acquisitions in order of location; acquisitions at the same location keep their order.
fn sort_by_location(v: &Vec<(usize, MirLocation)>) -> (r: Vec<(usize, MirLocation)>)
    ensures
        r@.len() == v@.len(),
        forall|k: int| 0 <= k < r@.len() ==> v@.contains(#[trigger] r@[k]),
{
    let mut out: Vec<(usize, MirLocation)> = Vec::new();
    let mut i: usize = 0;
    while i < v.len()
        invariant
            i <= v@.len(),
            out@.len() == i,
            forall|k: int| 0 <= k < out@.len() ==> v@.contains(#[trigger] out@[k]),
        decreases v@.len() - i,
    {
        let x = v[i];
        let mut pos: usize = out.len();
        while pos > 0 && !out[pos - 1].1.le(&x.1)
            invariant
                pos <= out@.len(),
            decreases pos,
        {
            pos = pos - 1;
        }
        let ghost before = out@;
        out.insert(pos, x);
        proof {
            assert(v@[i as int] == x);
            assert forall|k: int| 0 <= k < out@.len() implies v@.contains(#[trigger] out@[k]) by {
                if k < pos {
                    assert(out@[k] == before[k]);
                } else if k > pos {
                    assert(out@[k] == before[k - 1]);
                }
            }
        }
        i = i + 1;
    }
    out
}

impl LockDetector {
    /// Adds to the lock graph, for each instance, an edge between the mutexes of each two
    /// guards where the second is acquired while the first is held, in order of acquisition,
    /// unless they are taken for guards of the same mutex or a mutex is unknown.
    pub fn build_lock_graph(
        &mut self,
        lockguards: &Vec<(LockGuardId, LockGuardInfo)>,
        identities: &Vec<(LockGuardId, MutexIdentity)>,
        instances: &Vec<Instance>,
        table: &TyTable,
    )
        requires
            old(self).wf(),
        ensures
            final(self).wf(),
            final(self).reports_spec() == old(self).reports_spec(),
            forall|a: Seq<char>, b: Seq<char>| #[trigger] has_edge(old(self).graph_edges(), a, b) ==> has_edge(
                final(self).graph_edges(),
                a,
                b,
            ),
            forall|a: Seq<char>, b: Seq<char>| #[trigger] has_edge(final(self).graph_edges(), a, b) ==> has_edge(
                old(self).graph_edges(),
                a,
                b,
            ) || graph_edge_justified(*table, lockguards@, identities@, a, b),
    {
        let mut n: usize = 0;
        while n < instances.len()
            invariant
                n <= instances@.len(),
                self.wf(),
                self.reports@ == old(self).reports@,
                forall|a: Seq<char>, b: Seq<char>| #[trigger] has_edge(old(self).lock_graph.edges@, a, b) ==> has_edge(
                    self.lock_graph.edges@,
                    a,
                    b,
                ),
                forall|a: Seq<char>, b: Seq<char>| #[trigger] has_edge(self.lock_graph.edges@, a, b) ==> has_edge(
                    old(self).lock_graph.edges@,
                    a,
                    b,
                ) || graph_edge_justified(*table, lockguards@, identities@, a, b),
            decreases instances@.len() - n,
        {
            let instance = &instances[n];
            let mut acq: Vec<(usize, MirLocation)> = Vec::new();
            let mut g: usize = 0;
            while g < lockguards.len()
                invariant
                    g <= lockguards@.len(),
                    acquisitions_of(lockguards@, *instance, acq@),
                decreases lockguards@.len() - g,
            {
                if instance_eq(&lockguards[g].0.instance, instance) {
                    let info = &lockguards[g].1;
                    let mut k: usize = 0;
                    while k < info.gen_locs.len()
                        invariant
                            g < lockguards@.len(),
                            *info == lockguards@[g as int].1,
                            same_instance(lockguards@[g as int].0.instance, *instance),
                            k <= info.gen_locs@.len(),
                            acquisitions_of(lockguards@, *instance, acq@),
                        decreases info.gen_locs@.len() - k,
                    {
                        let ghost before = acq@;
                        acq.push((g, info.gen_locs[k]));
                        proof {
                            assert(info.gen_locs@.contains(info.gen_locs@[k as int]));
                            assert forall|j: int| 0 <= j < acq@.len() implies (#[trigger] acq@[j]).0 < lockguards@.len()
                                && same_instance(lockguards@[acq@[j].0 as int].0.instance, *instance)
                                && lockguards@[acq@[j].0 as int].1.gen_locs@.contains(acq@[j].1) by {
                                if j < before.len() {
                                    assert(acq@[j] == before[j]);
                                }
                            }
                        }
                        k = k + 1;
                    }
                }
                g = g + 1;
            }
            let sorted = sort_by_location(&acq);
            proof {
                assert forall|k: int| 0 <= k < sorted@.len() implies (#[trigger] sorted@[k]).0 < lockguards@.len()
                    && same_instance(lockguards@[sorted@[k].0 as int].0.instance, *instance)
                    && lockguards@[sorted@[k].0 as int].1.gen_locs@.contains(sorted@[k].1) by {
                    assert(acq@.contains(sorted@[k]));
                    let j = choose|j: int| 0 <= j < acq@.len() && acq@[j] == sorted@[k];
                    assert(acq@[j].0 < lockguards@.len());
                }
            }
            let mut a: usize = 0;
            while a < sorted.len()
                invariant
                    a <= sorted@.len(),
                    acquisitions_of(lockguards@, *instance, sorted@),
                    self.wf(),
                    self.reports@ == old(self).reports@,
                    forall|x: Seq<char>, y: Seq<char>| #[trigger] has_edge(old(self).lock_graph.edges@, x, y) ==> has_edge(
                        self.lock_graph.edges@,
                        x,
                        y,
                    ),
                    forall|x: Seq<char>, y: Seq<char>| #[trigger] has_edge(self.lock_graph.edges@, x, y) ==> has_edge(
                        old(self).lock_graph.edges@,
                        x,
                        y,
                    ) || graph_edge_justified(*table, lockguards@, identities@, x, y),
                decreases sorted@.len() - a,
            {
                let mut b: usize = a + 1;
                while b < sorted.len()
                    invariant
                        a < sorted@.len(),
                        a < b <= sorted@.len(),
                        acquisitions_of(lockguards@, *instance, sorted@),
                        self.wf(),
                        self.reports@ == old(self).reports@,
                        forall|x: Seq<char>, y: Seq<char>| #[trigger] has_edge(old(self).lock_graph.edges@, x, y) ==> has_edge(
                            self.lock_graph.edges@,
                            x,
                            y,
                        ),
                        forall|x: Seq<char>, y: Seq<char>| #[trigger] has_edge(self.lock_graph.edges@, x, y) ==> has_edge(
                            old(self).lock_graph.edges@,
                            x,
                            y,
                        ) || graph_edge_justified(*table, lockguards@, identities@, x, y),
                    decreases sorted@.len() - b,
                {
                    let (g1, _) = sorted[a];
                    let (g2, loc2) = sorted[b];
                    proof {
                        assert(acquisitions_of(lockguards@, *instance, sorted@));
                        assert(sorted@[a as int].0 == g1);
                        assert(sorted@[b as int].0 == g2 && sorted@[b as int].1 == loc2);
                    }
                    if self.is_guard_alive_at(g1, &loc2, lockguards) {
                        let (id1, info1) = (&lockguards[g1].0, &lockguards[g1].1);
                        let (id2, info2) = (&lockguards[g2].0, &lockguards[g2].1);
                        if !self.guards_on_same_mutex(id1, info1, id2, info2, identities, table) {
                            match (find_identity(identities, id1), find_identity(identities, id2)) {
                                (Some(x), Some(y)) => {
                                    let key1 = self.mutex_id_to_string(&identities[x].1, table);
                                    let key2 = self.mutex_id_to_string(&identities[y].1, table);
                                    let ghost k1 = key1@;
                                    let ghost k2 = key2@;
                                    let ghost prev = self.lock_graph.edges@;
                                    assert(self.lock_graph.edges_spec() == prev);
                                    self.lock_graph.add_edge(key1, key2, loc2);
                                    proof {
                                        assert(self.lock_graph.edges_spec() == self.lock_graph.edges@);
                                        assert(graph_edge_justified(*table, lockguards@, identities@, k1, k2)) by {
                                            assert(lockguards@[g2 as int].1.gen_locs@.contains(loc2));
                                            assert(alive_at(lockguards@[g1 as int].1, loc2));
                                        }
                                        assert forall|x: Seq<char>, y: Seq<char>| #[trigger] has_edge(self.lock_graph.edges@, x, y) implies has_edge(
                                            old(self).lock_graph.edges@,
                                            x,
                                            y,
                                        ) || graph_edge_justified(*table, lockguards@, identities@, x, y) by {
                                            if has_edge(prev, x, y) {
                                            }
                                        }
                                        assert forall|x: Seq<char>, y: Seq<char>| #[trigger] has_edge(old(self).lock_graph.edges@, x, y) implies has_edge(
                                            self.lock_graph.edges@,
                                            x,
                                            y,
                                        ) by {
                                            assert(has_edge(prev, x, y));
                                        }
                                    }
                                },
                                _ => {},
                            }
                        }
                    }
                    b = b + 1;
                }
                a = a + 1;
            }
            n = n + 1;
        }
    }

    /// Whether guard `g` of `lockguards` is held at `location`.
    fn is_guard_alive_at(
        &self,
        g: usize,
        location: &MirLocation,
        lockguards: &Vec<(LockGuardId, LockGuardInfo)>,
    ) -> (r: bool)
        ensures
            r == (g < lockguards@.len() && alive_at(lockguards@[g as int].1, *location)),
    {
        if g < lockguards.len() {
            lockguards[g].1.is_alive_at(location)
        } else {
            false
        }
    }

    /// The printed form of a mutex identity, which keys it in the lock graph.
    fn mutex_id_to_string(&self, id: &MutexIdentity, table: &TyTable) -> (r: String)
        ensures
            r@ == identity_text(*table, *id),
    {
        id.text(table)
    }

    /// Reports double locks among `lockguards`, then cycles in the lock graph.
    pub fn detect_deadlocks(
        &mut self,
        lockguards: &Vec<(LockGuardId, LockGuardInfo)>,
        identities: &Vec<(LockGuardId, MutexIdentity)>,
        table: &TyTable,
    )
        requires
            old(self).wf(),
        ensures
            final(self).wf(),
            final(self).graph_edges() == old(self).graph_edges(),
            report_views(final(self).reports_spec()).subrange(0, (old(self).reports_spec().len() + double_reports(*table, lockguards@, identities@, 0).len()) as int)
                == report_views(old(self).reports_spec()) + double_reports(*table, lockguards@, identities@, 0),
            final(self).reports_spec().len() >= old(self).reports_spec().len() + double_reports(*table, lockguards@, identities@, 0).len(),
            forall|k: int|
                old(self).reports_spec().len() + double_reports(*table, lockguards@, identities@, 0).len() <= k < final(self).reports_spec().len()
                    ==> #[trigger] report_from_cycle(final(self).graph_edges(), final(self).reports_spec()[k]),
    {
        self.detect_double_lock(lockguards, identities, table);
        let ghost mid = report_views(self.reports@);
        assert(mid.len() == self.reports@.len());
        self.detect_conflicting_lock();
        proof {
            assert(report_views(self.reports@).subrange(0, mid.len() as int) =~= mid);
        }
    }

    /// Reports each cycle of at least two mutexes in the lock graph.
    pub fn detect_conflicting_lock(&mut self)
        ensures
            final(self).graph_edges() == old(self).graph_edges(),
            final(self).wf() == old(self).wf(),
            final(self).reports_spec().len() >= old(self).reports_spec().len(),
            report_views(final(self).reports_spec()).subrange(0, old(self).reports_spec().len() as int) == report_views(old(self).reports_spec()),
            forall|k: int|
                old(self).reports_spec().len() <= k < final(self).reports_spec().len() ==> #[trigger] report_from_cycle(
                    final(self).graph_edges(),
                    final(self).reports_spec()[k],
                ),
            (forall|a: Seq<char>| !#[trigger] has_edge(final(self).graph_edges(), a, a)) && (exists|c: Seq<Seq<char>>|
                #[trigger] is_cycle(final(self).graph_edges(), c)) ==> final(self).reports_spec().len() > old(
                self,
            ).reports_spec().len(),
    {
        let cycles = self.lock_graph.find_cycles();
        assert(self.lock_graph.edges_spec() == self.lock_graph.edges@);
        let mut i: usize = 0;
        while i < cycles.len()
            invariant
                i <= cycles@.len(),
                self.lock_graph == old(self).lock_graph,
                forall|k: int| 0 <= k < cycles@.len() ==> is_cycle(self.lock_graph.edges@, views((#[trigger] cycles@[k])@)),
                self.reports@.len() >= old(self).reports@.len(),
                report_views(self.reports@).subrange(0, old(self).reports@.len() as int) == report_views(old(self).reports@),
                forall|k: int|
                    old(self).reports@.len() <= k < self.reports@.len() ==> #[trigger] report_from_cycle(
                        self.lock_graph.edges@,
                        self.reports@[k],
                    ),
                (forall|a: Seq<char>| !#[trigger] has_edge(self.lock_graph.edges@, a, a)) ==> self.reports@.len()
                    == old(self).reports@.len() + i,
            decreases cycles@.len() - i,
        {
            proof {
                let c = views(cycles@[i as int]@);
                assert(is_cycle(self.lock_graph.edges@, c));
                assert(c.len() == cycles@[i as int]@.len());
                if c.len() < 2 {
                    assert(c.last() == c[0]);
                    assert(has_edge(self.lock_graph.edges@, c[0], c[0]));
                }
            }
            if cycles[i].len() >= 2 {
                let report = conflict_report_of(&cycles[i]);
                proof {
                    assert(is_cycle(self.lock_graph.edges@, views(cycles@[i as int]@)));
                    assert(report_from_cycle(self.lock_graph.edges@, report));
                }
                let ghost before = self.reports@;
                self.reports.push(report);
                proof {
                    assert(report_views(self.reports@).subrange(0, old(self).reports@.len() as int) =~= report_views(before).subrange(0, old(self).reports@.len() as int));
                    assert forall|k: int|
                        old(self).reports@.len() <= k < self.reports@.len() implies #[trigger] report_from_cycle(
                            self.lock_graph.edges@,
                            self.reports@[k],
                        ) by {
                        if k < before.len() {
                            assert(self.reports@[k] == before[k]);
                        }
                    }
                }
            }
            i = i + 1;
        }
    }

    /// Finds the guards of each item, the mutex each locks, and the order in which they are
    /// taken, then reports double locks and lock cycles; gives back every report made.
    ///
    /// No local's type is classified as a guard (see `LockGuardTy::from_ty`), so no guard is
    /// found and the reports added are those of cycles already in the lock graph.
    pub fn detect(&mut self, items: &[AnalyzedItem], table: &TyTable) -> (r: Vec<LockReport>)
        requires
            old(self).wf(),
        ensures
            final(self).wf(),
            report_views(r@) == report_views(final(self).reports_spec()),
            final(self).reports_spec().len() >= old(self).reports_spec().len(),
            report_views(final(self).reports_spec()).subrange(0, old(self).reports_spec().len() as int) == report_views(old(self).reports_spec()),
            forall|a: Seq<char>, b: Seq<char>| #[trigger] has_edge(final(self).graph_edges(), a, b) == has_edge(old(self).graph_edges(), a, b),
            forall|k: int|
                old(self).reports_spec().len() <= k < final(self).reports_spec().len() ==> #[trigger] report_from_cycle(
                    final(self).graph_edges(),
                    final(self).reports_spec()[k],
                ),
    {
        let mut all_lockguards: Vec<(LockGuardId, LockGuardInfo)> = Vec::new();
        let mut owners: Vec<usize> = Vec::new();
        let mut instances_with_locks: Vec<Instance> = Vec::new();
        let mut i: usize = 0;
        while i < items.len()
            invariant
                i <= items@.len(),
                all_lockguards@.len() == 0,
                owners@.len() == all_lockguards@.len(),
            decreases items@.len() - i,
        {
            let item = &items[i];
            let mut collector = LockLifecycleCollector::new(copy_instance(&item.instance), &item.body, table);
            collector.analyze();
            let found = collector.guards();
            if found.len() > 0 {
                let mut k: usize = 0;
                while k < found.len()
                    invariant
                        k <= found@.len(),
                        owners@.len() == all_lockguards@.len(),
                    decreases found@.len() - k,
                {
                    all_lockguards.push((found[k].0.clone(), found[k].1.clone()));
                    owners.push(i);
                    k = k + 1;
                }
                instances_with_locks.push(copy_instance(&item.instance));
            }
            i = i + 1;
        }
        let mut analyzer = MutexIdentityAnalyzer::new();
        let mut identities: Vec<(LockGuardId, MutexIdentity)> = Vec::new();
        let mut g: usize = 0;
        while g < all_lockguards.len()
            invariant
                g <= all_lockguards@.len(),
                owners@.len() == all_lockguards@.len(),
                forall|k: int| 0 <= k < owners@.len() ==> #[trigger] owners@[k] < items@.len(),
            decreases all_lockguards@.len() - g,
        {
            let owner = owners[g];
            let guard_id = &all_lockguards[g].0;
            if let Some(identity) = analyzer.analyze_mutex_from_guard(guard_id.local, &guard_id.instance, &items[owner].body, table) {
                identities.push((guard_id.clone(), identity));
            }
            g = g + 1;
        }
        let ghost e0 = self.lock_graph.edges@;
        assert(self.graph_edges() == e0);
        self.build_lock_graph(&all_lockguards, &identities, &instances_with_locks, table);
        proof {
            assert(self.graph_edges() == self.lock_graph.edges@);
            assert forall|a: Seq<char>, b: Seq<char>| #[trigger] has_edge(self.lock_graph.edges@, a, b) == has_edge(e0, a, b) by {
                assert(!graph_edge_justified(*table, all_lockguards@, identities@, a, b));
            }
            assert(double_reports(*table, all_lockguards@, identities@, 0) =~= Seq::empty());
        }
        let ghost r0 = report_views(self.reports@);
        self.detect_deadlocks(&all_lockguards, &identities, table);
        let mut out: Vec<LockReport> = Vec::new();
        let mut k: usize = 0;
        while k < self.reports.len()
            invariant
                k <= self.reports@.len(),
                report_views(out@) == report_views(self.reports@.subrange(0, k as int)),
            decreases self.reports@.len() - k,
        {
            out.push(self.reports[k].copy());
            proof {
                assert(report_views(self.reports@.subrange(0, k + 1)) =~= report_views(self.reports@.subrange(0, k as int)).push(self.reports@[k as int]@));
                assert(report_views(out@) =~= report_views(self.reports@.subrange(0, k + 1)));
            }
            k = k + 1;
        }
        proof {
            assert(self.reports@.subrange(0, self.reports@.len() as int) =~= self.reports@);
            assert(report_views(self.reports@).subrange(0, old(self).reports@.len() as int) =~= r0);
        }
        out
    }
}

impl Default for LockDetector {
    fn default() -> (r: Self)
        ensures
            r.wf(),
            r.reports_spec().len() == 0,
            r.graph_edges().len() == 0,
    {
        Self::new()
    }
}

} // verus!
