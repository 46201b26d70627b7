//! The graph of conflicting lock relations, held in a `petgraph` graph whose
//! nodes are relations between guards and whose edges say that the second
//! guard of one relation may deadlock with the first guard of another.

use vstd::prelude::*;

use petgraph::graph::NodeIndex;
use petgraph::visit::EdgeRef;

use crate::lockbud::types::{DeadlockPossibility, LockGuardId};

verus! {

#[verifier::external_type_specification]
#[verifier::external_body]
#[verifier::reject_recursive_types(GN)]
#[verifier::reject_recursive_types(GE)]
#[verifier::reject_recursive_types(GT)]
#[verifier::reject_recursive_types(GI)]
pub struct ExGraph<GN, GE, GT, GI>(petgraph::graph::Graph<GN, GE, GT, GI>);

#[verifier::external_type_specification]
#[verifier::external_body]
pub struct ExDirected(petgraph::Directed);

/// The weights of the nodes of a conflict graph, by node index.
pub uninterp spec fn graph_nodes(
    g: petgraph::graph::Graph<(LockGuardId, LockGuardId), DeadlockPossibility, petgraph::Directed, usize>,
) -> Seq<(LockGuardId, LockGuardId)>;

/// The edges of a conflict graph in the order they were added: source, target, weight.
pub uninterp spec fn graph_edges(
    g: petgraph::graph::Graph<(LockGuardId, LockGuardId), DeadlockPossibility, petgraph::Directed, usize>,
) -> Seq<(usize, usize, DeadlockPossibility)>;

/// The targets of the edges from `a`, the most recently added first.
pub open spec fn out_targets(edges: Seq<(usize, usize, DeadlockPossibility)>, a: usize) -> Seq<usize>
    decreases edges.len(),
{
    if edges.len() == 0 {
        Seq::empty()
    } else {
        let rest = out_targets(edges.drop_last(), a);
        if edges.last().0 == a {
            seq![edges.last().1] + rest
        } else {
            rest
        }
    }
}

/// `Graph::default` (an empty graph with `usize` indices): no nodes, no edges.
#[verifier::external_body]
fn graph_new() -> (g: petgraph::graph::Graph<(LockGuardId, LockGuardId), DeadlockPossibility, petgraph::Directed, usize>)
    ensures
        graph_nodes(g) == Seq::<(LockGuardId, LockGuardId)>::empty(),
        graph_edges(g) == Seq::<(usize, usize, DeadlockPossibility)>::empty(),
{
    petgraph::graph::Graph::default()
}

/// `Graph::add_node`: appends a node with `weight` and returns its index, the
/// former number of nodes; the edges stay as they were.
#[verifier::external_body]
fn graph_add_node(
    g: &mut petgraph::graph::Graph<(LockGuardId, LockGuardId), DeadlockPossibility, petgraph::Directed, usize>,
    weight: (LockGuardId, LockGuardId),
) -> (r: usize)
    ensures
        graph_nodes(*final(g)) == graph_nodes(*old(g)).push(weight),
        graph_edges(*final(g)) == graph_edges(*old(g)),
        r == graph_nodes(*old(g)).len(),
{
    g.add_node(weight).index()
}

/// `Graph::add_edge`: appends an edge from `a` to `b` with `weight`; the nodes
/// stay as they were. It panics when a node does not exist, which `requires`
/// leaves out.
#[verifier::external_body]
fn graph_add_edge(
    g: &mut petgraph::graph::Graph<(LockGuardId, LockGuardId), DeadlockPossibility, petgraph::Directed, usize>,
    a: usize,
    b: usize,
    weight: DeadlockPossibility,
)
    requires
        a < graph_nodes(*old(g)).len(),
        b < graph_nodes(*old(g)).len(),
    ensures
        graph_edges(*final(g)) == graph_edges(*old(g)).push((a, b, weight)),
        graph_nodes(*final(g)) == graph_nodes(*old(g)),
{
    g.add_edge(NodeIndex::new(a), NodeIndex::new(b), weight);
}

/// `Graph::node_count`: the number of nodes.
#[verifier::external_body]
fn graph_node_count(
    g: &petgraph::graph::Graph<(LockGuardId, LockGuardId), DeadlockPossibility, petgraph::Directed, usize>,
) -> (r: usize)
    ensures
        r == graph_nodes(*g).len(),
{
    g.node_count()
}

/// `Graph::node_weight`: the weight of an existing node.
#[verifier::external_body]
fn graph_node_weight(
    g: &petgraph::graph::Graph<(LockGuardId, LockGuardId), DeadlockPossibility, petgraph::Directed, usize>,
    a: usize,
) -> (r: Option<&(LockGuardId, LockGuardId)>)
    requires
        a < graph_nodes(*g).len(),
    ensures
        r == Some(&graph_nodes(*g)[a as int]),
{
    g.node_weight(NodeIndex::new(a))
}

/// `Graph::edges_directed` with `Outgoing`, each edge taken by its target:
/// for a directed graph the edges from `a`, the most recently added first.
#[verifier::external_body]
fn graph_out_targets(
    g: &petgraph::graph::Graph<(LockGuardId, LockGuardId), DeadlockPossibility, petgraph::Directed, usize>,
    a: usize,
) -> (r: Vec<usize>)
    ensures
        r@ == out_targets(graph_edges(*g), a),
{
    g.edges_directed(NodeIndex::new(a), petgraph::Direction::Outgoing).map(|e| e.target().index()).collect()
}

/// `a` comes before `b` or equals it, comparing item by item, a proper prefix first.
pub open spec fn lex_le(a: Seq<usize>, b: Seq<usize>) -> bool
    decreases a.len(),
{
    if a.len() == 0 {
        true
    } else if b.len() == 0 {
        false
    } else if a[0] < b[0] {
        true
    } else if a[0] > b[0] {
        false
    } else {
        lex_le(a.drop_first(), b.drop_first())
    }
}

/// The graph has an edge from `a` to `b`.
pub open spec fn has_conflict_edge(edges: Seq<(usize, usize, DeadlockPossibility)>, a: usize, b: usize) -> bool {
    exists|i: int| 0 <= i < edges.len() && (#[trigger] edges[i]).0 == a && edges[i].1 == b
}

/// `c` lists distinct nodes, each with an edge to the next and the last with one to the first.
pub open spec fn is_conflict_cycle(edges: Seq<(usize, usize, DeadlockPossibility)>, c: Seq<usize>) -> bool {
    &&& c.len() >= 1
    &&& c.no_duplicates()
    &&& forall|i: int| 0 <= i < c.len() - 1 ==> has_conflict_edge(edges, #[trigger] c[i], c[i + 1])
    &&& has_conflict_edge(edges, c.last(), c[0])
}

/// The walk `p` goes along edges of the graph.
pub open spec fn is_conflict_walk(edges: Seq<(usize, usize, DeadlockPossibility)>, p: Seq<usize>) -> bool {
    forall|i: int| 0 <= i < p.len() - 1 ==> has_conflict_edge(edges, #[trigger] p[i], p[i + 1])
}

/// Each listed target of `a` is the target of an edge from `a`.
proof fn lemma_out_targets(edges: Seq<(usize, usize, DeadlockPossibility)>, a: usize)
    ensures
        forall|k: int| 0 <= k < out_targets(edges, a).len() ==> has_conflict_edge(edges, a, #[trigger] out_targets(edges, a)[k]),
    decreases edges.len(),
{
    if edges.len() > 0 {
        let d = edges.drop_last();
        lemma_out_targets(d, a);
        let t = out_targets(edges, a);
        assert forall|k: int| 0 <= k < t.len() implies has_conflict_edge(edges, a, #[trigger] t[k]) by {
            if edges.last().0 == a && k == 0 {
                assert(edges[edges.len() - 1] == edges.last());
            } else {
                let k2 = if edges.last().0 == a { k - 1 } else { k };
                assert(t[k] == out_targets(d, a)[k2]);
                assert(has_conflict_edge(d, a, out_targets(d, a)[k2]));
                let j = choose|j: int| 0 <= j < d.len() && (#[trigger] d[j]).0 == a && d[j].1 == t[k];
                assert(edges[j] == d[j]);
            }
        }
    }
}

/// Each edge from `a` has its target among the listed targets of `a`.
proof fn lemma_out_targets_complete(edges: Seq<(usize, usize, DeadlockPossibility)>, a: usize, b: usize)
    requires
        has_conflict_edge(edges, a, b),
    ensures
        out_targets(edges, a).contains(b),
    decreases edges.len(),
{
    let j = choose|j: int| 0 <= j < edges.len() && (#[trigger] edges[j]).0 == a && edges[j].1 == b;
    let d = edges.drop_last();
    let t = out_targets(edges, a);
    if j == edges.len() - 1 {
        assert(t[0] == b);
    } else {
        assert(d[j] == edges[j]);
        lemma_out_targets_complete(d, a, b);
        let k = choose|k: int| 0 <= k < out_targets(d, a).len() && out_targets(d, a)[k] == b;
        if edges.last().0 == a {
            assert(t[k + 1] == b);
        } else {
            assert(t[k] == b);
        }
    }
}

/// `r` is the first position of a smallest item of `c`.
pub open spec fn is_first_min(c: Seq<usize>, r: int) -> bool {
    &&& 0 <= r < c.len()
    &&& forall|i: int| 0 <= i < c.len() ==> c[r] <= c[i]
    &&& forall|i: int| 0 <= i < r ==> c[r] < c[i]
}

/// The first position of a smallest item of `c`.
pub open spec fn first_min(c: Seq<usize>) -> int {
    choose|r: int| #[trigger] is_first_min(c, r)
}

/// `c` rotated left by `k`.
pub open spec fn rot(c: Seq<usize>, k: int) -> Seq<usize> {
    c.subrange(k, c.len() as int) + c.subrange(0, k)
}

/// The form of cycle `c` by which cycles equal up to rotation and direction
/// are told apart: rotated to start at its smallest node, read either way,
/// whichever comes first.
pub open spec fn canonical(c: Seq<usize>) -> Seq<usize> {
    let n = rot(c, first_min(c));
    let rn = rot(n.reverse(), first_min(n.reverse()));
    if lex_le(n, rn) {
        n
    } else {
        rn
    }
}

/// `v` holds the list `x`.
pub open spec fn holds(v: Seq<Vec<usize>>, x: Seq<usize>) -> bool {
    exists|i: int| 0 <= i < v.len() && (#[trigger] v[i])@ == x
}

/// `c` starts with `p`.
pub open spec fn starts_with(c: Seq<usize>, p: Seq<usize>) -> bool {
    p.len() <= c.len() && c.subrange(0, p.len() as int) == p
}

/// The node of cycle `c` after its first `k` nodes: the next one, or the first
/// one again where `c` has no more.
pub open spec fn node_after(c: Seq<usize>, k: int) -> usize {
    if k < c.len() {
        c[k]
    } else {
        c[0]
    }
}

/// The cycles of at most five nodes that start with `p` and go on to a node
/// among `ns` have their canonical forms in `seen`.
pub open spec fn cycles_seen(
    edges: Seq<(usize, usize, DeadlockPossibility)>,
    p: Seq<usize>,
    ns: Seq<usize>,
    seen: Seq<Vec<usize>>,
) -> bool {
    forall|c: Seq<usize>|
        #[trigger] is_conflict_cycle(edges, c) && c.len() <= 5 && starts_with(c, p) && ns.contains(node_after(c, p.len() as int))
            ==> holds(seen, canonical(c))
}

/// A graph whose nodes are relations between guards, with an edge where the
/// second guard of one relation may deadlock with the first guard of another.
pub struct ConflictLockGraph {
    graph: petgraph::graph::Graph<(LockGuardId, LockGuardId), DeadlockPossibility, petgraph::Directed, usize>,
}

impl ConflictLockGraph {
    /// The relations of the nodes, by index.
    pub closed spec fn nodes(&self) -> Seq<(LockGuardId, LockGuardId)> {
        graph_nodes(self.graph)
    }

    /// The edges in the order they were added.
    pub closed spec fn edges(&self) -> Seq<(usize, usize, DeadlockPossibility)> {
        graph_edges(self.graph)
    }

    /// Every edge joins two nodes of the graph.
    pub open spec fn wf(&self) -> bool {
        forall|a: usize, b: usize|
            #[trigger] has_conflict_edge(self.edges(), a, b) ==> a < self.nodes().len() && b < self.nodes().len()
    }

    pub fn new() -> (r: Self)
        ensures
            r.nodes().len() == 0,
            r.edges().len() == 0,
    {
        ConflictLockGraph { graph: graph_new() }
    }

    /// Adds a node for `relation`; returns its index.
    pub fn add_node(&mut self, relation: (LockGuardId, LockGuardId)) -> (r: usize)
        ensures
            final(self).nodes() == old(self).nodes().push(relation),
            final(self).edges() == old(self).edges(),
            r == old(self).nodes().len(),
    {
        graph_add_node(&mut self.graph, relation)
    }

    /// Adds an edge from `from` to `to`.
    pub fn add_edge(&mut self, from: usize, to: usize, weight: DeadlockPossibility)
        requires
            from < old(self).nodes().len(),
            to < old(self).nodes().len(),
        ensures
            final(self).edges() == old(self).edges().push((from, to, weight)),
            final(self).nodes() == old(self).nodes(),
    {
        graph_add_edge(&mut self.graph, from, to, weight);
    }

    /// The number of nodes.
    pub fn node_count(&self) -> (r: usize)
        ensures
            r == self.nodes().len(),
    {
        graph_node_count(&self.graph)
    }

    /// The relation of node `node`, if there is such a node.
    pub fn node_weight(&self, node: usize) -> (r: Option<&(LockGuardId, LockGuardId)>)
        ensures
            match r {
                Some(w) => node < self.nodes().len() && *w == self.nodes()[node as int],
                None => node >= self.nodes().len(),
            },
    {
        if node < graph_node_count(&self.graph) {
            graph_node_weight(&self.graph, node)
        } else {
            None
        }
    }

    /// The position of the smallest node of a non-empty list.
    fn min_pos(c: &Vec<usize>) -> (r: usize)
        requires
            c@.len() > 0,
        ensures
            r < c@.len(),
            forall|i: int| 0 <= i < c@.len() ==> c@[r as int] <= c@[i],
            forall|i: int| 0 <= i < r ==> c@[r as int] < c@[i],
            r == first_min(c@),
    {
        let mut best: usize = 0;
        let mut i: usize = 1;
        while i < c.len()
            invariant
                1 <= i <= c@.len(),
                best < i,
                forall|k: int| 0 <= k < i ==> c@[best as int] <= c@[k],
                forall|k: int| 0 <= k < best ==> c@[best as int] < c@[k],
            decreases c@.len() - i,
        {
            if c[i] < c[best] {
                best = i;
            }
            i = i + 1;
        }
        proof {
            assert(is_first_min(c@, best as int));
            let f = first_min(c@);
            assert(is_first_min(c@, f));
            if f < best {
                assert(c@[best as int] < c@[f]);
            } else if f > best {
                assert(c@[f] < c@[best as int]);
            }
        }
        best
    }

    /// `c` rotated left by `k`.
    fn rotated(c: &Vec<usize>, k: usize) -> (r: Vec<usize>)
        requires
            k < c@.len(),
        ensures
            r@ == c@.subrange(k as int, c@.len() as int) + c@.subrange(0, k as int),
    {
        let mut r: Vec<usize> = Vec::new();
        let mut i: usize = k;
        while i < c.len()
            invariant
                k <= i <= c@.len(),
                r@ == c@.subrange(k as int, i as int),
            decreases c@.len() - i,
        {
            r.push(c[i]);
            i = i + 1;
            assert(r@ =~= c@.subrange(k as int, i as int));
        }
        let mut j: usize = 0;
        while j < k
            invariant
                j <= k,
                k < c@.len(),
                r@ == c@.subrange(k as int, c@.len() as int) + c@.subrange(0, j as int),
            decreases k - j,
        {
            r.push(c[j]);
            j = j + 1;
            assert(r@ =~= c@.subrange(k as int, c@.len() as int) + c@.subrange(0, j as int));
        }
        r
    }

    /// `c` reversed.
    fn reversed(c: &Vec<usize>) -> (r: Vec<usize>)
        ensures
            r@ == c@.reverse(),
    {
        let mut r: Vec<usize> = Vec::new();
        let mut i: usize = c.len();
        while i > 0
            invariant
                i <= c@.len(),
                r@ == c@.subrange(i as int, c@.len() as int).reverse(),
            decreases i,
        {
            i = i - 1;
            r.push(c[i]);
            assert(r@ =~= c@.subrange(i as int, c@.len() as int).reverse());
        }
        assert(c@.subrange(0, c@.len() as int) =~= c@);
        r
    }

    /// Whether two lists are equal.
    fn same_list(a: &Vec<usize>, b: &Vec<usize>) -> (r: bool)
        ensures
            r == (a@ == b@),
    {
        if a.len() != b.len() {
            return false;
        }
        let mut i: usize = 0;
        while i < a.len()
            invariant
                i <= a@.len(),
                a@.len() == b@.len(),
                forall|k: int| 0 <= k < i ==> a@[k] == b@[k],
            decreases a@.len() - i,
        {
            if a[i] != b[i] {
                return false;
            }
            i = i + 1;
        }
        assert(a@ =~= b@);
        true
    }

    /// Whether `a` comes before `b` or equals it, comparing lists item by item.
    fn list_le(a: &Vec<usize>, b: &Vec<usize>) -> (r: bool)
        ensures
            r == lex_le(a@, b@),
    {
        let mut i: usize = 0;
        assert(a@.skip(0) =~= a@ && b@.skip(0) =~= b@);
        while i < a.len() && i < b.len()
            invariant
                i <= a@.len(),
                i <= b@.len(),
                lex_le(a@, b@) == lex_le(a@.skip(i as int), b@.skip(i as int)),
            decreases a@.len() - i,
        {
            assert(a@.skip(i as int)[0] == a@[i as int]);
            assert(b@.skip(i as int)[0] == b@[i as int]);
            if a[i] < b[i] {
                return true;
            }
            if a[i] > b[i] {
                return false;
            }
            assert(a@.skip(i as int).drop_first() =~= a@.skip(i + 1));
            assert(b@.skip(i as int).drop_first() =~= b@.skip(i + 1));
            i = i + 1;
        }
        a.len() <= b.len()
    }

    /// Whether `v` holds the list `c`.
    fn holds_list(v: &Vec<Vec<usize>>, c: &Vec<usize>) -> (r: bool)
        ensures
            r == exists|i: int| 0 <= i < v@.len() && (#[trigger] v@[i])@ == c@,
    {
        let mut i: usize = 0;
        while i < v.len()
            invariant
                i <= v@.len(),
                forall|k: int| 0 <= k < i ==> (#[trigger] v@[k])@ != c@,
            decreases v@.len() - i,
        {
            if Self::same_list(&v[i], c) {
                return true;
            }
            i = i + 1;
        }
        false
    }

    /// Explores the walks that extend `path` from `start`, recording each
    /// that returns to `start` as a cycle unless one equal to it up to
    /// rotation and direction was recorded before. The edges from a node are
    /// taken in the order they were added.
    fn cycles_from(
        &self,
        start: usize,
        path: &mut Vec<usize>,
        cycles: &mut Vec<Vec<usize>>,
        seen: &mut Vec<Vec<usize>>,
    )
        requires
            self.wf(),
            1 <= old(path)@.len() <= 6,
            old(path)@[0] == start,
            old(path)@.no_duplicates(),
            forall|i: int| 0 <= i < old(path)@.len() ==> (#[trigger] old(path)@[i]) < self.nodes().len(),
            is_conflict_walk(self.edges(), old(path)@),
            forall|i: int|
                0 <= i < old(cycles)@.len() ==> is_conflict_cycle(self.edges(), (#[trigger] old(cycles)@[i])@)
                    && old(cycles)@[i]@.len() <= 5,
            old(seen)@.len() == old(cycles)@.len(),
            forall|i: int| 0 <= i < old(seen)@.len() ==> (#[trigger] old(seen)@[i])@ == canonical(old(cycles)@[i]@),
            forall|i: int, j: int| 0 <= i < j < old(seen)@.len() ==> (#[trigger] old(seen)@[i])@ != (#[trigger] old(seen)@[j])@,
        ensures
            forall|i: int, j: int| 0 <= i < j < final(seen)@.len() ==> (#[trigger] final(seen)@[i])@ != (#[trigger] final(seen)@[j])@,
            final(path)@ == old(path)@,
            forall|i: int|
                0 <= i < final(cycles)@.len() ==> is_conflict_cycle(self.edges(), (#[trigger] final(cycles)@[i])@)
                    && final(cycles)@[i]@.len() <= 5,
            final(seen)@.len() == final(cycles)@.len(),
            forall|i: int| 0 <= i < final(seen)@.len() ==> (#[trigger] final(seen)@[i])@ == canonical(final(cycles)@[i]@),
            old(seen)@.len() <= final(seen)@.len(),
            forall|i: int| 0 <= i < old(seen)@.len() ==> #[trigger] final(seen)@[i] == old(seen)@[i],
            forall|c: Seq<usize>|
                #[trigger] is_conflict_cycle(self.edges(), c) && c.len() <= 5 && starts_with(c, old(path)@) ==> holds(
                    final(seen)@,
                    canonical(c),
                ),
        decreases 6 - old(path)@.len(),
    {
        if path.len() >= 6 {
            return;
        }
        let node = path[path.len() - 1];
        let ghost p0 = path@;
        let ghost s0 = seen@;
        let targets = graph_out_targets(&self.graph, node);
        proof {
            lemma_out_targets(self.edges(), node);
            assert(targets@.subrange(targets@.len() as int, targets@.len() as int) =~= Seq::<usize>::empty());
        }
        let mut i: usize = targets.len();
        while i > 0
            invariant
                s0 == old(seen)@,
                seen@.len() == cycles@.len(),
                forall|k: int| 0 <= k < seen@.len() ==> (#[trigger] seen@[k])@ == canonical(cycles@[k]@),
                s0.len() <= seen@.len(),
                forall|k: int| 0 <= k < s0.len() ==> #[trigger] seen@[k] == s0[k],
                forall|a: int, b: int| 0 <= a < b < seen@.len() ==> (#[trigger] seen@[a])@ != (#[trigger] seen@[b])@,
                cycles_seen(self.edges(), p0, targets@.subrange(i as int, targets@.len() as int), seen@),
                self.wf(),
                targets@ == out_targets(self.edges(), node),
                forall|k: int| 0 <= k < targets@.len() ==> has_conflict_edge(self.edges(), node, #[trigger] targets@[k]),
                path@ == p0,
                p0 == old(path)@,
                1 <= p0.len() < 6,
                p0[0] == start,
                p0.no_duplicates(),
                forall|k: int| 0 <= k < p0.len() ==> (#[trigger] p0[k]) < self.nodes().len(),
                node == p0.last(),
                is_conflict_walk(self.edges(), p0),
                i <= targets@.len(),
                forall|k: int|
                    0 <= k < cycles@.len() ==> is_conflict_cycle(self.edges(), (#[trigger] cycles@[k])@) && cycles@[k]@.len() <= 5,
            decreases i,
        {
            i = i - 1;
            let next = targets[i];
            let ghost sb = seen@;
            assert(has_conflict_edge(self.edges(), node, targets@[i as int]));
            if next == start {
                // a cycle through `start`
                let cycle = Self::copy_list(path);
                proof {
                    assert(is_conflict_cycle(self.edges(), cycle@));
                }
                let pos = Self::min_pos(&cycle);
                let normalized = Self::rotated(&cycle, pos);
                let rev = Self::reversed(&normalized);
                let rpos = Self::min_pos(&rev);
                let rev_norm = Self::rotated(&rev, rpos);
                let canonical_form = if Self::list_le(&normalized, &rev_norm) {
                    normalized
                } else {
                    rev_norm
                };
                assert(canonical_form@ == canonical(cycle@));
                if !Self::holds_list(seen, &canonical_form) {
                    let ghost sv = seen@;
                    seen.push(canonical_form);
                    cycles.push(cycle);
                    assert(seen@[seen@.len() - 1]@ == canonical(p0));
                    proof {
                        assert forall|a: int, b: int| 0 <= a < b < seen@.len() implies (#[trigger] seen@[a])@ != (#[trigger] seen@[b])@ by {
                            if b < sv.len() {
                                assert(seen@[a] == sv[a] && seen@[b] == sv[b]);
                            } else {
                                assert(seen@[a] == sv[a]);
                            }
                        }
                    }
                }
                proof {
                    assert(holds(seen@, canonical(p0)));
                    assert forall|c: Seq<usize>|
                        #[trigger] is_conflict_cycle(self.edges(), c) && c.len() <= 5 && starts_with(c, p0) && seq![next].contains(
                            node_after(c, p0.len() as int),
                        ) implies holds(seen@, canonical(c)) by {
                        assert(seq![next][0] == next);
                        if c.len() > p0.len() {
                            assert(c[p0.len() as int] == c[0]);
                        } else {
                            assert(c =~= p0);
                        }
                    }
                }
            } else if !crate::seqs::vec_contains(path, next) {
                path.push(next);
                proof {
                    crate::seqs::lemma_push_nodup(p0, next);
                    assert forall|k: int| 0 <= k < path@.len() - 1 implies has_conflict_edge(
                        self.edges(),
                        #[trigger] path@[k],
                        path@[k + 1],
                    ) by {
                        if k < p0.len() - 1 {
                            assert(path@[k] == p0[k] && path@[k + 1] == p0[k + 1]);
                        } else {
                            assert(path@[k] == node);
                        }
                    }
                    assert forall|k: int| 0 <= k < path@.len() implies (#[trigger] path@[k]) < self.nodes().len() by {
                        if k < p0.len() {
                            assert(path@[k] == p0[k]);
                        }
                    }
                }
                self.cycles_from(start, path, cycles, seen);
                path.pop();
                assert(path@ =~= p0);
                proof {
                    assert forall|c: Seq<usize>|
                        #[trigger] is_conflict_cycle(self.edges(), c) && c.len() <= 5 && starts_with(c, p0) && seq![next].contains(
                            node_after(c, p0.len() as int),
                        ) implies holds(seen@, canonical(c)) by {
                        assert(seq![next][0] == next);
                        assert(c.len() > p0.len());
                        let q = p0.push(next);
                        assert forall|k: int| 0 <= k < q.len() implies c.subrange(0, q.len() as int)[k] == q[k] by {
                            if k < p0.len() {
                                assert(c.subrange(0, p0.len() as int)[k] == c[k]);
                            }
                        }
                        assert(c.subrange(0, q.len() as int) =~= q);
                    }
                }
            } else {
                proof {
                    assert forall|c: Seq<usize>|
                        #[trigger] is_conflict_cycle(self.edges(), c) && c.len() <= 5 && starts_with(c, p0) && seq![next].contains(
                            node_after(c, p0.len() as int),
                        ) implies holds(seen@, canonical(c)) by {
                        assert(seq![next][0] == next);
                        assert(c.len() > p0.len());
                        let j = choose|j: int| 0 <= j < p0.len() && p0[j] == next;
                        assert(c.subrange(0, p0.len() as int)[j] == c[j]);
                    }
                }
            }
            proof {
                let a = targets@.subrange(i + 1, targets@.len() as int);
                let cc = targets@.subrange(i as int, targets@.len() as int);
                assert forall|c: Seq<usize>|
                    #[trigger] is_conflict_cycle(self.edges(), c) && c.len() <= 5 && starts_with(c, p0) && cc.contains(
                        node_after(c, p0.len() as int),
                    ) implies holds(seen@, canonical(c)) by {
                    let x = node_after(c, p0.len() as int);
                    let j = choose|j: int| 0 <= j < cc.len() && cc[j] == x;
                    if j == 0 {
                        assert(seq![next][0] == x);
                    } else {
                        assert(a[j - 1] == x);
                        assert(holds(sb, canonical(c)));
                        let w = choose|w: int| 0 <= w < sb.len() && (#[trigger] sb[w])@ == canonical(c);
                        assert(seen@[w] == sb[w]);
                    }
                }
            }
        }
        proof {
            assert forall|c: Seq<usize>|
                #[trigger] is_conflict_cycle(self.edges(), c) && c.len() <= 5 && starts_with(c, p0) implies holds(
                    seen@,
                    canonical(c),
                ) by {
                let x = node_after(c, p0.len() as int);
                assert(c.subrange(0, p0.len() as int)[p0.len() - 1] == c[p0.len() - 1]);
                if c.len() > p0.len() {
                    assert(has_conflict_edge(self.edges(), c[p0.len() - 1], c[p0.len() as int]));
                } else {
                    assert(c.last() == c[p0.len() - 1]);
                }
                assert(has_conflict_edge(self.edges(), node, x));
                lemma_out_targets_complete(self.edges(), node, x);
                assert(targets@.subrange(0, targets@.len() as int) =~= targets@);
            }
        }
    }

    fn copy_list(v: &Vec<usize>) -> (r: Vec<usize>)
        ensures
            r@ == v@,
    {
        let mut r: Vec<usize> = Vec::new();
        let mut i: usize = 0;
        while i < v.len()
            invariant
                i <= v@.len(),
                r@ == v@.subrange(0, i as int),
            decreases v@.len() - i,
        {
            r.push(v[i]);
            i = i + 1;
            assert(r@ =~= v@.subrange(0, i as int));
        }
        assert(r@ =~= v@);
        r
    }

    /// The cycles of at most five nodes, each once up to rotation and direction,
    /// found from each node in turn.
    pub fn simple_cycles(&self) -> (r: Vec<Vec<usize>>)
        requires
            self.wf(),
        ensures
            forall|i: int| 0 <= i < r@.len() ==> is_conflict_cycle(self.edges(), (#[trigger] r@[i])@) && r@[i]@.len() <= 5,
            forall|c: Seq<usize>|
                #[trigger] is_conflict_cycle(self.edges(), c) && c.len() <= 5 ==> exists|i: int|
                    0 <= i < r@.len() && canonical((#[trigger] r@[i])@) == canonical(c),
            forall|i: int, j: int| 0 <= i < j < r@.len() ==> canonical((#[trigger] r@[i])@) != canonical((#[trigger] r@[j])@),
    {
        let mut cycles: Vec<Vec<usize>> = Vec::new();
        let mut seen: Vec<Vec<usize>> = Vec::new();
        let n = self.node_count();
        let mut start: usize = 0;
        while start < n
            invariant
                self.wf(),
                n == self.nodes().len(),
                start <= n,
                forall|i: int| 0 <= i < cycles@.len() ==> is_conflict_cycle(self.edges(), (#[trigger] cycles@[i])@) && cycles@[i]@.len() <= 5,
                seen@.len() == cycles@.len(),
                forall|k: int| 0 <= k < seen@.len() ==> (#[trigger] seen@[k])@ == canonical(cycles@[k]@),
                forall|a: int, b: int| 0 <= a < b < seen@.len() ==> (#[trigger] seen@[a])@ != (#[trigger] seen@[b])@,
                forall|c: Seq<usize>|
                    #[trigger] is_conflict_cycle(self.edges(), c) && c.len() <= 5 && c[0] < start ==> holds(seen@, canonical(c)),
            decreases n - start,
        {
            let mut path: Vec<usize> = Vec::new();
            path.push(start);
            let ghost sb = seen@;
            self.cycles_from(start, &mut path, &mut cycles, &mut seen);
            proof {
                assert forall|c: Seq<usize>|
                    #[trigger] is_conflict_cycle(self.edges(), c) && c.len() <= 5 && c[0] < start + 1 implies holds(
                        seen@,
                        canonical(c),
                    ) by {
                    if c[0] == start {
                        assert(c.subrange(0, 1) =~= seq![start]);
                    } else {
                        let w = choose|w: int| 0 <= w < sb.len() && (#[trigger] sb[w])@ == canonical(c);
                        assert(seen@[w] == sb[w]);
                    }
                }
            }
            start = start + 1;
        }
        proof {
            assert forall|i: int, j: int| 0 <= i < j < cycles@.len() implies canonical((#[trigger] cycles@[i])@) != canonical(
                (#[trigger] cycles@[j])@,
            ) by {
                assert(seen@[i]@ != seen@[j]@);
            }
            assert forall|c: Seq<usize>| #[trigger] is_conflict_cycle(self.edges(), c) && c.len() <= 5 implies exists|i: int|
                0 <= i < cycles@.len() && canonical((#[trigger] cycles@[i])@) == canonical(c) by {
                assert(has_conflict_edge(self.edges(), c.last(), c[0]));
                let w = choose|w: int| 0 <= w < seen@.len() && (#[trigger] seen@[w])@ == canonical(c);
                assert(canonical(cycles@[w]@) == canonical(c));
            }
        }
        cycles
    }
}

} // verus!
