//! The call graph of a crate: which function calls which, and from which blocks.

use vstd::prelude::*;

use crate::lockbud::ullbc::{BlockId, FnOperand, FunDeclId, TerminatorKind, TranslatedCrate};
use crate::seqs::{extend_unique, lemma_nodup_subset_len, push_unique, vec_contains};

verus! {

broadcast use {vstd::seq_lib::lemma_seq_contains_after_push, vstd::seq::Seq::lemma_push_to_set_commute};

// ---------------------------------------------------------------------------
// Paths
// ---------------------------------------------------------------------------

/// `p` is a walk along the edges of `e`.
pub open spec fn is_path(e: Set<(FunDeclId, FunDeclId)>, p: Seq<FunDeclId>) -> bool {
    &&& p.len() >= 1
    &&& forall|i: int| 0 <= i < p.len() - 1 ==> e.contains((#[trigger] p[i], p[i + 1]))
}

/// There is a walk from `a` to `b` along the edges of `e` (every node reaches itself).
pub open spec fn reaches(e: Set<(FunDeclId, FunDeclId)>, a: FunDeclId, b: FunDeclId) -> bool {
    exists|p: Seq<FunDeclId>| is_path(e, p) && p[0] == a && p.last() == b
}

/// `x` reaches `y` in the graph when `forward`, and `y` reaches `x` otherwise.
pub open spec fn reach_dir(e: Set<(FunDeclId, FunDeclId)>, forward: bool, x: FunDeclId, y: FunDeclId) -> bool {
    if forward {
        reaches(e, x, y)
    } else {
        reaches(e, y, x)
    }
}

/// An edge from `x` to `y` when `forward`, from `y` to `x` otherwise.
pub open spec fn step(e: Set<(FunDeclId, FunDeclId)>, forward: bool, x: FunDeclId, y: FunDeclId) -> bool {
    if forward {
        e.contains((x, y))
    } else {
        e.contains((y, x))
    }
}

proof fn lemma_reaches_self(e: Set<(FunDeclId, FunDeclId)>, a: FunDeclId)
    ensures
        reaches(e, a, a),
{
    let p = seq![a];
    assert(is_path(e, p) && p[0] == a && p.last() == a);
}

proof fn lemma_reach_step(e: Set<(FunDeclId, FunDeclId)>, forward: bool, a: FunDeclId, x: FunDeclId, y: FunDeclId)
    requires
        reach_dir(e, forward, a, x),
        step(e, forward, x, y),
    ensures
        reach_dir(e, forward, a, y),
{
    if forward {
        let p = choose|p: Seq<FunDeclId>| is_path(e, p) && p[0] == a && p.last() == x;
        let q = p.push(y);
        assert forall|i: int| 0 <= i < q.len() - 1 implies e.contains((#[trigger] q[i], q[i + 1])) by {
            if i < p.len() - 1 {
                assert(q[i] == p[i] && q[i + 1] == p[i + 1]);
            } else {
                assert(q[i] == x && q[i + 1] == y);
            }
        }
        assert(is_path(e, q) && q[0] == a && q.last() == y);
    } else {
        let p = choose|p: Seq<FunDeclId>| is_path(e, p) && p[0] == x && p.last() == a;
        let q = seq![y] + p;
        assert forall|i: int| 0 <= i < q.len() - 1 implies e.contains((#[trigger] q[i], q[i + 1])) by {
            if i == 0 {
                assert(q[0] == y && q[1] == x);
            } else {
                assert(q[i] == p[i - 1] && q[i + 1] == p[i]);
            }
        }
        assert(is_path(e, q) && q[0] == y && q.last() == a);
    }
}

proof fn lemma_closed_along_path(e: Set<(FunDeclId, FunDeclId)>, forward: bool, v: Set<FunDeclId>, p: Seq<FunDeclId>, i: int)
    requires
        is_path(e, p),
        0 <= i < p.len(),
        forall|x: FunDeclId, y: FunDeclId| v.contains(x) && #[trigger] step(e, forward, x, y) ==> v.contains(y),
        forward ==> v.contains(p[0]),
        !forward ==> v.contains(p.last()),
    ensures
        v.contains(p[i]),
    decreases if forward { i } else { p.len() - 1 - i },
{
    if forward {
        if i > 0 {
            lemma_closed_along_path(e, forward, v, p, i - 1);
            assert(e.contains((p[i - 1], p[i])));
            assert(step(e, forward, p[i - 1], p[i]));
        }
    } else {
        if i < p.len() - 1 {
            lemma_closed_along_path(e, forward, v, p, i + 1);
            assert(e.contains((p[i], p[i + 1])));
            assert(step(e, forward, p[i + 1], p[i]));
        }
    }
}

/// A set that holds `a` and is closed under steps holds everything `a` reaches.
proof fn lemma_closed_holds_reached(e: Set<(FunDeclId, FunDeclId)>, forward: bool, v: Set<FunDeclId>, a: FunDeclId, b: FunDeclId)
    requires
        v.contains(a),
        forall|x: FunDeclId, y: FunDeclId| v.contains(x) && #[trigger] step(e, forward, x, y) ==> v.contains(y),
        reach_dir(e, forward, a, b),
    ensures
        v.contains(b),
{
    if forward {
        let p = choose|p: Seq<FunDeclId>| is_path(e, p) && p[0] == a && p.last() == b;
        lemma_closed_along_path(e, forward, v, p, p.len() - 1);
    } else {
        let p = choose|p: Seq<FunDeclId>| is_path(e, p) && p[0] == b && p.last() == a;
        lemma_closed_along_path(e, forward, v, p, 0);
    }
}

// ---------------------------------------------------------------------------
// The graph
// ---------------------------------------------------------------------------

/// The blocks of one caller that call one callee.
#[derive(Debug)]
pub struct CallSites {
    pub caller: FunDeclId,
    pub callee: FunDeclId,
    pub blocks: Vec<BlockId>,
}

/// A call graph: nodes are functions, edges go from caller to callee.
#[derive(Debug)]
pub struct CallGraph {
    /// The distinct caller-to-callee edges.
    pub edges: Vec<(FunDeclId, FunDeclId)>,
    /// For each edge, the blocks where the call happens.
    pub callsites: Vec<CallSites>,
}

/// The function that block `k` of function `f` calls, if its terminator calls a declared function.
pub open spec fn call_target(krate: TranslatedCrate, f: int, k: int) -> Option<FunDeclId> {
    match krate.body_of(f) {
        Some(body) => if 0 <= k < body.body@.len() {
            match body.body@[k].terminator.kind {
                TerminatorKind::Call { call, .. } => match call.func {
                    FnOperand::Fun(id) => Some(id),
                    _ => None,
                },
                _ => None,
            }
        } else {
            None
        },
        None => None,
    }
}

/// Function `a` has a block that calls function `b`.
pub open spec fn calls(krate: TranslatedCrate, a: FunDeclId, b: FunDeclId) -> bool {
    exists|k: int| call_target(krate, a as int, k) == Some(b)
}

/// `q` is one of the paths of `rs`.
pub open spec fn covered(rs: Seq<Vec<FunDeclId>>, q: Seq<FunDeclId>) -> bool {
    exists|i: int| 0 <= i < rs.len() && (#[trigger] rs[i])@ == q
}

/// `q` starts with `p`.
pub open spec fn extends(q: Seq<FunDeclId>, p: Seq<FunDeclId>) -> bool {
    p.len() <= q.len() && q.subrange(0, p.len() as int) == p
}

/// The simple paths from `start[0]` to `target` of at most `md` functions that
/// extend `start` by more, with the next function among `ns`, are in `rs`.
pub open spec fn next_covered(
    e: Set<(FunDeclId, FunDeclId)>,
    start: Seq<FunDeclId>,
    target: FunDeclId,
    md: usize,
    ns: Seq<FunDeclId>,
    rs: Seq<Vec<FunDeclId>>,
) -> bool {
    forall|q: Seq<FunDeclId>|
        #[trigger] is_simple_path(e, q, start[0], target) && q.len() <= md && extends(q, start) && q.len() > start.len()
            && ns.contains(q[start.len() as int]) ==> covered(rs, q)
}

/// What a walk from `start.push(next)` found covers the paths through `next`.
proof fn lemma_extend_covered(
    e: Set<(FunDeclId, FunDeclId)>,
    start: Seq<FunDeclId>,
    next: FunDeclId,
    target: FunDeclId,
    md: usize,
    rs: Seq<Vec<FunDeclId>>,
)
    requires
        start.len() >= 1,
        forall|q: Seq<FunDeclId>|
            #[trigger] is_simple_path(e, q, start.push(next)[0], target) && q.len() <= md && extends(q, start.push(next)) ==> covered(rs, q),
    ensures
        next_covered(e, start, target, md, seq![next], rs),
{
    let sp = start.push(next);
    assert(sp[0] == start[0]);
    assert forall|q: Seq<FunDeclId>|
        #[trigger] is_simple_path(e, q, start[0], target) && q.len() <= md && extends(q, start) && q.len() > start.len()
            && seq![next].contains(q[start.len() as int]) implies covered(rs, q) by {
        assert(seq![next][0] == next);
        lemma_extends_push(q, start, next);
    }
}

/// A sequence that extends `start` and then has `next` extends `start.push(next)`.
proof fn lemma_extends_push(q: Seq<FunDeclId>, start: Seq<FunDeclId>, next: FunDeclId)
    requires
        extends(q, start),
        q.len() > start.len(),
        seq![next].contains(q[start.len() as int]),
    ensures
        extends(q, start.push(next)),
{
    let sp = start.push(next);
    let j = choose|j: int| 0 <= j < 1 && seq![next][j] == q[start.len() as int];
    assert(q[start.len() as int] == next);
    assert forall|i: int| 0 <= i < sp.len() implies q.subrange(0, sp.len() as int)[i] == sp[i] by {
        if i < start.len() {
            assert(q.subrange(0, start.len() as int)[i] == q[i]);
        }
    }
    assert(q.subrange(0, sp.len() as int) =~= sp);
}

/// Covering paths through the functions of `a` and of `b` covers those through `a + b`; more results cover more.
#[verifier::spinoff_prover]
#[verifier::rlimit(50)]
proof fn lemma_covered_join(
    e: Set<(FunDeclId, FunDeclId)>,
    start: Seq<FunDeclId>,
    target: FunDeclId,
    md: usize,
    a: Seq<FunDeclId>,
    b: Seq<FunDeclId>,
    c: Seq<FunDeclId>,
    ra: Seq<Vec<FunDeclId>>,
    rs: Seq<Vec<FunDeclId>>,
)
    requires
        next_covered(e, start, target, md, a, ra),
        next_covered(e, start, target, md, b, rs),
        ra.len() <= rs.len(),
        forall|i: int| 0 <= i < ra.len() ==> #[trigger] rs[i] == ra[i],
        forall|x: FunDeclId| #[trigger] c.contains(x) ==> a.contains(x) || b.contains(x),
    ensures
        next_covered(e, start, target, md, c, rs),
{
    assert forall|q: Seq<FunDeclId>|
        #[trigger] is_simple_path(e, q, start[0], target) && q.len() <= md && extends(q, start) && q.len() > start.len()
            && c.contains(q[start.len() as int]) implies covered(rs, q) by {
        let x = q[start.len() as int];
        assert(c.contains(x));
        if a.contains(x) {
            assert(covered(ra, q));
            let i = choose|i: int| 0 <= i < ra.len() && (#[trigger] ra[i])@ == q;
            assert(rs[i] == ra[i]);
            assert(rs[i]@ == q);
        } else {
            assert(b.contains(x));
            assert(covered(rs, q));
        }
    }
}

/// The paths found through `next` extend `start.push(next)` and differ from
/// each other, so with those found before they all differ and extend `start`.
proof fn lemma_distinct_step(
    start: Seq<FunDeclId>,
    next: FunDeclId,
    nexts: Seq<FunDeclId>,
    k: int,
    r0len: int,
    r1len: int,
    rb: Seq<Vec<FunDeclId>>,
    rs: Seq<Vec<FunDeclId>>,
)
    requires
        0 <= k < nexts.len(),
        nexts[k] == next,
        nexts.no_duplicates(),
        0 <= r0len <= r1len <= rb.len() <= rs.len(),
        forall|i: int| 0 <= i < rb.len() ==> #[trigger] rs[i] == rb[i],
        forall|i: int| rb.len() <= i < rs.len() ==> extends((#[trigger] rs[i])@, start.push(next)),
        forall|i: int, j: int| rb.len() <= i < j < rs.len() ==> (#[trigger] rs[i])@ != (#[trigger] rs[j])@,
        forall|i: int| r0len <= i < r1len ==> (#[trigger] rb[i])@ == start,
        forall|i: int|
            r1len <= i < rb.len() ==> (#[trigger] rb[i])@.len() > start.len() && extends(rb[i]@, start)
                && nexts.subrange(k + 1, nexts.len() as int).contains(rb[i]@[start.len() as int]),
        forall|i: int, j: int| r0len <= i < j < rb.len() ==> (#[trigger] rb[i])@ != (#[trigger] rb[j])@,
    ensures
        forall|i: int| r0len <= i < r1len ==> (#[trigger] rs[i])@ == start,
        forall|i: int|
            r1len <= i < rs.len() ==> (#[trigger] rs[i])@.len() > start.len() && extends(rs[i]@, start)
                && nexts.subrange(k, nexts.len() as int).contains(rs[i]@[start.len() as int]),
        forall|i: int, j: int| r0len <= i < j < rs.len() ==> (#[trigger] rs[i])@ != (#[trigger] rs[j])@,
{
    let sp = start.push(next);
    let sub = nexts.subrange(k, nexts.len() as int);
    let sub1 = nexts.subrange(k + 1, nexts.len() as int);
    assert(sub[0] == next);
    assert forall|i: int| r0len <= i < r1len implies (#[trigger] rs[i])@ == start by {
        assert(rs[i] == rb[i]);
    }
    assert forall|i: int| r1len <= i < rs.len() implies (#[trigger] rs[i])@.len() > start.len() && extends(rs[i]@, start)
        && sub.contains(rs[i]@[start.len() as int]) by {
        if i < rb.len() {
            assert(rs[i] == rb[i]);
            let w = choose|w: int| 0 <= w < sub1.len() && #[trigger] sub1[w] == rb[i]@[start.len() as int];
            assert(sub[w + 1] == sub1[w]);
        } else {
            let q = rs[i]@;
            assert(q.subrange(0, sp.len() as int)[start.len() as int] == q[start.len() as int]);
            assert forall|t: int| 0 <= t < start.len() implies q.subrange(0, start.len() as int)[t] == start[t] by {
                assert(q.subrange(0, sp.len() as int)[t] == sp[t]);
            }
            assert(q.subrange(0, start.len() as int) =~= start);
        }
    }
    assert forall|i: int, j: int| r0len <= i < j < rs.len() implies (#[trigger] rs[i])@ != (#[trigger] rs[j])@ by {
        if j < rb.len() {
            assert(rs[i] == rb[i] && rs[j] == rb[j]);
        } else if i >= rb.len() {
        } else {
            let q = rs[j]@;
            assert(q.subrange(0, sp.len() as int)[start.len() as int] == q[start.len() as int]);
            assert(rs[i] == rb[i]);
            if i >= r1len {
                let w = choose|w: int| 0 <= w < sub1.len() && #[trigger] sub1[w] == rb[i]@[start.len() as int];
                assert(nexts[k + 1 + w] == sub1[w]);
            }
        }
    }
}

impl CallGraph {
    /// The edges as a set.
    pub open spec fn edge_set(&self) -> Set<(FunDeclId, FunDeclId)> {
        self.edges@.to_set()
    }

    /// Each edge is listed once, and each edge has exactly one entry of call sites.
    pub open spec fn wf(&self) -> bool {
        &&& self.edges@.no_duplicates()
        &&& forall|i: int| 0 <= i < self.callsites@.len() ==> self.edge_set().contains(
            ((#[trigger] self.callsites@[i]).caller, self.callsites@[i].callee),
        )
        &&& forall|i: int, j: int|
            0 <= i < j < self.callsites@.len() ==> ((#[trigger] self.callsites@[i]).caller, self.callsites@[i].callee)
                != ((#[trigger] self.callsites@[j]).caller, self.callsites@[j].callee)
    }

    pub fn new() -> (r: Self)
        ensures
            r.wf(),
            r.edge_set() == Set::<(FunDeclId, FunDeclId)>::empty(),
    {
        let r = CallGraph { edges: Vec::new(), callsites: Vec::new() };
        assert(r.edge_set() =~= Set::<(FunDeclId, FunDeclId)>::empty());
        r
    }

    /// Whether the graph has the edge from `caller` to `callee`.
    pub fn has_edge(&self, caller: FunDeclId, callee: FunDeclId) -> (r: bool)
        ensures
            r == self.edge_set().contains((caller, callee)),
    {
        let mut i: usize = 0;
        while i < self.edges.len()
            invariant
                i <= self.edges@.len(),
                forall|k: int| 0 <= k < i ==> self.edges@[k] != (caller, callee),
            decreases self.edges@.len() - i,
        {
            let (a, b) = self.edges[i];
            if a == caller && b == callee {
                assert(self.edges@[i as int] == (caller, callee));
                return true;
            }
            i = i + 1;
        }
        false
    }

    /// Records a call from `caller` to `callee` in block `block_id`.
    fn add_edge(&mut self, caller: FunDeclId, callee: FunDeclId, block_id: BlockId)
        requires
            old(self).wf(),
        ensures
            final(self).wf(),
            final(self).edge_set() == old(self).edge_set().insert((caller, callee)),
    {
        if !self.has_edge(caller, callee) {
            self.edges.push((caller, callee));
        }
        assert(self.edge_set() =~= old(self).edge_set().insert((caller, callee)));
        let ghost edges0 = self.edges@;
        let mut i: usize = 0;
        while i < self.callsites.len()
            invariant
                self.wf(),
                self.edges@ == edges0,
                edges0.to_set() == old(self).edge_set().insert((caller, callee)),
                self.edge_set().contains((caller, callee)),
                i <= self.callsites@.len(),
                forall|k: int| 0 <= k < i ==> ((#[trigger] self.callsites@[k]).caller, self.callsites@[k].callee) != (caller, callee),
            decreases self.callsites@.len() - i,
        {
            if self.callsites[i].caller == caller && self.callsites[i].callee == callee {
                let mut entry = self.callsites.remove(i);
                entry.blocks.push(block_id);
                self.callsites.insert(i, entry);
                return;
            }
            i = i + 1;
        }
        let mut blocks: Vec<BlockId> = Vec::new();
        blocks.push(block_id);
        self.callsites.push(CallSites { caller, callee, blocks });
    }

    /// Adds an edge from `fun_id` to each function that one of its blocks calls.
    fn add_function_edges(&mut self, crate_data: &TranslatedCrate, fun_id: FunDeclId)
        requires
            old(self).wf(),
        ensures
            final(self).wf(),
            forall|a: FunDeclId, b: FunDeclId|
                #![trigger final(self).edge_set().contains((a, b))]
                final(self).edge_set().contains((a, b)) <==> (old(self).edge_set().contains((a, b))
                    || (a == fun_id && calls(*crate_data, a, b))),
    {
        let n_blocks: usize = if fun_id < crate_data.fun_decls.len() {
            match &crate_data.fun_decls[fun_id] {
                Some(fun_decl) => match &fun_decl.body {
                    Some(body) => body.body.len(),
                    None => 0,
                },
                None => 0,
            }
        } else {
            0
        };
        let ghost start = self.edge_set();
        let mut block_id: usize = 0;
        while block_id < n_blocks
            invariant
                self.wf(),
                n_blocks == match crate_data.body_of(fun_id as int) {
                    Some(body) => body.body@.len() as int,
                    None => 0,
                },
                block_id <= n_blocks,
                forall|a: FunDeclId, b: FunDeclId|
                    #![trigger self.edge_set().contains((a, b))]
                    self.edge_set().contains((a, b)) <==> (start.contains((a, b))
                        || (a == fun_id && calls_before(*crate_data, a, b, block_id as int))),
            decreases n_blocks - block_id,
        {
            let target = call_target_of(crate_data, fun_id, block_id);
            let ghost before = self.edge_set();
            if let Some(callee_id) = target {
                self.add_edge(fun_id, callee_id, block_id);
            }
            proof {
                assert forall|a: FunDeclId, b: FunDeclId|
                    #![trigger self.edge_set().contains((a, b))]
                    self.edge_set().contains((a, b)) <==> (start.contains((a, b))
                        || (a == fun_id && calls_before(*crate_data, a, b, block_id + 1))) by {
                    lemma_calls_before_step(*crate_data, a, b, block_id as int);
                    assert(before.contains((a, b)) <==> (start.contains((a, b))
                        || (a == fun_id && calls_before(*crate_data, a, b, block_id as int))));
                    match target {
                        Some(c) => {
                            assert(self.edge_set().contains((a, b)) <==> (before.contains((a, b)) || (a == fun_id && b == c)));
                        },
                        None => {},
                    }
                }
            }
            block_id = block_id + 1;
        }
        proof {
            assert forall|a: FunDeclId, b: FunDeclId|
                #![trigger self.edge_set().contains((a, b))]
                self.edge_set().contains((a, b)) <==> (start.contains((a, b)) || (a == fun_id && calls(*crate_data, a, b))) by {
                if a == fun_id {
                    lemma_calls_before_all(*crate_data, a, b);
                }
            }
        }
    }

    /// The call graph of a crate: an edge from each function to each declared
    /// function that one of its blocks calls.
    pub fn build(crate_data: &TranslatedCrate) -> (r: Self)
        ensures
            r.wf(),
            forall|a: FunDeclId, b: FunDeclId|
                #![trigger r.edge_set().contains((a, b))]
                r.edge_set().contains((a, b)) <==> calls(*crate_data, a, b),
    {
        let mut cg = CallGraph::new();
        let mut fun_id: usize = 0;
        while fun_id < crate_data.fun_decls.len()
            invariant
                cg.wf(),
                fun_id <= crate_data.fun_decls@.len(),
                forall|a: FunDeclId, b: FunDeclId|
                    #![trigger cg.edge_set().contains((a, b))]
                    cg.edge_set().contains((a, b)) <==> (a < fun_id && calls(*crate_data, a, b)),
            decreases crate_data.fun_decls@.len() - fun_id,
        {
            let ghost before = cg.edge_set();
            cg.add_function_edges(crate_data, fun_id);
            proof {
                assert forall|a: FunDeclId, b: FunDeclId|
                    #![trigger cg.edge_set().contains((a, b))]
                    cg.edge_set().contains((a, b)) <==> (a < fun_id + 1 && calls(*crate_data, a, b)) by {
                    assert(before.contains((a, b)) <==> (a < fun_id && calls(*crate_data, a, b)));
                }
            }
            fun_id = fun_id + 1;
        }
        proof {
            assert forall|a: FunDeclId, b: FunDeclId| #[trigger] calls(*crate_data, a, b) implies a < fun_id by {
                let k = choose|k: int| #[trigger] call_target(*crate_data, a as int, k) == Some(b);
            }
        }
        cg
    }
}

impl CallGraph {
    /// `n` is an endpoint of some edge.
    pub open spec fn is_node(&self, n: FunDeclId) -> bool {
        exists|i: int| 0 <= i < self.edges@.len() && ((#[trigger] self.edges@[i]).0 == n || self.edges@[i].1 == n)
    }

    /// Every function that is an endpoint of an edge, each once.
    pub fn nodes(&self) -> (r: Vec<FunDeclId>)
        ensures
            r@.no_duplicates(),
            forall|n: FunDeclId| #[trigger] r@.contains(n) <==> self.is_node(n),
    {
        let mut r: Vec<FunDeclId> = Vec::new();
        let mut i: usize = 0;
        while i < self.edges.len()
            invariant
                i <= self.edges@.len(),
                r@.no_duplicates(),
                forall|n: FunDeclId| #[trigger] r@.contains(n) <==> exists|k: int|
                    0 <= k < i && ((#[trigger] self.edges@[k]).0 == n || self.edges@[k].1 == n),
            decreases self.edges@.len() - i,
        {
            let (a, b) = self.edges[i];
            push_unique(&mut r, a);
            push_unique(&mut r, b);
            proof {
                assert forall|n: FunDeclId| #[trigger] r@.contains(n) <==> exists|k: int|
                    0 <= k < i + 1 && ((#[trigger] self.edges@[k]).0 == n || self.edges@[k].1 == n) by {
                    if r@.contains(n) && n != a && n != b {
                        let k = choose|k: int| 0 <= k < i && ((#[trigger] self.edges@[k]).0 == n || self.edges@[k].1 == n);
                    }
                    if exists|k: int| 0 <= k < i + 1 && ((#[trigger] self.edges@[k]).0 == n || self.edges@[k].1 == n) {
                        let k = choose|k: int| 0 <= k < i + 1 && ((#[trigger] self.edges@[k]).0 == n || self.edges@[k].1 == n);
                        if k < i {
                        } else {
                            assert(n == a || n == b);
                        }
                    }
                }
            }
            i = i + 1;
        }
        r
    }

    /// The functions that `fun_id` calls (when `forward`) or that call it (otherwise), each once.
    fn neighbours(&self, fun_id: FunDeclId, forward: bool) -> (r: Vec<FunDeclId>)
        requires
            self.wf(),
        ensures
            r@.no_duplicates(),
            forall|n: FunDeclId| #[trigger] r@.contains(n) <==> step(self.edge_set(), forward, fun_id, n),
    {
        let mut r: Vec<FunDeclId> = Vec::new();
        let mut i: usize = 0;
        while i < self.edges.len()
            invariant
                i <= self.edges@.len(),
                r@.no_duplicates(),
                forall|n: FunDeclId| #[trigger] r@.contains(n) <==> exists|k: int|
                    0 <= k < i && #[trigger] self.edges@[k] == (if forward { (fun_id, n) } else { (n, fun_id) }),
            decreases self.edges@.len() - i,
        {
            let (a, b) = self.edges[i];
            let ghost before = r@;
            if forward && a == fun_id {
                push_unique(&mut r, b);
            } else if !forward && b == fun_id {
                push_unique(&mut r, a);
            }
            proof {
                assert forall|n: FunDeclId| #[trigger] r@.contains(n) <==> exists|k: int|
                    0 <= k < i + 1 && #[trigger] self.edges@[k] == (if forward { (fun_id, n) } else { (n, fun_id) }) by {
                    if exists|k: int| 0 <= k < i + 1 && #[trigger] self.edges@[k] == (if forward { (fun_id, n) } else { (n, fun_id) }) {
                        let k = choose|k: int| 0 <= k < i + 1 && #[trigger] self.edges@[k] == (if forward { (fun_id, n) } else { (n, fun_id) });
                        if k < i {
                            assert(before.contains(n));
                        }
                    }
                    if r@.contains(n) && !before.contains(n) {
                        assert(self.edges@[i as int] == (if forward { (fun_id, n) } else { (n, fun_id) }));
                    }
                }
            }
            i = i + 1;
        }
        proof {
            assert forall|n: FunDeclId| #[trigger] r@.contains(n) <==> step(self.edge_set(), forward, fun_id, n) by {
                let pair = if forward { (fun_id, n) } else { (n, fun_id) };
                if self.edge_set().contains(pair) {
                    let k = choose|k: int| 0 <= k < self.edges@.len() && self.edges@[k] == pair;
                    assert(self.edges@[k] == pair);
                }
                if r@.contains(n) {
                    let k = choose|k: int| 0 <= k < i && #[trigger] self.edges@[k] == pair;
                    assert(self.edges@.contains(pair));
                }
            }
        }
        r
    }

    /// The functions that `fun_id` calls, each once.
    pub fn callees(&self, fun_id: FunDeclId) -> (r: Vec<FunDeclId>)
        requires
            self.wf(),
        ensures
            r@.no_duplicates(),
            forall|n: FunDeclId| #[trigger] r@.contains(n) <==> self.edge_set().contains((fun_id, n)),
    {
        self.neighbours(fun_id, true)
    }

    /// The functions that call `fun_id`, each once.
    pub fn callers(&self, fun_id: FunDeclId) -> (r: Vec<FunDeclId>)
        requires
            self.wf(),
        ensures
            r@.no_duplicates(),
            forall|n: FunDeclId| #[trigger] r@.contains(n) <==> self.edge_set().contains((n, fun_id)),
    {
        self.neighbours(fun_id, false)
    }

    /// Everything `start` reaches (when `forward`) or that reaches `start` (otherwise), each once.
    fn closure(&self, start: FunDeclId, forward: bool) -> (r: Vec<FunDeclId>)
        requires
            self.wf(),
        ensures
            r@.no_duplicates(),
            forall|n: FunDeclId| #[trigger] r@.contains(n) <==> reach_dir(self.edge_set(), forward, start, n),
    {
        let ghost e = self.edge_set();
        let universe = self.nodes();
        let mut visited: Vec<FunDeclId> = Vec::new();
        visited.push(start);
        proof {
            lemma_reaches_self(e, start);
        }
        let mut head: usize = 0;
        while head < visited.len()
            invariant
                self.wf(),
                e == self.edge_set(),
                forall|n: FunDeclId| #[trigger] universe@.contains(n) <==> self.is_node(n),
                visited@.no_duplicates(),
                head <= visited@.len(),
                visited@.contains(start),
                forall|n: FunDeclId| #[trigger] visited@.contains(n) ==> reach_dir(e, forward, start, n),
                forall|n: FunDeclId| #[trigger] visited@.contains(n) ==> n == start || universe@.contains(n),
                forall|i: int, y: FunDeclId|
                    0 <= i < head && #[trigger] step(e, forward, visited@[i], y) ==> visited@.contains(y),
            decreases universe@.len() + 1 - head,
        {
            let x = visited[head];
            assert(visited@.contains(x));
            let nexts = self.neighbours(x, forward);
            let ghost before = visited@;
            extend_unique(&mut visited, &nexts);
            proof {
                assert forall|y: FunDeclId| #[trigger] nexts@.contains(y) implies reach_dir(e, forward, start, y) && self.is_node(y) by {
                    lemma_reach_step(e, forward, start, x, y);
                    let pair = if forward { (x, y) } else { (y, x) };
                    let k = choose|k: int| 0 <= k < self.edges@.len() && self.edges@[k] == pair;
                    assert(self.edges@[k] == pair);
                }
                assert forall|i: int, z: FunDeclId|
                    0 <= i < head + 1 && #[trigger] step(e, forward, visited@[i], z) implies visited@.contains(z) by {
                    assert(visited@[i] == visited@.subrange(0, before.len() as int)[i]);
                    assert(visited@[i] == before[i]);
                    if i == head {
                        assert(nexts@.contains(z));
                    } else {
                        assert(before.contains(z));
                    }
                }
                lemma_nodup_subset_len(visited@, universe@.push(start));
            }
            head = head + 1;
        }
        proof {
            assert forall|n: FunDeclId| reach_dir(e, forward, start, n) implies #[trigger] visited@.contains(n) by {
                {
                    assert forall|x: FunDeclId, y: FunDeclId| visited@.to_set().contains(x) && #[trigger] step(e, forward, x, y)
                        implies visited@.to_set().contains(y) by {
                        let i = choose|i: int| 0 <= i < visited@.len() && visited@[i] == x;
                        assert(step(e, forward, visited@[i], y));
                    }
                    lemma_closed_holds_reached(e, forward, visited@.to_set(), start, n);
                }
            }
        }
        visited
    }

    /// Every function from which `start` can be reached, `start` included.
    pub fn reverse_reachable(&self, start: FunDeclId) -> (r: Vec<FunDeclId>)
        requires
            self.wf(),
        ensures
            r@.no_duplicates(),
            forall|n: FunDeclId| #[trigger] r@.contains(n) <==> reaches(self.edge_set(), n, start),
    {
        self.closure(start, false)
    }

    /// Whether `source` can reach `target` through calls (a function reaches itself).
    pub fn can_reach(&self, source: FunDeclId, target: FunDeclId) -> (r: bool)
        requires
            self.wf(),
        ensures
            r == reaches(self.edge_set(), source, target),
    {
        if source == target {
            proof {
                lemma_reaches_self(self.edge_set(), source);
            }
            return true;
        }
        let reached = self.closure(source, true);
        vec_contains(&reached, target)
    }

    /// Whether some function reaches both `a` and `b`.
    pub fn share_common_ancestor(&self, a: FunDeclId, b: FunDeclId) -> (r: bool)
        requires
            self.wf(),
        ensures
            r == (exists|n: FunDeclId| reaches(self.edge_set(), n, a) && reaches(self.edge_set(), n, b)),
    {
        if a == b {
            proof {
                lemma_reaches_self(self.edge_set(), a);
            }
            return true;
        }
        let rev_a = self.reverse_reachable(a);
        let rev_b = self.reverse_reachable(b);
        let mut i: usize = 0;
        while i < rev_a.len()
            invariant
                i <= rev_a@.len(),
                forall|n: FunDeclId| #[trigger] rev_a@.contains(n) <==> reaches(self.edge_set(), n, a),
                forall|n: FunDeclId| #[trigger] rev_b@.contains(n) <==> reaches(self.edge_set(), n, b),
                forall|k: int| 0 <= k < i ==> !rev_b@.contains(#[trigger] rev_a@[k]),
            decreases rev_a@.len() - i,
        {
            if vec_contains(&rev_b, rev_a[i]) {
                assert(rev_a@.contains(rev_a@[i as int]));
                return true;
            }
            i = i + 1;
        }
        proof {
            assert forall|n: FunDeclId| !(reaches(self.edge_set(), n, a) && reaches(self.edge_set(), n, b)) by {
                if reaches(self.edge_set(), n, a) && reaches(self.edge_set(), n, b) {
                    assert(rev_a@.contains(n));
                    let k = choose|k: int| 0 <= k < rev_a@.len() && rev_a@[k] == n;
                    assert(rev_b@.contains(n));
                }
            }
        }
        false
    }
}

/// Some block before block `n` of function `a` calls function `b`.
pub open spec fn calls_before(krate: TranslatedCrate, a: FunDeclId, b: FunDeclId, n: int) -> bool {
    exists|k: int| 0 <= k < n && #[trigger] call_target(krate, a as int, k) == Some(b)
}

proof fn lemma_calls_before_step(krate: TranslatedCrate, a: FunDeclId, b: FunDeclId, n: int)
    requires
        n >= 0,
    ensures
        calls_before(krate, a, b, n + 1) <==> (calls_before(krate, a, b, n) || call_target(krate, a as int, n) == Some(b)),
{
    if calls_before(krate, a, b, n + 1) {
        let k = choose|k: int| 0 <= k < n + 1 && #[trigger] call_target(krate, a as int, k) == Some(b);
        if k < n {
            assert(calls_before(krate, a, b, n));
        }
    }
    if call_target(krate, a as int, n) == Some(b) {
        assert(calls_before(krate, a, b, n + 1));
    }
}

proof fn lemma_calls_before_all(krate: TranslatedCrate, a: FunDeclId, b: FunDeclId)
    ensures
        calls_before(
            krate,
            a,
            b,
            match krate.body_of(a as int) {
                Some(body) => body.body@.len() as int,
                None => 0,
            },
        ) <==> calls(krate, a, b),
{
    if calls(krate, a, b) {
        let k = choose|k: int| #[trigger] call_target(krate, a as int, k) == Some(b);
        assert(call_target(krate, a as int, k) == Some(b));
    }
}

/// The function that block `k` of function `f` calls, if its terminator calls a declared function.
pub fn call_target_of(krate: &TranslatedCrate, f: FunDeclId, k: BlockId) -> (r: Option<FunDeclId>)
    ensures
        r == call_target(*krate, f as int, k as int),
{
    if f >= krate.fun_decls.len() {
        return None;
    }
    match &krate.fun_decls[f] {
        Some(decl) => match &decl.body {
            Some(body) => {
                if k >= body.body.len() {
                    return None;
                }
                match &body.body[k].terminator.kind {
                    TerminatorKind::Call { call, .. } => match &call.func {
                        FnOperand::Fun(id) => Some(*id),
                        _ => None,
                    },
                    _ => None,
                }
            },
            None => None,
        },
        None => None,
    }
}

/// `p` is a path without repeated functions from `source` to `target`, of at least one call.
pub open spec fn is_simple_path(
    e: Set<(FunDeclId, FunDeclId)>,
    p: Seq<FunDeclId>,
    source: FunDeclId,
    target: FunDeclId,
) -> bool {
    &&& p.len() >= 2
    &&& is_path(e, p)
    &&& p.no_duplicates()
    &&& p[0] == source
    &&& p.last() == target
}

/// A walk extended by an edge from its end is a walk.
proof fn lemma_path_push(e: Set<(FunDeclId, FunDeclId)>, p: Seq<FunDeclId>, next: FunDeclId)
    requires
        is_path(e, p),
        e.contains((p.last(), next)),
    ensures
        is_path(e, p.push(next)),
        p.push(next)[0] == p[0],
{
    let q = p.push(next);
    assert forall|i: int| 0 <= i < q.len() - 1 implies e.contains((#[trigger] q[i], q[i + 1])) by {
        if i < p.len() - 1 {
            assert(q[i] == p[i] && q[i + 1] == p[i + 1]);
        } else {
            assert(q[i] == p.last());
        }
    }
}

/// A copy of a list of functions.
fn copy_ids(v: &Vec<FunDeclId>) -> (r: Vec<FunDeclId>)
    ensures
        r@ == v@,
{
    let mut r: Vec<FunDeclId> = Vec::new();
    let mut i: usize = 0;
    while i < v.len()
        invariant
            i <= v@.len(),
            r@ == v@.subrange(0, i as int),
        decreases v@.len() - i,
    {
        r.push(v[i]);
        i = i + 1;
        assert(r@ =~= v@.subrange(0, i as int));
    }
    assert(r@ =~= v@);
    r
}

impl CallGraph {
    /// Extends the walk `path` in depth-first order, recording each extension
    /// that ends at `target`; callees are tried last first.
    #[verifier::spinoff_prover]
    #[verifier::rlimit(100)]
    fn paths_from(&self, path: &mut Vec<FunDeclId>, target: FunDeclId, max_depth: usize, results: &mut Vec<Vec<FunDeclId>>)
        requires
            self.wf(),
            1 <= old(path)@.len() <= max_depth,
            is_path(self.edge_set(), old(path)@),
            old(path)@.no_duplicates(),
            forall|i: int|
                0 <= i < old(results)@.len() ==> is_simple_path(self.edge_set(), (#[trigger] old(results)@[i])@, old(path)@[0], target)
                    && old(results)@[i]@.len() <= max_depth,
        ensures
            final(path)@ == old(path)@,
            final(results)@.len() >= old(results)@.len(),
            forall|i: int| 0 <= i < old(results)@.len() ==> #[trigger] final(results)@[i] == old(results)@[i],
            forall|i: int|
                0 <= i < final(results)@.len() ==> is_simple_path(self.edge_set(), (#[trigger] final(results)@[i])@, old(path)@[0], target)
                    && final(results)@[i]@.len() <= max_depth,
            forall|q: Seq<FunDeclId>|
                #[trigger] is_simple_path(self.edge_set(), q, old(path)@[0], target) && q.len() <= max_depth && extends(
                    q,
                    old(path)@,
                ) ==> covered(final(results)@, q),
            forall|i: int| old(results)@.len() <= i < final(results)@.len() ==> extends((#[trigger] final(results)@[i])@, old(path)@),
            forall|i: int, j: int|
                old(results)@.len() <= i < j < final(results)@.len() ==> (#[trigger] final(results)@[i])@ != (#[trigger] final(results)@[j])@,
        decreases max_depth - old(path)@.len(),
    {
        let ghost start = path@;
        let ghost r0 = results@;
        let node = path[path.len() - 1];
        if node == target && path.len() > 1 {
            let found = copy_ids(path);
            results.push(found);
            proof {
                assert(results@[r0.len() as int]@ == start);
            }
        }
        let ghost r1 = results@;
        proof {
            assert forall|i: int| r0.len() <= i < results@.len() implies (#[trigger] results@[i])@ == start by {
                assert(results@[r0.len() as int]@ == start);
            }
            assert(start.subrange(0, start.len() as int) =~= start);
            assert forall|q: Seq<FunDeclId>|
                #[trigger] is_simple_path(self.edge_set(), q, start[0], target) && q.len() <= max_depth && extends(q, start)
                    && q.len() == start.len() implies covered(results@, q) by {
                assert(q =~= start);
                assert(results@[r0.len() as int]@ == start);
            }
        }
        if path.len() >= max_depth {
            return;
        }
        let nexts = self.callees(node);
        proof {
            assert(nexts@.subrange(nexts@.len() as int, nexts@.len() as int) =~= Seq::<FunDeclId>::empty());
        }
        let mut k = nexts.len();
        while k > 0
            invariant
                forall|i: int| 0 <= i < r1.len() ==> #[trigger] results@[i] == r1[i],
                r1.len() <= results@.len(),
                forall|q: Seq<FunDeclId>|
                    #[trigger] is_simple_path(self.edge_set(), q, start[0], target) && q.len() <= max_depth && extends(q, start)
                        && q.len() == start.len() ==> covered(r1, q),
                next_covered(self.edge_set(), start, target, max_depth, nexts@.subrange(k as int, nexts@.len() as int), results@),
                self.wf(),
                k <= nexts@.len(),
                path@ == start,
                start == old(path)@,
                1 <= start.len() < max_depth,
                is_path(self.edge_set(), start),
                start.no_duplicates(),
                node == start.last(),
                forall|n: FunDeclId| #[trigger] nexts@.contains(n) <==> self.edge_set().contains((node, n)),
                results@.len() >= old(results)@.len(),
                forall|i: int| 0 <= i < old(results)@.len() ==> #[trigger] results@[i] == old(results)@[i],
                forall|i: int|
                    0 <= i < results@.len() ==> is_simple_path(self.edge_set(), (#[trigger] results@[i])@, start[0], target)
                        && results@[i]@.len() <= max_depth,
                r0 == old(results)@,
                nexts@.no_duplicates(),
                r1.len() <= r0.len() + 1,
                r0.len() <= r1.len(),
                forall|i: int| r0.len() <= i < r1.len() ==> (#[trigger] results@[i])@ == start,
                forall|i: int|
                    r1.len() <= i < results@.len() ==> (#[trigger] results@[i])@.len() > start.len() && extends(results@[i]@, start)
                        && nexts@.subrange(k as int, nexts@.len() as int).contains(results@[i]@[start.len() as int]),
                forall|i: int, j: int| r0.len() <= i < j < results@.len() ==> (#[trigger] results@[i])@ != (#[trigger] results@[j])@,
            decreases k,
        {
            k = k - 1;
            let next = nexts[k];
            let ghost rb = results@;
            if !vec_contains(path, next) {
                path.push(next);
                proof {
                    assert(nexts@.contains(next));
                    lemma_path_push(self.edge_set(), start, next);
                    crate::seqs::lemma_push_nodup(start, next);
                }
                self.paths_from(path, target, max_depth, results);
                path.pop();
                assert(path@ =~= start);
                proof {
                    lemma_extend_covered(self.edge_set(), start, next, target, max_depth, results@);
                    lemma_distinct_step(start, next, nexts@, k as int, r0.len() as int, r1.len() as int, rb, results@);
                }
            } else {
                proof {
                    assert forall|q: Seq<FunDeclId>|
                        #[trigger] is_simple_path(self.edge_set(), q, start[0], target) && q.len() <= max_depth && extends(q, start)
                            && q.len() > start.len() && seq![next].contains(q[start.len() as int]) implies covered(results@, q) by {
                        assert(q[start.len() as int] == next);
                        let j = choose|j: int| 0 <= j < start.len() && start[j] == next;
                        assert(q.subrange(0, start.len() as int)[j] == q[j]);
                    }
                    lemma_distinct_step(start, next, nexts@, k as int, r0.len() as int, r1.len() as int, rb, results@);
                }
            }
            proof {
                let a = nexts@.subrange(k + 1, nexts@.len() as int);
                let c = nexts@.subrange(k as int, nexts@.len() as int);
                assert forall|x: FunDeclId| #[trigger] c.contains(x) implies a.contains(x) || seq![next].contains(x) by {
                    let j = choose|j: int| 0 <= j < c.len() && c[j] == x;
                    if j == 0 {
                        assert(seq![next][0] == x);
                    } else {
                        assert(a[j - 1] == x);
                    }
                }
                lemma_covered_join(self.edge_set(), start, target, max_depth, a, seq![next], c, rb, results@);
            }
        }
        proof {
            assert forall|q: Seq<FunDeclId>|
                #[trigger] is_simple_path(self.edge_set(), q, start[0], target) && q.len() <= max_depth && extends(q, start)
                implies covered(results@, q) by {
                if q.len() == start.len() {
                    let i = choose|i: int| 0 <= i < r1.len() && (#[trigger] r1[i])@ == q;
                    assert(results@[i] == r1[i]);
                } else {
                    let x = q[start.len() as int];
                    assert(q.subrange(0, start.len() as int)[start.len() - 1] == q[start.len() - 1]);
                    assert(self.edge_set().contains((q[start.len() - 1], q[start.len() as int])));
                    assert(nexts@.contains(x));
                    assert(nexts@.subrange(0, nexts@.len() as int) =~= nexts@);
                }
            }
            assert forall|i: int| r0.len() <= i < results@.len() implies extends((#[trigger] results@[i])@, start) by {
                if i < r1.len() {
                    assert(results@[i]@ == start);
                }
            }
        }
    }

    /// Every path without repeated functions from `source` to `target` of at
    /// most `max_depth` functions, found depth first.
    pub fn all_simple_paths(&self, source: FunDeclId, target: FunDeclId, max_depth: usize) -> (r: Vec<Vec<FunDeclId>>)
        requires
            self.wf(),
        ensures
            forall|i: int|
                0 <= i < r@.len() ==> is_simple_path(self.edge_set(), (#[trigger] r@[i])@, source, target) && r@[i]@.len()
                    <= max_depth,
            forall|q: Seq<FunDeclId>|
                #[trigger] is_simple_path(self.edge_set(), q, source, target) && q.len() <= max_depth ==> covered(r@, q),
            forall|i: int, j: int| 0 <= i < j < r@.len() ==> (#[trigger] r@[i])@ != (#[trigger] r@[j])@,
    {
        let mut results: Vec<Vec<FunDeclId>> = Vec::new();
        if max_depth == 0 {
            return results;
        }
        let mut path: Vec<FunDeclId> = Vec::new();
        path.push(source);
        proof {
            assert(is_path(self.edge_set(), path@));
        }
        let ghost start = path@;
        self.paths_from(&mut path, target, max_depth, &mut results);
        proof {
            assert forall|q: Seq<FunDeclId>|
                #[trigger] is_simple_path(self.edge_set(), q, source, target) && q.len() <= max_depth implies covered(
                    results@,
                    q,
                ) by {
                assert(q.subrange(0, 1) =~= start);
                assert(start[0] == source);
            }
        }
        results
    }

    /// The blocks of `caller` that call `callee`, in the order found; none where it does not call it.
    pub fn callsite_blocks(&self, caller: FunDeclId, callee: FunDeclId) -> (r: Vec<BlockId>)
        ensures
            forall|i: int| 0 <= i < self.callsites@.len() && (#[trigger] self.callsites@[i]).caller == caller
                && self.callsites@[i].callee == callee ==> r@ == self.callsites@[i].blocks@ || exists|j: int|
                0 <= j < i && (#[trigger] self.callsites@[j]).caller == caller && self.callsites@[j].callee == callee,
            r@.len() > 0 ==> exists|i: int|
                0 <= i < self.callsites@.len() && (#[trigger] self.callsites@[i]).caller == caller
                    && self.callsites@[i].callee == callee && r@ == self.callsites@[i].blocks@,
    {
        let mut i: usize = 0;
        while i < self.callsites.len()
            invariant
                i <= self.callsites@.len(),
                forall|k: int| 0 <= k < i ==> !((#[trigger] self.callsites@[k]).caller == caller && self.callsites@[k].callee == callee),
            decreases self.callsites@.len() - i,
        {
            if self.callsites[i].caller == caller && self.callsites[i].callee == callee {
                return copy_ids(&self.callsites[i].blocks);
            }
            i = i + 1;
        }
        Vec::new()
    }
}

} // verus!
