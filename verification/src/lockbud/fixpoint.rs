//! The fixpoint that the dataflow engine computes for one function body, and
//! the facts about it that the engine's proofs rest on.

use vstd::prelude::*;

use crate::lockbud::engine::{block_out, run_block, step_state, DataflowEntity, GenKillMaps, LiveSet};
use crate::lockbud::ullbc::{successors, BlockId, ExprBody};

verus! {

/// The entry states of a body's blocks as sets; `None` for a block not reached.
pub open spec fn entry_views<T: DataflowEntity>(e: Seq<Option<LiveSet<T>>>) -> Seq<Option<Set<T>>> {
    Seq::new(
        e.len(),
        |i: int|
            match e[i] {
                Some(s) => Some(s@),
                None => None::<Set<T>>,
            },
    )
}

/// Where block `b` is reached, each of its successors is reached with at
/// least the state at the exit of `b`.
pub open spec fn flows_into<T: DataflowEntity>(
    gk: GenKillMaps<T>,
    body: ExprBody,
    e: Seq<Option<Set<T>>>,
    b: int,
) -> bool {
    e[b] is Some ==> forall|k: int|
        0 <= k < successors(body.body@[b].terminator.kind).len() ==> {
            let s = #[trigger] successors(body.body@[b].terminator.kind)[k] as int;
            &&& e[s] is Some
            &&& block_out(gk, body, e[b]->0, b as BlockId).subset_of(e[s]->0)
        }
}

/// An assignment of entry states that starts from `ctx` and is closed under
/// the flow along every edge of the body.
pub open spec fn is_post_fixpoint<T: DataflowEntity>(
    gk: GenKillMaps<T>,
    body: ExprBody,
    ctx: Set<T>,
    e: Seq<Option<Set<T>>>,
) -> bool {
    &&& e.len() == body.body@.len()
    &&& e.len() > 0
    &&& e[0] is Some
    &&& ctx.subset_of(e[0]->0)
    &&& forall|b: int| 0 <= b < e.len() ==> #[trigger] flows_into(gk, body, e, b)
}

/// Every block that `e` reaches, `p` reaches too, with at least as much.
pub open spec fn below<T>(e: Seq<Option<Set<T>>>, p: Seq<Option<Set<T>>>) -> bool {
    forall|b: int|
        0 <= b < e.len() && (#[trigger] e[b]) is Some ==> p[b] is Some && e[b]->0.subset_of(p[b]->0)
}

/// The least post-fixpoint: the states that flow along the body from `ctx`, and no more.
pub open spec fn is_least_fixpoint<T: DataflowEntity>(
    gk: GenKillMaps<T>,
    body: ExprBody,
    ctx: Set<T>,
    e: Seq<Option<Set<T>>>,
) -> bool {
    &&& is_post_fixpoint(gk, body, ctx, e)
    &&& forall|p: Seq<Option<Set<T>>>| #[trigger] is_post_fixpoint(gk, body, ctx, p) ==> below(e, p)
}

/// The least post-fixpoint of a body from `ctx`.
pub open spec fn least_entries<T: DataflowEntity>(gk: GenKillMaps<T>, body: ExprBody, ctx: Set<T>) -> Seq<
    Option<Set<T>>,
> {
    choose|e: Seq<Option<Set<T>>>| is_least_fixpoint(gk, body, ctx, e)
}

/// The union of the entry states of the first `n` blocks that return.
pub open spec fn return_union<T>(body: ExprBody, e: Seq<Option<Set<T>>>, n: int) -> Set<T>
    decreases n,
{
    if n <= 0 {
        Set::empty()
    } else {
        let rest = return_union(body, e, n - 1);
        if body.body@[n - 1].terminator.kind is Return && e[n - 1] is Some {
            rest.union(e[n - 1]->0)
        } else {
            rest
        }
    }
}

/// What a body hands back to its callers from `ctx`: the union of the states
/// at its returns in the least fixpoint.
pub open spec fn body_exit<T: DataflowEntity>(gk: GenKillMaps<T>, body: ExprBody, ctx: Set<T>) -> Set<T> {
    return_union(body, least_entries(gk, body, ctx), body.body@.len() as int)
}

/// Running a block from a larger state gives a larger state.
pub proof fn lemma_run_block_mono<T: DataflowEntity>(
    gk: GenKillMaps<T>,
    s1: Set<T>,
    s2: Set<T>,
    b: BlockId,
    k: nat,
)
    requires
        s1.subset_of(s2),
    ensures
        run_block(gk, s1, b, k).subset_of(run_block(gk, s2, b, k)),
    decreases k,
{
    if k > 0 {
        lemma_run_block_mono(gk, s1, s2, b, (k - 1) as nat);
    }
}

/// There is at most one least post-fixpoint.
pub proof fn lemma_least_unique<T: DataflowEntity>(
    gk: GenKillMaps<T>,
    body: ExprBody,
    ctx: Set<T>,
    e1: Seq<Option<Set<T>>>,
    e2: Seq<Option<Set<T>>>,
)
    requires
        is_least_fixpoint(gk, body, ctx, e1),
        is_least_fixpoint(gk, body, ctx, e2),
    ensures
        e1 == e2,
{
    assert(below(e1, e2));
    assert(below(e2, e1));
    assert forall|b: int| 0 <= b < e1.len() implies e1[b] == e2[b] by {
        if e1[b] is Some {
            assert(e2[b] is Some);
            assert(e1[b]->0 =~= e2[b]->0);
        } else if e2[b] is Some {
            assert(e1[b] is Some);
        }
    }
    assert(e1 =~= e2);
}

/// A least post-fixpoint is the one that `least_entries` names.
pub proof fn lemma_least_is_chosen<T: DataflowEntity>(
    gk: GenKillMaps<T>,
    body: ExprBody,
    ctx: Set<T>,
    e: Seq<Option<Set<T>>>,
)
    requires
        is_least_fixpoint(gk, body, ctx, e),
    ensures
        least_entries(gk, body, ctx) == e,
        body_exit(gk, body, ctx) == return_union(body, e, body.body@.len() as int),
{
    let c = least_entries(gk, body, ctx);
    assert(is_least_fixpoint(gk, body, ctx, c));
    lemma_least_unique(gk, body, ctx, c, e);
}

/// A proper subset of a finite set is smaller.
pub proof fn lemma_strict_subset_len<T>(a: Set<T>, b: Set<T>)
    requires
        b.finite(),
        a.subset_of(b),
        a != b,
    ensures
        a.len() < b.len(),
{
    if forall|x: T| b.contains(x) ==> a.contains(x) {
        assert(a =~= b);
    }
    let x = choose|x: T| b.contains(x) && !a.contains(x);
    assert(a.subset_of(b.remove(x)));
    vstd::set_lib::lemma_len_subset(a, b.remove(x));
}

/// How far an entry state is from the universe `u`; an unreached block counts one more.
pub open spec fn weight<T>(o: Option<Set<T>>, u: Set<T>) -> int {
    match o {
        Some(s) => u.len() - s.len(),
        None => u.len() + 1int,
    }
}

/// The sum of the weights of all entry states.
pub open spec fn potential<T>(e: Seq<Option<Set<T>>>, u: Set<T>) -> int
    decreases e.len(),
{
    if e.len() == 0 {
        0
    } else {
        potential(e.drop_last(), u) + weight(e.last(), u)
    }
}

pub proof fn lemma_potential_update<T>(e: Seq<Option<Set<T>>>, i: int, x: Option<Set<T>>, u: Set<T>)
    requires
        0 <= i < e.len(),
    ensures
        potential(e.update(i, x), u) == potential(e, u) - weight(e[i], u) + weight(x, u),
    decreases e.len(),
{
    if i == e.len() - 1 {
        assert(e.update(i, x).drop_last() =~= e.drop_last());
    } else {
        lemma_potential_update(e.drop_last(), i, x, u);
        assert(e.update(i, x).drop_last() =~= e.drop_last().update(i, x));
    }
}

pub proof fn lemma_potential_nonneg<T>(e: Seq<Option<Set<T>>>, u: Set<T>)
    requires
        u.finite(),
        forall|b: int| 0 <= b < e.len() && (#[trigger] e[b]) is Some ==> e[b]->0.subset_of(u),
    ensures
        potential(e, u) >= 0,
    decreases e.len(),
{
    if e.len() > 0 {
        let d = e.drop_last();
        assert forall|b: int| 0 <= b < d.len() && (#[trigger] d[b]) is Some implies d[b]->0.subset_of(u) by {
            assert(d[b] == e[b]);
        }
        lemma_potential_nonneg(d, u);
        if e.last() is Some {
            assert(e[e.len() - 1] is Some);
            vstd::set_lib::lemma_len_subset(e.last()->0, u);
        }
    }
}

/// How far each function's context is from the universe `u`, summed.
pub open spec fn ctx_potential<T>(c: Seq<Set<T>>, u: Set<T>) -> int
    decreases c.len(),
{
    if c.len() == 0 {
        0
    } else {
        ctx_potential(c.drop_last(), u) + (u.len() - c.last().len())
    }
}

pub proof fn lemma_ctx_potential_update<T>(c: Seq<Set<T>>, i: int, x: Set<T>, u: Set<T>)
    requires
        0 <= i < c.len(),
    ensures
        ctx_potential(c.update(i, x), u) == ctx_potential(c, u) - (u.len() - c[i].len()) + (u.len() - x.len()),
    decreases c.len(),
{
    if i == c.len() - 1 {
        assert(c.update(i, x).drop_last() =~= c.drop_last());
    } else {
        lemma_ctx_potential_update(c.drop_last(), i, x, u);
        assert(c.update(i, x).drop_last() =~= c.drop_last().update(i, x));
    }
}

pub proof fn lemma_ctx_potential_nonneg<T>(c: Seq<Set<T>>, u: Set<T>)
    requires
        u.finite(),
        forall|f: int| 0 <= f < c.len() ==> (#[trigger] c[f]).subset_of(u),
    ensures
        ctx_potential(c, u) >= 0,
    decreases c.len(),
{
    if c.len() > 0 {
        let d = c.drop_last();
        assert forall|f: int| 0 <= f < d.len() implies (#[trigger] d[f]).subset_of(u) by {
            assert(d[f] == c[f]);
        }
        lemma_ctx_potential_nonneg(d, u);
        assert(c[c.len() - 1].subset_of(u));
        vstd::set_lib::lemma_len_subset(c.last(), u);
    }
}

} // verus!
