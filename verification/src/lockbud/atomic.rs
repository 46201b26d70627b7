//! Atomicity violations: an atomic store that depends, by data or by
//! control, on an atomic load of the same object, with no read-modify-write
//! of that object in between.

use vstd::prelude::*;

use crate::lockbud::callgraph::{reaches, CallGraph};
use crate::lockbud::detector::{blocks_refs, resolve_place_through_refs, resolve_spec, stmt_ref, stmts_refs};
use crate::lockbud::render::{format_span, span_text};
use crate::lockbud::report::{AtomicityViolationDiagnosis, Report, ReportContent};
use crate::lockbud::types::{callee_name, callee_name_of, format_name, fun_name, name_text, Location};
use crate::lockbud::ullbc::{
    base_local, copy_operand, copy_place, place_eq, same_place, successors, terminator_successors, BlockData,
    BlockId, ExprBody, FnOperand, FunDeclId, LocalId, Operand, Place, PlaceKind, Rvalue, Span, StatementKind,
    TerminatorKind, TranslatedCrate, START_BLOCK_ID,
};
use crate::text::{has_prefix, has_sub, vec_has, vec_starts, chars_of};

verus! {

broadcast use {vstd::seq_lib::lemma_seq_contains_after_push, vstd::seq::Seq::lemma_push_to_set_commute};

#[derive(Clone, Copy, Debug, PartialEq, Eq, Structural)]
pub enum AtomicApi {
    Read,
    Write,
    ReadWrite,
}

#[derive(Clone, Copy, Debug, PartialEq, Eq, Structural)]
pub enum DependenceKind {
    Control,
    Data,
    Both,
}

/// The atomic API that a function of this printed path is, if any.
pub open spec fn atomic_api_of_name(name: Seq<char>) -> Option<AtomicApi> {
    if !has_prefix(name, "std::sync::atomic"@) && !has_prefix(name, "core::sync::atomic"@) {
        None
    } else if has_sub(name, "::load"@) {
        Some(AtomicApi::Read)
    } else if has_sub(name, "::store"@) {
        Some(AtomicApi::Write)
    } else if has_sub(name, "compare"@) || has_sub(name, "fetch_"@) {
        Some(AtomicApi::ReadWrite)
    } else {
        None
    }
}

/// The atomic API that a call targets, if it targets a declared function that is one.
pub open spec fn atomic_api_spec(func: FnOperand, krate: TranslatedCrate) -> Option<AtomicApi> {
    match callee_name(func, krate) {
        Some(n) => atomic_api_of_name(n),
        None => None,
    }
}

/// The atomic API that a call targets: a declared function under
/// `std::sync::atomic` or `core::sync::atomic` whose path holds `::load`
/// (a read), `::store` (a write), or `compare` or `fetch_` (both).
pub fn classify_atomic_api(func: &FnOperand, krate: &TranslatedCrate) -> (r: Option<AtomicApi>)
    ensures
        r == atomic_api_spec(*func, *krate),
{
    let name = match callee_name_of(func, krate) {
        Some(n) => n,
        None => return None,
    };
    let n = chars_of(name.as_str());
    if !vec_starts(&n, "std::sync::atomic") && !vec_starts(&n, "core::sync::atomic") {
        return None;
    }
    if vec_has(&n, "::load") {
        Some(AtomicApi::Read)
    } else if vec_has(&n, "::store") {
        Some(AtomicApi::Write)
    } else if vec_has(&n, "compare") || vec_has(&n, "fetch_") {
        Some(AtomicApi::ReadWrite)
    } else {
        None
    }
}

/// A call of an atomic API.
#[derive(Debug)]
pub struct AtomicCallSite {
    pub api: AtomicApi,
    pub loc: Location,
    /// The atomic object the call is on, its borrows followed.
    pub receiver: Option<Place>,
    /// The local the call's result goes to.
    pub dest: Option<LocalId>,
    /// The value a store writes.
    pub value_op: Option<Operand>,
}

/// The atomic calls of each function that has some, one entry per function.
pub type AtomicCallSites = Vec<(FunDeclId, Vec<AtomicCallSite>)>;

/// The borrows of a body, block by block, in order.
pub fn build_ref_places(body: &ExprBody) -> (r: Vec<(LocalId, Place)>)
    ensures
        r@ == blocks_refs(body.body@),
{
    let mut ref_places: Vec<(LocalId, Place)> = Vec::new();
    let mut b: usize = 0;
    while b < body.body.len()
        invariant
            b <= body.body@.len(),
            ref_places@ == blocks_refs(body.body@.take(b as int)),
        decreases body.body@.len() - b,
    {
        let block = &body.body[b];
        let ghost start = ref_places@;
        let mut k: usize = 0;
        while k < block.statements.len()
            invariant
                k <= block.statements@.len(),
                ref_places@ == start + stmts_refs(block.statements@.take(k as int)),
            decreases block.statements@.len() - k,
        {
            let stmt = &block.statements[k];
            proof {
                assert(block.statements@.take(k + 1).drop_last() =~= block.statements@.take(k as int));
                assert(block.statements@.take(k + 1).last() == block.statements@[k as int]);
            }
            match &stmt.kind {
                StatementKind::Assign(dest, rvalue) => {
                    match dest.local_id() {
                        Some(dest_local) => match rvalue {
                            Rvalue::Ref(ref_place) => {
                                ref_places.push((dest_local, copy_place(ref_place)));
                            },
                            _ => {},
                        },
                        None => {},
                    }
                },
                _ => {},
            }
            assert(ref_places@ =~= start + stmts_refs(block.statements@.take(k + 1)));
            k = k + 1;
        }
        proof {
            assert(block.statements@.take(block.statements@.len() as int) =~= block.statements@);
            assert(body.body@.take(b + 1).drop_last() =~= body.body@.take(b as int));
            assert(body.body@.take(b + 1).last() == body.body@[b as int]);
        }
        b = b + 1;
    }
    assert(body.body@.take(body.body@.len() as int) =~= body.body@);
    ref_places
}

/// The atomic call that block `b` of `body` ends in, in a crate `krate`,
/// with its receiver resolved through the borrows `refs`.
pub open spec fn atomic_site_of(
    krate: TranslatedCrate,
    body: ExprBody,
    refs: Seq<(LocalId, Place)>,
    b: int,
) -> Option<AtomicCallSite> {
    match body.body@[b].terminator.kind {
        TerminatorKind::Call { call, .. } => match atomic_api_spec(call.func, krate) {
            Some(api) => Some(
                AtomicCallSite {
                    api,
                    loc: Location { block: b as usize, statement_index: body.body@[b].statements@.len() as usize },
                    receiver: if call.args@.len() > 0 {
                        match call.args@[0] {
                            Operand::Copy(p) | Operand::Move(p) => Some(resolve_spec(p, refs, refs.len())),
                            Operand::Const(_) => None,
                        }
                    } else {
                        None
                    },
                    dest: base_local(call.dest),
                    value_op: if api is Write && call.args@.len() > 1 {
                        Some(call.args@[1])
                    } else {
                        None
                    },
                },
            ),
            None => None,
        },
        _ => None,
    }
}

/// The atomic calls of the first `n` blocks of `body`, in order.
pub open spec fn atomic_sites_upto(
    krate: TranslatedCrate,
    body: ExprBody,
    refs: Seq<(LocalId, Place)>,
    n: int,
) -> Seq<AtomicCallSite>
    decreases n,
{
    if n <= 0 {
        Seq::empty()
    } else {
        match atomic_site_of(krate, body, refs, n - 1) {
            Some(s) => atomic_sites_upto(krate, body, refs, n - 1).push(s),
            None => atomic_sites_upto(krate, body, refs, n - 1),
        }
    }
}

/// The atomic calls of function `f`: those of its body if it is a local function.
pub open spec fn fun_atomic_sites(krate: TranslatedCrate, f: int) -> Seq<AtomicCallSite> {
    match krate.fun_decl(f) {
        Some(decl) => if decl.is_local {
            match decl.body {
                Some(body) => atomic_sites_upto(krate, body, blocks_refs(body.body@), body.body@.len() as int),
                None => Seq::empty(),
            }
        } else {
            Seq::empty()
        },
        None => Seq::empty(),
    }
}

/// The atomic calls of the functions before `f` that have some, in order.
pub open spec fn atomic_entries_upto(krate: TranslatedCrate, f: int) -> Seq<(FunDeclId, Seq<AtomicCallSite>)>
    decreases f,
{
    if f <= 0 {
        Seq::empty()
    } else if fun_atomic_sites(krate, f - 1).len() > 0 {
        atomic_entries_upto(krate, f - 1).push(((f - 1) as FunDeclId, fun_atomic_sites(krate, f - 1)))
    } else {
        atomic_entries_upto(krate, f - 1)
    }
}

/// Each call lies in the body of its function.
pub open spec fn sites_valid(krate: TranslatedCrate, sites: Seq<(FunDeclId, Vec<AtomicCallSite>)>) -> bool {
    forall|i: int, j: int|
        0 <= i < sites.len() && 0 <= j < sites[i].1@.len() ==> match krate.body_of(sites[i].0 as int) {
            Some(body) => (#[trigger] sites[i].1@[j]).loc.block < body.body@.len() && sites[i].1@[j].loc.statement_index
                <= body.body@[sites[i].1@[j].loc.block as int].statements@.len(),
            None => true,
        }
}

/// The entries as function and view of their calls.
pub open spec fn entries_view(v: Seq<(FunDeclId, Vec<AtomicCallSite>)>) -> Seq<(FunDeclId, Seq<AtomicCallSite>)> {
    Seq::new(v.len(), |i: int| (v[i].0, v[i].1@))
}

/// Every atomic call of the crate's local functions, grouped by function in
/// the order of the functions, each group in the order of its blocks.
pub fn collect_atomic_callsites(krate: &TranslatedCrate) -> (r: AtomicCallSites)
    ensures
        entries_view(r@) == atomic_entries_upto(*krate, krate.fun_decls@.len() as int),
        sites_valid(*krate, r@),
{
    let mut result: AtomicCallSites = Vec::new();
    let n = krate.fun_decls.len();
    let mut f: usize = 0;
    while f < n
        invariant
            f <= n,
            n == krate.fun_decls@.len(),
            entries_view(result@) == atomic_entries_upto(*krate, f as int),
            sites_valid(*krate, result@),
            forall|k: int| 0 <= k < result@.len() ==> (#[trigger] result@[k]).0 < f,
        decreases n - f,
    {
        let ghost before = result@;
        let mut sites: Vec<AtomicCallSite> = Vec::new();
        match &krate.fun_decls[f] {
            Some(decl) => {
                if decl.is_local {
                    match &decl.body {
                        Some(body) => {
                            let ref_places = build_ref_places(body);
                            let mut b: usize = 0;
                            while b < body.body.len()
                                invariant
                                    b <= body.body@.len(),
                                    ref_places@ == blocks_refs(body.body@),
                                    sites@ == atomic_sites_upto(*krate, *body, ref_places@, b as int),
                                    f < n,
                                    krate.fun_decls@[f as int] == Some(*decl),
                                    decl.body == Some(*body),
                                    forall|k: int| 0 <= k < sites@.len() ==> (#[trigger] sites@[k]).loc.block < body.body@.len()
                                        && sites@[k].loc.statement_index <= body.body@[sites@[k].loc.block as int].statements@.len(),
                                decreases body.body@.len() - b,
                            {
                                let block = &body.body[b];
                                match &block.terminator.kind {
                                    TerminatorKind::Call { call, .. } => match classify_atomic_api(&call.func, krate) {
                                        Some(api) => {
                                            let receiver = if call.args.len() > 0 {
                                                match &call.args[0] {
                                                    Operand::Copy(p) | Operand::Move(p) => Some(
                                                        resolve_place_through_refs(p, &ref_places),
                                                    ),
                                                    Operand::Const(_) => None,
                                                }
                                            } else {
                                                None
                                            };
                                            let dest = call.dest.local_id();
                                            let value_op = if api == AtomicApi::Write && call.args.len() > 1 {
                                                Some(copy_operand(&call.args[1]))
                                            } else {
                                                None
                                            };
                                            sites.push(
                                                AtomicCallSite {
                                                    api,
                                                    loc: Location::new(b, block.statements.len()),
                                                    receiver,
                                                    dest,
                                                    value_op,
                                                },
                                            );
                                        },
                                        None => {},
                                    },
                                    _ => {},
                                }
                                b = b + 1;
                            }
                        },
                        None => {},
                    }
                }
            },
            None => {},
        }
        proof {
            assert(sites@ == fun_atomic_sites(*krate, f as int));
            assert(sites@.len() > 0 ==> krate.body_of(f as int) is Some);
            assert(forall|k: int| 0 <= k < sites@.len() ==> match krate.body_of(f as int) {
                Some(body) => (#[trigger] sites@[k]).loc.block < body.body@.len()
                    && sites@[k].loc.statement_index <= body.body@[sites@[k].loc.block as int].statements@.len(),
                None => true,
            });
        }
        if sites.len() > 0 {
            result.push((f, sites));
            proof {
                assert(entries_view(result@) =~= entries_view(before).push((f, fun_atomic_sites(*krate, f as int))));
            }
        }
        f = f + 1;
    }
    result
}

// ---------------------------------------------------------------------------
// Dominance
// ---------------------------------------------------------------------------

/// Block `p` jumps to block `b`.
pub open spec fn is_pred(body: ExprBody, p: int, b: int) -> bool {
    0 <= p < body.body@.len() && successors(body.body@[p].terminator.kind).contains(b as BlockId)
}

/// The predecessors of each block: the blocks that jump to it.
pub fn build_predecessors(body: &ExprBody) -> (r: Vec<Vec<BlockId>>)
    requires
        body.wf(),
    ensures
        r@.len() == body.body@.len(),
        forall|b: int, p: BlockId| 0 <= b < r@.len() ==> (#[trigger] r@[b]@.contains(p) <==> is_pred(*body, p as int, b)),
{
    let nb = body.body.len();
    let mut preds: Vec<Vec<BlockId>> = Vec::new();
    let mut i: usize = 0;
    while i < nb
        invariant
            i <= nb,
            preds@.len() == i,
            forall|k: int| 0 <= k < i ==> (#[trigger] preds@[k])@.len() == 0,
        decreases nb - i,
    {
        preds.push(Vec::new());
        i = i + 1;
    }
    let mut blk: usize = 0;
    while blk < nb
        invariant
            body.wf(),
            nb == body.body@.len(),
            blk <= nb,
            preds@.len() == nb,
            forall|b: int, p: BlockId|
                0 <= b < nb ==> (#[trigger] preds@[b]@.contains(p) <==> (p < blk && is_pred(*body, p as int, b))),
        decreases nb - blk,
    {
        let succs = terminator_successors(&body.body[blk].terminator.kind);
        let ghost ss = successors(body.body@[blk as int].terminator.kind);
        let ghost start = preds@;
        let mut j: usize = 0;
        while j < succs.len()
            invariant
                body.wf(),
                nb == body.body@.len(),
                blk < nb,
                succs@ == ss,
                ss == successors(body.body@[blk as int].terminator.kind),
                j <= ss.len(),
                preds@.len() == nb,
                forall|b: int, p: BlockId|
                    0 <= b < nb ==> (#[trigger] preds@[b]@.contains(p) <==> (start[b]@.contains(p) || (p == blk
                        && ss.subrange(0, j as int).contains(b as BlockId)))),
            decreases ss.len() - j,
        {
            let s = succs[j];
            assert(ss[j as int] == s);
            assert(s < nb);
            let ghost before = preds@;
            let mut slot: Vec<BlockId> = Vec::new();
            preds.set_and_swap(s, &mut slot);
            slot.push(blk);
            preds.set(s, slot);
            proof {
                assert(ss.subrange(0, j + 1) == ss.subrange(0, j as int).push(s));
                assert forall|b: int, p: BlockId| 0 <= b < nb implies (#[trigger] preds@[b]@.contains(p) <==> (
                start[b]@.contains(p) || (p == blk && ss.subrange(0, j + 1).contains(b as BlockId)))) by {
                    assert((b as BlockId) as int == b);
                    if b != s {
                        assert(preds@[b] == before[b]);
                    }
                }
            }
            j = j + 1;
        }
        proof {
            assert(ss.subrange(0, ss.len() as int) =~= ss);
            assert forall|b: int, p: BlockId| 0 <= b < nb implies (#[trigger] preds@[b]@.contains(p) <==> (p < blk + 1
                && is_pred(*body, p as int, b))) by {
                assert((b as BlockId) as int == b);
            }
        }
        blk = blk + 1;
    }
    preds
}

/// What the dominance step gives block `b`: itself, with the blocks that
/// dominate every predecessor.
pub open spec fn dom_step(body: ExprBody, d: Seq<Seq<bool>>, b: int, x: int) -> bool {
    x == b || forall|p: int| #[trigger] is_pred(body, p, b) ==> d[p][x]
}

/// Block `b` has a predecessor.
pub open spec fn has_pred(body: ExprBody, b: int) -> bool {
    exists|p: int| #[trigger] is_pred(body, p, b)
}

/// A dominance assignment: the start block is dominated by itself alone; a
/// block with predecessors by itself and what dominates all of them; a block
/// without predecessors keeps every block.
pub open spec fn is_dominance(body: ExprBody, d: Seq<Seq<bool>>) -> bool {
    let n = body.body@.len();
    &&& d.len() == n
    &&& forall|b: int| 0 <= b < n ==> (#[trigger] d[b]).len() == n
    &&& forall|x: int| 0 <= x < n ==> (d[0][x] <==> x == 0)
    &&& forall|b: int, x: int|
        0 < b < n && 0 <= x < n ==> (#[trigger] d[b][x] <==> if has_pred(body, b) {
            dom_step(body, d, b, x)
        } else {
            true
        })
}

/// The total number of entries set.
pub open spec fn total_count(d: Seq<Seq<bool>>) -> nat
    decreases d.len(),
{
    if d.len() == 0 {
        0
    } else {
        total_count(d.drop_last()) + count_true(d.last())
    }
}

/// The number of entries set.
pub open spec fn count_true(v: Seq<bool>) -> nat
    decreases v.len(),
{
    if v.len() == 0 {
        0
    } else {
        count_true(v.drop_last()) + if v.last() {
            1nat
        } else {
            0nat
        }
    }
}

proof fn lemma_count_le(a: Seq<bool>, b: Seq<bool>)
    requires
        a.len() == b.len(),
        forall|i: int| 0 <= i < a.len() && #[trigger] a[i] ==> b[i],
    ensures
        count_true(a) <= count_true(b),
        (exists|i: int| 0 <= i < a.len() && !a[i] && #[trigger] b[i]) ==> count_true(a) < count_true(b),
    decreases a.len(),
{
    if a.len() > 0 {
        let (da, db) = (a.drop_last(), b.drop_last());
        assert forall|i: int| 0 <= i < da.len() && #[trigger] da[i] implies db[i] by {
            assert(a[i] == da[i] && b[i] == db[i]);
        }
        lemma_count_le(da, db);
        if exists|i: int| 0 <= i < a.len() && !a[i] && #[trigger] b[i] {
            let i = choose|i: int| 0 <= i < a.len() && !a[i] && #[trigger] b[i];
            if i < a.len() - 1 {
                assert(!da[i] && db[i]);
            }
        }
    }
}

proof fn lemma_total_update(d: Seq<Seq<bool>>, i: int, v: Seq<bool>)
    requires
        0 <= i < d.len(),
    ensures
        total_count(d.update(i, v)) == total_count(d) - count_true(d[i]) + count_true(v),
    decreases d.len(),
{
    if i == d.len() - 1 {
        assert(d.update(i, v).drop_last() =~= d.drop_last());
    } else {
        lemma_total_update(d.drop_last(), i, v);
        assert(d.update(i, v).drop_last() =~= d.drop_last().update(i, v));
    }
}

/// The rows of a table as sequences.
pub open spec fn rows(d: Seq<Vec<bool>>) -> Seq<Seq<bool>> {
    Seq::new(d.len(), |k: int| d[k]@)
}

/// Whether two rows are equal.
fn rows_equal(a: &Vec<bool>, b: &Vec<bool>) -> (r: bool)
    ensures
        r == (a@ == b@),
{
    if a.len() != b.len() {
        return false;
    }
    let mut i: usize = 0;
    while i < a.len()
        invariant
            i <= a@.len(),
            a@.len() == b@.len(),
            forall|k: int| 0 <= k < i ==> a@[k] == b@[k],
        decreases a@.len() - i,
    {
        if a[i] != b[i] {
            return false;
        }
        i = i + 1;
    }
    assert(a@ =~= b@);
    true
}

/// A copy of a row.
fn copy_row(a: &Vec<bool>) -> (r: Vec<bool>)
    ensures
        r@ == a@,
{
    let mut r: Vec<bool> = Vec::new();
    let mut i: usize = 0;
    while i < a.len()
        invariant
            i <= a@.len(),
            r@ == a@.subrange(0, i as int),
        decreases a@.len() - i,
    {
        r.push(a[i]);
        i = i + 1;
        assert(r@ =~= a@.subrange(0, i as int));
    }
    assert(r@ =~= a@);
    r
}

/// The dominance step of block `id`, computed from the rows of its predecessors `ps`.
fn step_row(dom: &Vec<Vec<bool>>, ps: &Vec<BlockId>, id: usize, nb: usize) -> (r: Vec<bool>)
    requires
        ps@.len() > 0,
        id < nb,
        dom@.len() == nb,
        forall|b: int| 0 <= b < nb ==> (#[trigger] dom@[b])@.len() == nb,
        forall|k: int| 0 <= k < ps@.len() ==> (#[trigger] ps@[k]) < nb,
    ensures
        r@.len() == nb,
        forall|x: int| 0 <= x < nb ==> (#[trigger] r@[x] <==> (x == id || forall|k: int| 0 <= k < ps@.len() ==> dom@[ps@[k] as int]@[x])),
{
    let mut new_set = copy_row(&dom[ps[0]]);
    let mut k: usize = 1;
    while k < ps.len()
        invariant
            1 <= k <= ps@.len(),
            dom@.len() == nb,
            forall|b: int| 0 <= b < nb ==> (#[trigger] dom@[b])@.len() == nb,
            forall|kk: int| 0 <= kk < ps@.len() ==> (#[trigger] ps@[kk]) < nb,
            new_set@.len() == nb,
            forall|x: int| 0 <= x < nb ==> (#[trigger] new_set@[x] <==> forall|kk: int| 0 <= kk < k ==> dom@[ps@[kk] as int]@[x]),
        decreases ps@.len() - k,
    {
        let q = ps[k];
        let mut x: usize = 0;
        while x < nb
            invariant
                1 <= k < ps@.len(),
                q == ps@[k as int],
                q < nb,
                dom@.len() == nb,
                forall|b: int| 0 <= b < nb ==> (#[trigger] dom@[b])@.len() == nb,
                x <= nb,
                new_set@.len() == nb,
                forall|y: int| 0 <= y < x ==> (#[trigger] new_set@[y] <==> forall|kk: int| 0 <= kk < k + 1 ==> dom@[ps@[kk] as int]@[y]),
                forall|y: int| x <= y < nb ==> (#[trigger] new_set@[y] <==> forall|kk: int| 0 <= kk < k ==> dom@[ps@[kk] as int]@[y]),
            decreases nb - x,
        {
            if !dom[q][x] && new_set[x] {
                new_set.set(x, false);
            }
            proof {
                assert forall|y: int| 0 <= y < x + 1 implies (#[trigger] new_set@[y] <==> forall|kk: int|
                    0 <= kk < k + 1 ==> dom@[ps@[kk] as int]@[y]) by {
                    if y == x {
                        if !dom@[q as int]@[y] {
                            assert(!(forall|kk: int| 0 <= kk < k + 1 ==> dom@[ps@[kk] as int]@[y])) by {
                                assert(dom@[ps@[k as int] as int]@[y] == dom@[q as int]@[y]);
                            }
                        }
                    }
                }
            }
            x = x + 1;
        }
        k = k + 1;
    }
    new_set.set(id, true);
    new_set
}

/// A row of `n` entries, all equal to `v`.
fn row(n: usize, v: bool) -> (r: Vec<bool>)
    ensures
        r@.len() == n,
        forall|x: int| 0 <= x < n ==> #[trigger] r@[x] == v,
{
    let mut r: Vec<bool> = Vec::new();
    let mut i: usize = 0;
    while i < n
        invariant
            i <= n,
            r@.len() == i,
            forall|x: int| 0 <= x < i ==> #[trigger] r@[x] == v,
        decreases n - i,
    {
        r.push(v);
        i = i + 1;
    }
    r
}

/// The dominators of each block, by iterating the dominance step from
/// every block dominating every other until nothing changes.
pub fn build_dominance(body: &ExprBody) -> (r: Vec<Vec<bool>>)
    requires
        body.wf(),
    ensures
        is_dominance(*body, rows(r@)),
{
    let nb = body.body.len();
    let preds = build_predecessors(body);
    let mut dom: Vec<Vec<bool>> = Vec::new();
    let mut i: usize = 0;
    while i < nb
        invariant
            i <= nb,
            dom@.len() == i,
            forall|b: int| 0 <= b < i ==> (#[trigger] dom@[b])@.len() == nb,
            forall|b: int, x: int| 0 <= b < i && 0 <= x < nb ==> (#[trigger] dom@[b]@[x] <==> (b != 0 || x == 0)),
        decreases nb - i,
    {
        if i == 0 {
            let mut r = row(nb, false);
            r.set(0, true);
            dom.push(r);
        } else {
            dom.push(row(nb, true));
        }
        i = i + 1;
    }
    let ghost n = nb as int;
    let mut changed = true;
    while changed
        invariant
            body.wf(),
            n == nb,
            nb == body.body@.len(),
            preds@.len() == nb,
            forall|b: int, p: BlockId| 0 <= b < nb ==> (#[trigger] preds@[b]@.contains(p) <==> is_pred(*body, p as int, b)),
            dom@.len() == nb,
            forall|b: int| 0 <= b < nb ==> (#[trigger] dom@[b])@.len() == nb,
            forall|x: int| 0 <= x < nb ==> (dom@[0]@[x] <==> x == 0),
            forall|b: int, x: int|
                0 < b < nb && 0 <= x < nb && !has_pred(*body, b) ==> #[trigger] dom@[b]@[x],
            forall|b: int, x: int|
                0 < b < nb && 0 <= x < nb && has_pred(*body, b) && dom_step(*body, rows(dom@), b, x)
                    ==> #[trigger] dom@[b]@[x],
            !changed ==> forall|b: int, x: int|
                0 < b < nb && 0 <= x < nb && has_pred(*body, b) ==> (#[trigger] dom@[b]@[x] <==> dom_step(
                    *body,
                    rows(dom@),
                    b,
                    x,
                )),
        decreases total_count(rows(dom@)) + if changed {
            1nat
        } else {
            0nat
        },
    {
        changed = false;
        let ghost dom_start = rows(dom@);
        let mut id: usize = 1;
        while id < nb
            invariant
                1 <= id,
                id <= nb || nb <= 1,
                body.wf(),
                nb == body.body@.len(),
                preds@.len() == nb,
                forall|b: int, p: BlockId| 0 <= b < nb ==> (#[trigger] preds@[b]@.contains(p) <==> is_pred(*body, p as int, b)),
                dom@.len() == nb,
                forall|b: int| 0 <= b < nb ==> (#[trigger] dom@[b])@.len() == nb,
                forall|x: int| 0 <= x < nb ==> (dom@[0]@[x] <==> x == 0),
                forall|b: int, x: int|
                    0 < b < nb && 0 <= x < nb && !has_pred(*body, b) ==> #[trigger] dom@[b]@[x],
                forall|b: int, x: int|
                    0 < b < nb && 0 <= x < nb && has_pred(*body, b) && dom_step(*body, rows(dom@), b, x)
                        ==> #[trigger] dom@[b]@[x],
                !changed ==> rows(dom@) == dom_start,
                changed ==> total_count(rows(dom@)) < total_count(dom_start),
                !changed ==> forall|b: int, x: int|
                    0 < b < id && b < nb && 0 <= x < nb && has_pred(*body, b) ==> (#[trigger] dom@[b]@[x] <==> dom_step(
                        *body,
                        rows(dom@),
                        b,
                        x,
                    )),
            decreases nb - id,
        {
            let ps = &preds[id];
            if ps.len() > 0 {
                proof {
                    assert(preds@[id as int]@.contains(ps@[0]));
                    assert(is_pred(*body, ps@[0] as int, id as int));
                    assert forall|k: int| 0 <= k < ps@.len() implies (#[trigger] ps@[k]) < nb by {
                        assert(preds@[id as int]@.contains(ps@[k]));
                    }
                }
                let new_set = step_row(&dom, ps, id, nb);
                let ghost d0 = rows(dom@);
                proof {
                    assert forall|x: int| 0 <= x < nb implies (new_set@[x] <==> dom_step(*body, d0, id as int, x)) by {
                        if (forall|k: int| 0 <= k < ps@.len() ==> dom@[ps@[k] as int]@[x]) {
                            assert forall|p: int| #[trigger] is_pred(*body, p, id as int) implies d0[p][x] by {
                                assert((p as BlockId) as int == p);
                                assert(preds@[id as int]@.contains(p as BlockId));
                                let k = choose|k: int| 0 <= k < ps@.len() && ps@[k] == p as BlockId;
                                assert(dom@[ps@[k] as int]@[x]);
                            }
                        }
                        if dom_step(*body, d0, id as int, x) && x != id {
                            assert forall|k: int| 0 <= k < ps@.len() implies dom@[ps@[k] as int]@[x] by {
                                assert(preds@[id as int]@.contains(ps@[k]));
                                assert(is_pred(*body, ps@[k] as int, id as int));
                            }
                        }
                    }
                }
                if !rows_equal(&new_set, &dom[id]) {
                    let ghost old_row = dom@[id as int]@;
                    proof {
                        assert forall|x: int| 0 <= x < nb && #[trigger] new_set@[x] implies old_row[x] by {
                            assert(dom_step(*body, d0, id as int, x));
                        }
                        assert(exists|x: int| 0 <= x < nb && !new_set@[x] && #[trigger] old_row[x]) by {
                            if !(exists|x: int| 0 <= x < nb && !new_set@[x] && #[trigger] old_row[x]) {
                                assert(new_set@ =~= old_row);
                            }
                        }
                        lemma_count_le(new_set@, old_row);
                        lemma_total_update(d0, id as int, new_set@);
                    }
                    dom.set(id, new_set);
                    changed = true;
                    proof {
                        let d1 = rows(dom@);
                        assert(d1 =~= d0.update(id as int, new_set@));
                        // the new table is below the old one, so each step only shrinks
                        assert forall|b: int, x: int|
                            0 < b < nb && 0 <= x < nb && has_pred(*body, b) && dom_step(*body, d1, b, x) implies #[trigger] dom@[b]@[x] by {
                            assert forall|p: int| #[trigger] is_pred(*body, p, b) && d1[p][x] implies d0[p][x] by {
                                if p == id {
                                    assert(dom_step(*body, d0, id as int, x));
                                }
                            }
                            assert(dom_step(*body, d0, b, x));
                        }
                        assert forall|b: int, x: int| 0 < b < nb && 0 <= x < nb && !has_pred(*body, b) implies #[trigger] dom@[b]@[x] by {
                            assert(b != id);
                            assert(d1[b] == d0[b]);
                        }
                    }
                } else {
                    proof {
                        assert forall|x: int| 0 <= x < nb implies (#[trigger] dom@[id as int]@[x] <==> dom_step(
                            *body,
                            rows(dom@),
                            id as int,
                            x,
                        )) by {
                            assert(new_set@[x] == dom@[id as int]@[x]);
                        }
                    }
                }
            } else {
                proof {
                    assert(!has_pred(*body, id as int)) by {
                        if has_pred(*body, id as int) {
                            let p = choose|p: int| #[trigger] is_pred(*body, p, id as int);
                            assert((p as BlockId) as int == p);
                            assert(preds@[id as int]@.contains(p as BlockId));
                        }
                    }
                }
            }
            id = id + 1;
        }
    }
    dom
}

// ---------------------------------------------------------------------------
// Dependence
// ---------------------------------------------------------------------------

/// The place reads a local of `s` at its base.
pub open spec fn place_uses(p: Place, s: Set<LocalId>) -> bool {
    match base_local(p) {
        Some(l) => s.contains(l),
        None => false,
    }
}

/// The operand reads a local of `s`.
pub open spec fn operand_uses(o: Operand, s: Set<LocalId>) -> bool {
    match o {
        Operand::Copy(p) | Operand::Move(p) => place_uses(p, s),
        Operand::Const(_) => false,
    }
}

/// The rvalue reads a local of `s`.
pub open spec fn rvalue_uses(rv: Rvalue, s: Set<LocalId>) -> bool {
    match rv {
        Rvalue::Use(o) | Rvalue::UnaryOp(o) | Rvalue::Repeat(o) | Rvalue::ShallowInitBox(o) => operand_uses(o, s),
        Rvalue::Ref(p) | Rvalue::RawPtr(p) | Rvalue::Discriminant(p) | Rvalue::Len(p) => place_uses(p, s),
        Rvalue::BinaryOp(a, b) => operand_uses(a, s) || operand_uses(b, s),
        Rvalue::Aggregate(ops) => exists|i: int| 0 <= i < ops@.len() && operand_uses(#[trigger] ops@[i], s),
        Rvalue::NullaryOp => false,
    }
}

fn place_uses_local(place: &Place, locals: &Vec<LocalId>) -> (r: bool)
    ensures
        r == place_uses(*place, locals@.to_set()),
{
    match place.local_id() {
        Some(l) => crate::seqs::vec_contains(locals, l),
        None => false,
    }
}

fn operand_uses_local(op: &Operand, locals: &Vec<LocalId>) -> (r: bool)
    ensures
        r == operand_uses(*op, locals@.to_set()),
{
    match op {
        Operand::Copy(place) | Operand::Move(place) => place_uses_local(place, locals),
        Operand::Const(_) => false,
    }
}

fn operands_use_local(ops: &Vec<Operand>, locals: &Vec<LocalId>) -> (r: bool)
    ensures
        r == exists|i: int| 0 <= i < ops@.len() && operand_uses(#[trigger] ops@[i], locals@.to_set()),
{
    let mut i: usize = 0;
    while i < ops.len()
        invariant
            i <= ops@.len(),
            forall|k: int| 0 <= k < i ==> !operand_uses(#[trigger] ops@[k], locals@.to_set()),
        decreases ops@.len() - i,
    {
        if operand_uses_local(&ops[i], locals) {
            assert(operand_uses(ops@[i as int], locals@.to_set()));
            return true;
        }
        i = i + 1;
    }
    false
}

fn rvalue_uses_local(rvalue: &Rvalue, locals: &Vec<LocalId>) -> (r: bool)
    ensures
        r == rvalue_uses(*rvalue, locals@.to_set()),
{
    match rvalue {
        Rvalue::Use(op) => operand_uses_local(op, locals),
        Rvalue::Ref(place) => place_uses_local(place, locals),
        Rvalue::BinaryOp(op1, op2) => operand_uses_local(op1, locals) || operand_uses_local(op2, locals),
        Rvalue::UnaryOp(op) => operand_uses_local(op, locals),
        Rvalue::Aggregate(ops) => operands_use_local(ops, locals),
        Rvalue::Discriminant(place) => place_uses_local(place, locals),
        Rvalue::Len(place) => place_uses_local(place, locals),
        Rvalue::NullaryOp => false,
        Rvalue::RawPtr(place) => place_uses_local(place, locals),
        Rvalue::Repeat(op) => operand_uses_local(op, locals),
        Rvalue::ShallowInitBox(op) => operand_uses_local(op, locals),
    }
}

/// `loc` comes after `after`: later in the same block, or in another block.
pub open spec fn is_after_spec(loc: Location, after: Location) -> bool {
    if loc.block == after.block {
        loc.statement_index > after.statement_index
    } else {
        true
    }
}

/// Whether `loc` comes after `after`: later in the same block, or in
/// another block, where the dominance check decides.
pub fn is_after(loc: Location, after: Location) -> (r: bool)
    ensures
        r == is_after_spec(loc, after),
{
    if loc.block == after.block {
        loc.statement_index > after.statement_index
    } else {
        true
    }
}

/// Statement `i` of block `b` comes after `read_loc` and assigns, from a
/// value that reads a local of `s`, a place based on local `l`.
pub open spec fn derives(body: ExprBody, read_loc: Location, s: Set<LocalId>, b: int, i: int, l: LocalId) -> bool {
    &&& 0 <= b < body.body@.len()
    &&& 0 <= i < body.body@[b].statements@.len()
    &&& is_after_spec(Location { block: b as usize, statement_index: i as usize }, read_loc)
    &&& match body.body@[b].statements@[i].kind {
        StatementKind::Assign(dest, rv) => base_local(dest) == Some(l) && rvalue_uses(rv, s),
        _ => false,
    }
}

/// `s` holds every local assigned after `read_loc` from a value that reads `s`.
pub open spec fn dep_closed(body: ExprBody, read_loc: Location, s: Set<LocalId>) -> bool {
    forall|b: int, i: int, l: LocalId| #[trigger] derives(body, read_loc, s, b, i, l) ==> s.contains(l)
}

/// The locals that derive from `read_local`: those in every closed set that holds it.
pub open spec fn dep_set(body: ExprBody, read_local: LocalId, read_loc: Location) -> Set<LocalId> {
    Set::new(
        |x: LocalId|
            forall|s: Set<LocalId>| #[trigger] dep_closed(body, read_loc, s) && s.contains(read_local) ==> s.contains(x),
    )
}

/// The locals that the statements of `ss` assign to.
pub open spec fn stmts_dests(ss: Seq<crate::lockbud::ullbc::Statement>) -> Seq<LocalId>
    decreases ss.len(),
{
    if ss.len() == 0 {
        Seq::empty()
    } else {
        match ss.last().kind {
            StatementKind::Assign(dest, _) => match base_local(dest) {
                Some(l) => stmts_dests(ss.drop_last()).push(l),
                None => stmts_dests(ss.drop_last()),
            },
            _ => stmts_dests(ss.drop_last()),
        }
    }
}

/// The locals that the statements of the blocks `bs` assign to.
pub open spec fn blocks_dests(bs: Seq<BlockData>) -> Seq<LocalId>
    decreases bs.len(),
{
    if bs.len() == 0 {
        Seq::empty()
    } else {
        blocks_dests(bs.drop_last()) + stmts_dests(bs.last().statements@)
    }
}

proof fn lemma_stmt_dest_in(ss: Seq<crate::lockbud::ullbc::Statement>, i: int, l: LocalId)
    requires
        0 <= i < ss.len(),
        match ss[i].kind {
            StatementKind::Assign(dest, _) => base_local(dest) == Some(l),
            _ => false,
        },
    ensures
        stmts_dests(ss).contains(l),
    decreases ss.len(),
{
    if i < ss.len() - 1 {
        lemma_stmt_dest_in(ss.drop_last(), i, l);
        assert(ss.drop_last()[i] == ss[i]);
    } else {
        assert(ss.last() == ss[i]);
    }
}

pub proof fn lemma_block_dest_in(bs: Seq<BlockData>, b: int, i: int, l: LocalId)
    requires
        0 <= b < bs.len(),
        0 <= i < bs[b].statements@.len(),
        match bs[b].statements@[i].kind {
            StatementKind::Assign(dest, _) => base_local(dest) == Some(l),
            _ => false,
        },
    ensures
        blocks_dests(bs).contains(l),
    decreases bs.len(),
{
    if b < bs.len() - 1 {
        lemma_block_dest_in(bs.drop_last(), b, i, l);
        assert(bs.drop_last()[b] == bs[b]);
        let k = choose|k: int| 0 <= k < blocks_dests(bs.drop_last()).len() && blocks_dests(bs.drop_last())[k] == l;
        assert(blocks_dests(bs)[k] == l);
    } else {
        assert(bs.last() == bs[b]);
        lemma_stmt_dest_in(bs[b].statements@, i, l);
        let d = blocks_dests(bs.drop_last());
        let k = choose|k: int| 0 <= k < stmts_dests(bs[b].statements@).len() && stmts_dests(bs[b].statements@)[k] == l;
        assert(blocks_dests(bs)[d.len() + k] == l);
    }
}

/// The locals that derive from `read_local` after `read_loc`, grown until no
/// assignment after the read adds one.
fn dependent_locals(read_local: LocalId, read_loc: Location, body: &ExprBody) -> (r: Vec<LocalId>)
    ensures
        r@.to_set() == dep_set(*body, read_local, read_loc),
{
    let mut set: Vec<LocalId> = Vec::new();
    set.push(read_local);
    let ghost u = blocks_dests(body.body@).push(read_local);
    let mut changed = true;
    while changed
        invariant
            set@.no_duplicates(),
            set@.contains(read_local),
            u == blocks_dests(body.body@).push(read_local),
            forall|x: LocalId| #[trigger] set@.contains(x) ==> u.contains(x),
            forall|s: Set<LocalId>|
                #[trigger] dep_closed(*body, read_loc, s) && s.contains(read_local) ==> set@.to_set().subset_of(s),
            !changed ==> dep_closed(*body, read_loc, set@.to_set()),
        decreases u.len() - set@.len() + if changed {
            1int
        } else {
            0int
        },
    {
        proof {
            crate::seqs::lemma_nodup_subset_len(set@, u);
        }
        changed = false;
        let ghost start = set@;
        let mut b: usize = 0;
        while b < body.body.len()
            invariant
                b <= body.body@.len(),
                set@.no_duplicates(),
                set@.contains(read_local),
                u == blocks_dests(body.body@).push(read_local),
                forall|x: LocalId| #[trigger] set@.contains(x) ==> u.contains(x),
                forall|s: Set<LocalId>|
                    #[trigger] dep_closed(*body, read_loc, s) && s.contains(read_local) ==> set@.to_set().subset_of(s),
                !changed ==> set@ == start,
                changed ==> set@.len() > start.len(),
                !changed ==> forall|bb: int, i: int, l: LocalId|
                    bb < b && #[trigger] derives(*body, read_loc, set@.to_set(), bb, i, l) ==> set@.contains(l),
            decreases body.body@.len() - b,
        {
            let block = &body.body[b];
            let mut i: usize = 0;
            while i < block.statements.len()
                invariant
                    b < body.body@.len(),
                    *block == body.body@[b as int],
                    i <= block.statements@.len(),
                    set@.no_duplicates(),
                    set@.contains(read_local),
                    u == blocks_dests(body.body@).push(read_local),
                    forall|x: LocalId| #[trigger] set@.contains(x) ==> u.contains(x),
                    forall|s: Set<LocalId>|
                        #[trigger] dep_closed(*body, read_loc, s) && s.contains(read_local) ==> set@.to_set().subset_of(s),
                    !changed ==> set@ == start,
                    changed ==> set@.len() > start.len(),
                    !changed ==> forall|bb: int, ii: int, l: LocalId|
                        (bb < b || (bb == b && ii < i)) && #[trigger] derives(*body, read_loc, set@.to_set(), bb, ii, l)
                            ==> set@.contains(l),
                decreases block.statements@.len() - i,
            {
                let after = is_after(Location::new(b, i), read_loc);
                if after {
                    match &block.statements[i].kind {
                        StatementKind::Assign(dest, rvalue) => {
                            match dest.local_id() {
                                Some(dest_local) => {
                                    if !crate::seqs::vec_contains(&set, dest_local) && rvalue_uses_local(rvalue, &set) {
                                        let ghost before = set@;
                                        proof {
                                            crate::seqs::lemma_push_nodup(before, dest_local);
                                            lemma_block_dest_in(body.body@, b as int, i as int, dest_local);
                                            assert forall|s: Set<LocalId>|
                                                #[trigger] dep_closed(*body, read_loc, s) && s.contains(read_local) implies before.push(
                                                    dest_local,
                                                ).to_set().subset_of(s) by {
                                                assert(before.to_set().subset_of(s));
                                                // the assignment reads a local of `s`, so `s` holds its destination
                                                match body.body@[b as int].statements@[i as int].kind {
                                                    StatementKind::Assign(_, rv) => {
                                                        lemma_rvalue_uses_mono(rv, before.to_set(), s);
                                                    },
                                                    _ => {},
                                                }
                                                assert(derives(*body, read_loc, s, b as int, i as int, dest_local));
                                            }
                                        }
                                        set.push(dest_local);
                                        changed = true;
                                    }
                                },
                                None => {},
                            }
                        },
                        _ => {},
                    }
                }
                i = i + 1;
            }
            b = b + 1;
        }
        proof {
            crate::seqs::lemma_nodup_subset_len(set@, u);
        }
    }
    proof {
        assert(set@.to_set() =~= dep_set(*body, read_local, read_loc)) by {
            assert forall|x: LocalId| #[trigger] set@.to_set().contains(x) implies dep_set(*body, read_local, read_loc).contains(x) by {
                assert forall|s: Set<LocalId>| #[trigger] dep_closed(*body, read_loc, s) && s.contains(read_local) implies s.contains(x) by {
                    assert(set@.to_set().subset_of(s));
                }
            }
            assert forall|x: LocalId| dep_set(*body, read_local, read_loc).contains(x) implies #[trigger] set@.to_set().contains(x) by {
                assert(dep_closed(*body, read_loc, set@.to_set()));
                assert(set@.to_set().contains(read_local));
            }
        }
    }
    set
}

/// Reading a local of a smaller set reads one of a larger set.
proof fn lemma_rvalue_uses_mono(rv: Rvalue, s1: Set<LocalId>, s2: Set<LocalId>)
    requires
        s1.subset_of(s2),
        rvalue_uses(rv, s1),
    ensures
        rvalue_uses(rv, s2),
{
    match rv {
        Rvalue::Aggregate(ops) => {
            let i = choose|i: int| 0 <= i < ops@.len() && operand_uses(#[trigger] ops@[i], s1);
            assert(operand_uses(ops@[i], s2));
        },
        _ => {},
    }
}

/// Block `target` is control dependent on block `branch`: `branch` dominates
/// it, differs from it, and branches.
pub open spec fn control_dep_spec(body: ExprBody, dom: Seq<Seq<bool>>, target: int, branch: int) -> bool {
    &&& target != branch
    &&& 0 <= target < dom.len()
    &&& 0 <= branch < dom[target].len()
    &&& dom[target][branch]
    &&& successors(body.body@[branch].terminator.kind).len() > 1
}

/// Whether block `target_block` is control dependent on `branch_block`.
fn is_control_dependent(target_block: BlockId, branch_block: BlockId, body: &ExprBody, dominance: &Vec<Vec<bool>>) -> (r: bool)
    requires
        branch_block < body.body@.len(),
    ensures
        r == control_dep_spec(*body, rows(dominance@), target_block as int, branch_block as int),
{
    if target_block == branch_block {
        return false;
    }
    if target_block >= dominance.len() || branch_block >= dominance[target_block].len() {
        return false;
    }
    if !dominance[target_block][branch_block] {
        return false;
    }
    let succs = terminator_successors(&body.body[branch_block].terminator.kind);
    succs.len() > 1
}

/// Location `mid` lies between `start` and `end`: `start` dominates it, or it dominates `end`.
pub open spec fn between_spec(dom: Seq<Seq<bool>>, mid: Location, start: Location, end: Location) -> bool {
    ||| (mid.block < dom.len() && start.block < dom[mid.block as int].len() && dom[mid.block as int][start.block as int])
    ||| (end.block < dom.len() && mid.block < dom[end.block as int].len() && dom[end.block as int][mid.block as int])
}

fn is_between(mid: Location, start: Location, end: Location, dominance: &Vec<Vec<bool>>) -> (r: bool)
    ensures
        r == between_spec(rows(dominance@), mid, start, end),
{
    let start_dominates_mid = mid.block < dominance.len() && start.block < dominance[mid.block].len()
        && dominance[mid.block][start.block];
    let mid_dominates_end = end.block < dominance.len() && mid.block < dominance[end.block].len()
        && dominance[end.block][mid.block];
    start_dominates_mid || mid_dominates_end
}

/// The dependence of a store on a load whose result is `read_local`: data
/// where the stored value reads a local derived from it, control where a
/// switch on such a local decides whether the store's block runs.
pub open spec fn dependence_spec(
    body: ExprBody,
    dom: Seq<Seq<bool>>,
    read_local: LocalId,
    read_loc: Location,
    write_loc: Location,
    write_value: Option<Operand>,
) -> Option<DependenceKind> {
    let s = dep_set(body, read_local, read_loc);
    let data = match write_value {
        Some(op) => operand_uses(op, s),
        None => false,
    };
    let control = exists|bb: int|
        0 <= bb < body.body@.len() && #[trigger] switch_on(body.body@[bb].terminator.kind, s) && control_dep_spec(
            body,
            dom,
            write_loc.block as int,
            bb,
        );
    if data && control {
        Some(DependenceKind::Both)
    } else if data {
        Some(DependenceKind::Data)
    } else if control {
        Some(DependenceKind::Control)
    } else {
        None
    }
}

/// The terminator switches on a local of `s`.
pub open spec fn switch_on(k: TerminatorKind, s: Set<LocalId>) -> bool {
    match k {
        TerminatorKind::Switch { discr, .. } => operand_uses(discr, s),
        _ => false,
    }
}

/// Where each local is assigned: by a statement, or as the destination of a call.
pub open spec fn defines(body: ExprBody, l: LocalId, loc: Location) -> bool {
    &&& loc.block < body.body@.len()
    &&& if loc.statement_index < body.body@[loc.block as int].statements@.len() {
        match body.body@[loc.block as int].statements@[loc.statement_index as int].kind {
            StatementKind::Assign(dest, _) => base_local(dest) == Some(l),
            _ => false,
        }
    } else if loc.statement_index == body.body@[loc.block as int].statements@.len() {
        match body.body@[loc.block as int].terminator.kind {
            TerminatorKind::Call { call, .. } => base_local(call.dest) == Some(l),
            _ => false,
        }
    } else {
        false
    }
}

/// Each local with each location that assigns it.
pub fn build_def_use(body: &ExprBody) -> (r: Vec<(LocalId, Location)>)
    ensures
        forall|l: LocalId, loc: Location| #[trigger] r@.contains((l, loc)) <==> defines(*body, l, loc),
{
    let mut defs: Vec<(LocalId, Location)> = Vec::new();
    let mut b: usize = 0;
    while b < body.body.len()
        invariant
            b <= body.body@.len(),
            forall|l: LocalId, loc: Location| #[trigger] defs@.contains((l, loc)) <==> (loc.block < b && defines(*body, l, loc)),
        decreases body.body@.len() - b,
    {
        let block = &body.body[b];
        let mut i: usize = 0;
        while i < block.statements.len()
            invariant
                b < body.body@.len(),
                *block == body.body@[b as int],
                i <= block.statements@.len(),
                forall|l: LocalId, loc: Location| #[trigger] defs@.contains((l, loc)) <==> ((loc.block < b || (loc.block == b
                    && loc.statement_index < i)) && defines(*body, l, loc)),
            decreases block.statements@.len() - i,
        {
            match &block.statements[i].kind {
                StatementKind::Assign(dest, _) => match dest.local_id() {
                    Some(l) => {
                        defs.push((l, Location::new(b, i)));
                    },
                    None => {},
                },
                _ => {},
            }
            i = i + 1;
        }
        match &block.terminator.kind {
            TerminatorKind::Call { call, .. } => match call.dest.local_id() {
                Some(l) => {
                    defs.push((l, Location::new(b, block.statements.len())));
                },
                None => {},
            },
            _ => {},
        }
        b = b + 1;
    }
    defs
}

/// The dependence of the store at `write_loc`, writing `write_value`, on
/// the load at `read_loc` whose result is `read_local`.
fn compute_dependence(
    read_local: LocalId,
    read_loc: Location,
    write_loc: Location,
    write_value: Option<&Operand>,
    body: &ExprBody,
    def_use: &Vec<(LocalId, Location)>,
    dominance: &Vec<Vec<bool>>,
) -> (r: Option<DependenceKind>)
    ensures
        r == dependence_spec(
            *body,
            rows(dominance@),
            read_local,
            read_loc,
            write_loc,
            match write_value {
                Some(op) => Some(*op),
                None => None,
            },
        ),
{
    let data_dep_locals = dependent_locals(read_local, read_loc, body);
    let ghost s = dep_set(*body, read_local, read_loc);
    let is_data_dep = match write_value {
        Some(op) => operand_uses_local(op, &data_dep_locals),
        None => false,
    };
    let mut is_control_dep = false;
    let mut bb: usize = 0;
    while bb < body.body.len() && !is_control_dep
        invariant
            bb <= body.body@.len(),
            data_dep_locals@.to_set() == s,
            !is_control_dep ==> forall|k: int|
                0 <= k < bb ==> !(#[trigger] switch_on(body.body@[k].terminator.kind, s) && control_dep_spec(
                    *body,
                    rows(dominance@),
                    write_loc.block as int,
                    k,
                )),
            is_control_dep ==> exists|k: int|
                0 <= k < body.body@.len() && #[trigger] switch_on(body.body@[k].terminator.kind, s) && control_dep_spec(
                    *body,
                    rows(dominance@),
                    write_loc.block as int,
                    k,
                ),
        decreases body.body@.len() - bb,
    {
        match &body.body[bb].terminator.kind {
            TerminatorKind::Switch { discr, .. } => {
                if operand_uses_local(discr, &data_dep_locals) {
                    if is_control_dependent(write_loc.block, bb, body, dominance) {
                        is_control_dep = true;
                        assert(switch_on(body.body@[bb as int].terminator.kind, s));
                    }
                }
            },
            _ => {},
        }
        bb = bb + 1;
    }
    if is_data_dep && is_control_dep {
        Some(DependenceKind::Both)
    } else if is_data_dep {
        Some(DependenceKind::Data)
    } else if is_control_dep {
        Some(DependenceKind::Control)
    } else {
        None
    }
}

/// The span of a location: its statement's, or the terminator's.
pub open spec fn loc_span(body: ExprBody, loc: Location) -> Span {
    if loc.statement_index < body.body@[loc.block as int].statements@.len() {
        body.body@[loc.block as int].statements@[loc.statement_index as int].span
    } else {
        body.body@[loc.block as int].terminator.span
    }
}

pub fn span_for_loc(body: &ExprBody, loc: Location) -> (r: Span)
    requires
        loc.block < body.body@.len(),
    ensures
        r == loc_span(*body, loc),
{
    let block = &body.body[loc.block];
    if loc.statement_index < block.statements.len() {
        block.statements[loc.statement_index].span
    } else {
        block.terminator.span
    }
}

/// Both receivers are known and the same place.
fn same_receiver(a: &Option<Place>, b: &Option<Place>) -> (r: bool)
    ensures
        r == same_receiver_spec(*a, *b),
{
    match (a, b) {
        (Some(a), Some(b)) => place_eq(a, b),
        _ => false,
    }
}

/// The name of a dependence kind.
pub open spec fn dep_kind_text(k: DependenceKind) -> Seq<char> {
    match k {
        DependenceKind::Control => "Control"@,
        DependenceKind::Data => "Data"@,
        DependenceKind::Both => "Both"@,
    }
}

fn dep_kind_string(k: DependenceKind) -> (r: String)
    ensures
        r@ == dep_kind_text(k),
{
    let mut s = String::new();
    match k {
        DependenceKind::Control => s.append("Control"),
        DependenceKind::Data => s.append("Data"),
        DependenceKind::Both => s.append("Both"),
    }
    assert(s@ =~= dep_kind_text(k));
    s
}

pub fn text(s: &str) -> (r: String)
    ensures
        r@ == s@,
{
    let mut out = String::new();
    out.append(s);
    assert(out@ =~= s@);
    out
}

/// A report of an atomicity violation.
pub open spec fn is_atomicity_report(r: Report) -> bool {
    &&& r is AtomicityViolation
    &&& r->AtomicityViolation_0.bug_kind@ == "AtomicityViolation"@
    &&& r->AtomicityViolation_0.possibility@ == "Possibly"@
    &&& {
        let k = r->AtomicityViolation_0.diagnosis.dep_kind@;
        k == "Control"@ || k == "Data"@ || k == "Both"@ || k == "InterProc"@
    }
}

/// The printed name of function `f`, or an empty text where it is not declared.
pub open spec fn name_or_empty(krate: TranslatedCrate, f: FunDeclId) -> Seq<char> {
    match fun_name(krate, f as int) {
        Some(n) => n,
        None => Seq::empty(),
    }
}

/// The printed span of `loc` in function `f`'s body, or an empty text where it has none.
pub open spec fn span_or_empty(krate: TranslatedCrate, f: FunDeclId, loc: Location) -> Seq<char> {
    match krate.body_of(f as int) {
        Some(body) => span_text(loc_span(body, loc)),
        None => Seq::empty(),
    }
}

/// Both receivers are known and the same place.
pub open spec fn same_receiver_spec(a: Option<Place>, b: Option<Place>) -> bool {
    a is Some && b is Some && same_place(a->0, b->0)
}

/// `r` reports the load `rd` and the store `wr` of function `f` on the same
/// object, where the store depends on the load by data or control.
pub open spec fn describes_intra(krate: TranslatedCrate, f: FunDeclId, rd: AtomicCallSite, wr: AtomicCallSite, r: Report) -> bool {
    let d = r->AtomicityViolation_0.diagnosis;
    &&& is_atomicity_report(r)
    &&& rd.api == AtomicApi::Read
    &&& wr.api == AtomicApi::Write
    &&& same_receiver_spec(rd.receiver, wr.receiver)
    &&& rd.dest is Some
    &&& krate.body_of(f as int) is Some
    &&& exists|dom: Seq<Seq<bool>>|
        #[trigger] is_dominance(krate.body_of(f as int)->0, dom) && {
            let dep = dependence_spec(krate.body_of(f as int)->0, dom, rd.dest->0, rd.loc, wr.loc, wr.value_op);
            dep is Some && d.dep_kind@ == dep_kind_text(dep->0)
        }
    &&& d.fn_name@ == name_or_empty(krate, f)
    &&& d.atomic_reader@ == span_or_empty(krate, f, rd.loc)
    &&& d.atomic_writer@ == span_or_empty(krate, f, wr.loc)
}

/// `r` reports the load `rd` in function `f1` and the store `wr` in another
/// function `f2` on the same object, where one function reaches the other
/// by calls or some function reaches both.
pub open spec fn describes_inter(
    krate: TranslatedCrate,
    cg: CallGraph,
    f1: FunDeclId,
    rd: AtomicCallSite,
    f2: FunDeclId,
    wr: AtomicCallSite,
    r: Report,
) -> bool {
    let d = r->AtomicityViolation_0.diagnosis;
    &&& is_atomicity_report(r)
    &&& rd.api == AtomicApi::Read
    &&& wr.api == AtomicApi::Write
    &&& f1 != f2
    &&& same_receiver_spec(rd.receiver, wr.receiver)
    &&& (reaches(cg.edge_set(), f1, f2) || reaches(cg.edge_set(), f2, f1) || exists|n: FunDeclId|
        reaches(cg.edge_set(), n, f1) && reaches(cg.edge_set(), n, f2))
    &&& d.fn_name@ == name_or_empty(krate, f1) + " -> "@ + name_or_empty(krate, f2)
    &&& d.atomic_reader@ == span_or_empty(krate, f1, rd.loc)
    &&& d.atomic_writer@ == span_or_empty(krate, f2, wr.loc)
    &&& d.dep_kind@ == "InterProc"@
}

/// Function `f` has the atomic call `c` among its sites.
pub open spec fn has_site(sites: Seq<(FunDeclId, Vec<AtomicCallSite>)>, f: FunDeclId, c: AtomicCallSite) -> bool {
    exists|e: int, k: int| 0 <= e < sites.len() && 0 <= k < sites[e].1@.len() && sites[e].0 == f && #[trigger] sites[e].1@[k] == c
}

/// `r` reports a pair of atomic calls of the sites.
pub open spec fn describes_pair(
    krate: TranslatedCrate,
    cg: CallGraph,
    sites: Seq<(FunDeclId, Vec<AtomicCallSite>)>,
    f1: FunDeclId,
    rd: AtomicCallSite,
    f2: FunDeclId,
    wr: AtomicCallSite,
    r: Report,
) -> bool {
    &&& has_site(sites, f1, rd)
    &&& has_site(sites, f2, wr)
    &&& ((f1 == f2 && describes_intra(krate, f1, rd, wr, r)) || describes_inter(krate, cg, f1, rd, f2, wr, r))
}

/// `r` is an atomicity report justified by a pair of atomic calls of the sites.
pub open spec fn justified_atomicity(
    krate: TranslatedCrate,
    cg: CallGraph,
    sites: Seq<(FunDeclId, Vec<AtomicCallSite>)>,
    r: Report,
) -> bool {
    exists|f1: FunDeclId, rd: AtomicCallSite, f2: FunDeclId, wr: AtomicCallSite|
        #[trigger] describes_pair(krate, cg, sites, f1, rd, f2, wr, r)
}

pub fn fun_name_or_empty(krate: &TranslatedCrate, f: FunDeclId) -> (r: String)
    ensures
        r@ == name_or_empty(*krate, f),
{
    if f < krate.fun_decls.len() {
        match &krate.fun_decls[f] {
            Some(d) => return format_name(&d.name),
            None => {},
        }
    }
    let r = String::new();
    assert(r@ =~= Seq::<char>::empty());
    r
}

/// The printed span of `loc` in function `f`'s body, or an empty text where it has none.
fn fun_span_or_empty(krate: &TranslatedCrate, f: FunDeclId, loc: Location) -> (r: String)
    requires
        match krate.body_of(f as int) {
            Some(body) => loc.block < body.body@.len(),
            None => true,
        },
    ensures
        r@ == span_or_empty(*krate, f, loc),
{
    if f < krate.fun_decls.len() {
        match &krate.fun_decls[f] {
            Some(d) => match &d.body {
                Some(body) => return format_span(&span_for_loc(body, loc)),
                None => {},
            },
            None => {},
        }
    }
    let r = String::new();
    assert(r@ =~= Seq::<char>::empty());
    r
}

/// Whether the pair was reported already.
fn pair_reported(pairs: &Vec<((FunDeclId, Location), (FunDeclId, Location))>, p: &((FunDeclId, Location), (FunDeclId, Location))) -> (r: bool)
    ensures
        r == pairs@.contains(*p),
{
    let mut i: usize = 0;
    while i < pairs.len()
        invariant
            i <= pairs@.len(),
            forall|k: int| 0 <= k < i ==> pairs@[k] != *p,
        decreases pairs@.len() - i,
    {
        let q = pairs[i];
        if q.0.0 == p.0.0 && q.0.1 == p.0.1 && q.1.0 == p.1.0 && q.1.1 == p.1.1 {
            assert(pairs@[i as int] == *p);
            return true;
        }
        i = i + 1;
    }
    false
}

/// The report of the load `read` and the store `write` of function `f`,
/// where the store depends on the load by `dep`.
fn intra_report(
    krate: &TranslatedCrate,
    f: FunDeclId,
    body: &ExprBody,
    read: &AtomicCallSite,
    write: &AtomicCallSite,
    dep: DependenceKind,
) -> (r: Report)
    requires
        krate.body_of(f as int) == Some(*body),
        read.loc.block < body.body@.len(),
        write.loc.block < body.body@.len(),
    ensures
        is_atomicity_report(r),
        r->AtomicityViolation_0.diagnosis.fn_name@ == name_or_empty(*krate, f),
        r->AtomicityViolation_0.diagnosis.atomic_reader@ == span_or_empty(*krate, f, read.loc),
        r->AtomicityViolation_0.diagnosis.atomic_writer@ == span_or_empty(*krate, f, write.loc),
        r->AtomicityViolation_0.diagnosis.dep_kind@ == dep_kind_text(dep),
{
    let diagnosis = AtomicityViolationDiagnosis {
        fn_name: fun_name_or_empty(krate, f),
        atomic_reader: fun_span_or_empty(krate, f, read.loc),
        atomic_writer: fun_span_or_empty(krate, f, write.loc),
        dep_kind: dep_kind_string(dep),
    };
    Report::AtomicityViolation(
        ReportContent::new(
            text("AtomicityViolation"),
            text("Possibly"),
            diagnosis,
            text("atomic::store is data/control dependent on atomic::load"),
        ),
    )
}

/// The report of the load `read` in function `f1` and the store `write` in
/// function `f2`.
fn inter_report(
    krate: &TranslatedCrate,
    f1: FunDeclId,
    read: &AtomicCallSite,
    f2: FunDeclId,
    write: &AtomicCallSite,
) -> (r: Report)
    requires
        match krate.body_of(f1 as int) {
            Some(body) => read.loc.block < body.body@.len(),
            None => true,
        },
        match krate.body_of(f2 as int) {
            Some(body) => write.loc.block < body.body@.len(),
            None => true,
        },
    ensures
        is_atomicity_report(r),
        r->AtomicityViolation_0.diagnosis.fn_name@ == name_or_empty(*krate, f1) + " -> "@ + name_or_empty(*krate, f2),
        r->AtomicityViolation_0.diagnosis.atomic_reader@ == span_or_empty(*krate, f1, read.loc),
        r->AtomicityViolation_0.diagnosis.atomic_writer@ == span_or_empty(*krate, f2, write.loc),
        r->AtomicityViolation_0.diagnosis.dep_kind@ == "InterProc"@,
{
    let mut fn_name = fun_name_or_empty(krate, f1);
    fn_name.append(" -> ");
    let write_name = fun_name_or_empty(krate, f2);
    fn_name.append(write_name.as_str());
    let diagnosis = AtomicityViolationDiagnosis {
        fn_name,
        atomic_reader: fun_span_or_empty(krate, f1, read.loc),
        atomic_writer: fun_span_or_empty(krate, f2, write.loc),
        dep_kind: text("InterProc"),
    };
    Report::AtomicityViolation(
        ReportContent::new(
            text("AtomicityViolation"),
            text("Possibly"),
            diagnosis,
            text("atomic::store in callee is reachable from atomic::load in caller"),
        ),
    )
}

/// A report describing a pair of the sites is justified.
proof fn lemma_justified(
    krate: TranslatedCrate,
    cg: CallGraph,
    sites: Seq<(FunDeclId, Vec<AtomicCallSite>)>,
    e1: int,
    k1: int,
    e2: int,
    k2: int,
    r: Report,
)
    requires
        0 <= e1 < sites.len(),
        0 <= k1 < sites[e1].1@.len(),
        0 <= e2 < sites.len(),
        0 <= k2 < sites[e2].1@.len(),
        (sites[e1].0 == sites[e2].0 && describes_intra(krate, sites[e1].0, sites[e1].1@[k1], sites[e2].1@[k2], r))
            || describes_inter(krate, cg, sites[e1].0, sites[e1].1@[k1], sites[e2].0, sites[e2].1@[k2], r),
    ensures
        justified_atomicity(krate, cg, sites, r),
{
    assert(has_site(sites, sites[e1].0, sites[e1].1@[k1]));
    assert(has_site(sites, sites[e2].0, sites[e2].1@[k2]));
    assert(describes_pair(krate, cg, sites, sites[e1].0, sites[e1].1@[k1], sites[e2].0, sites[e2].1@[k2], r));
}

/// Functions `f1` and `f2` are connected by calls: one reaches the other, or
/// some function reaches both.
pub open spec fn connected(cg: CallGraph, f1: FunDeclId, f2: FunDeclId) -> bool {
    reaches(cg.edge_set(), f1, f2) || reaches(cg.edge_set(), f2, f1) || exists|n: FunDeclId|
        reaches(cg.edge_set(), n, f1) && reaches(cg.edge_set(), n, f2)
}

/// Read-modify-write `k` of the sites of entry `e` is on the object of `rd`
/// and lies between `rd` and `wr` by the dominance `dom`.
pub open spec fn intra_interlock(
    sites: Seq<(FunDeclId, Vec<AtomicCallSite>)>,
    e: int,
    k: int,
    rd: AtomicCallSite,
    wr: AtomicCallSite,
    dom: Seq<Seq<bool>>,
) -> bool {
    let rw = sites[e].1@[k];
    &&& 0 <= k < sites[e].1@.len()
    &&& rw.api == AtomicApi::ReadWrite
    &&& same_receiver_spec(rw.receiver, rd.receiver)
    &&& between_spec(dom, rw.loc, rd.loc, wr.loc)
}

/// Load `ri` and store `wi` of entry `e` are a violation within its function,
/// whatever dominance of the body is taken: the store depends on the load, on
/// the same object, and no read-modify-write on it lies between them.
pub open spec fn intra_violation(krate: TranslatedCrate, sites: Seq<(FunDeclId, Vec<AtomicCallSite>)>, e: int, ri: int, wi: int) -> bool {
    let f = sites[e].0;
    let rd = sites[e].1@[ri];
    let wr = sites[e].1@[wi];
    &&& 0 <= e < sites.len()
    &&& 0 <= ri < sites[e].1@.len()
    &&& 0 <= wi < sites[e].1@.len()
    &&& krate.body_of(f as int) is Some
    &&& rd.api == AtomicApi::Read
    &&& wr.api == AtomicApi::Write
    &&& same_receiver_spec(rd.receiver, wr.receiver)
    &&& rd.dest is Some
    &&& forall|dom: Seq<Seq<bool>>|
        #[trigger] is_dominance(krate.body_of(f as int)->0, dom) ==> dependence_spec(
            krate.body_of(f as int)->0,
            dom,
            rd.dest->0,
            rd.loc,
            wr.loc,
            wr.value_op,
        ) is Some && !exists|k: int| #[trigger] intra_interlock(sites, e, k, rd, wr, dom)
}

/// Read-modify-write `k3` of entry `e3` is on the object of `rd` in a
/// function connected by calls to `f1` or `f2`.
pub open spec fn inter_interlock(
    cg: CallGraph,
    sites: Seq<(FunDeclId, Vec<AtomicCallSite>)>,
    rd: AtomicCallSite,
    f1: FunDeclId,
    f2: FunDeclId,
    e3: int,
    k3: int,
) -> bool {
    let rw = sites[e3].1@[k3];
    let f3 = sites[e3].0;
    &&& 0 <= e3 < sites.len()
    &&& 0 <= k3 < sites[e3].1@.len()
    &&& rw.api == AtomicApi::ReadWrite
    &&& same_receiver_spec(rw.receiver, rd.receiver)
    &&& (reaches(cg.edge_set(), f1, f3) || reaches(cg.edge_set(), f2, f3) || reaches(cg.edge_set(), f3, f1)
        || reaches(cg.edge_set(), f3, f2))
}

/// Load `k1` of entry `e1` and store `k2` of entry `e2` are a violation across
/// functions: other functions connected by calls, the same object, and no
/// read-modify-write on it in a function connected to either.
pub open spec fn inter_violation(
    cg: CallGraph,
    sites: Seq<(FunDeclId, Vec<AtomicCallSite>)>,
    e1: int,
    k1: int,
    e2: int,
    k2: int,
) -> bool {
    let f1 = sites[e1].0;
    let f2 = sites[e2].0;
    let rd = sites[e1].1@[k1];
    let wr = sites[e2].1@[k2];
    &&& 0 <= e1 < sites.len()
    &&& 0 <= k1 < sites[e1].1@.len()
    &&& 0 <= e2 < sites.len()
    &&& 0 <= k2 < sites[e2].1@.len()
    &&& rd.api == AtomicApi::Read
    &&& wr.api == AtomicApi::Write
    &&& f1 != f2
    &&& same_receiver_spec(rd.receiver, wr.receiver)
    &&& connected(cg, f1, f2)
    &&& !exists|e3: int, k3: int| #[trigger] inter_interlock(cg, sites, rd, f1, f2, e3, k3)
}

/// Some report of `r` reports the load `rd` and the store `wr` of function `f`.
pub open spec fn intra_covered(krate: TranslatedCrate, f: FunDeclId, rd: AtomicCallSite, wr: AtomicCallSite, r: Seq<Report>) -> bool {
    exists|i: int| 0 <= i < r.len() && describes_intra(krate, f, rd, wr, #[trigger] r[i])
}

/// Some report of `r` reports the load `rd` of `f1` and the store `wr` of `f2`.
pub open spec fn inter_covered(
    krate: TranslatedCrate,
    cg: CallGraph,
    f1: FunDeclId,
    rd: AtomicCallSite,
    f2: FunDeclId,
    wr: AtomicCallSite,
    r: Seq<Report>,
) -> bool {
    exists|i: int| 0 <= i < r.len() && describes_inter(krate, cg, f1, rd, f2, wr, #[trigger] r[i])
}

/// `r` is a report across functions of the load at `key.0` and the store at `key.1`.
pub open spec fn key_report(
    krate: TranslatedCrate,
    cg: CallGraph,
    key: ((FunDeclId, Location), (FunDeclId, Location)),
    r: Report,
) -> bool {
    let d = r->AtomicityViolation_0.diagnosis;
    &&& is_atomicity_report(r)
    &&& connected(cg, key.0.0, key.1.0)
    &&& d.fn_name@ == name_or_empty(krate, key.0.0) + " -> "@ + name_or_empty(krate, key.1.0)
    &&& d.atomic_reader@ == span_or_empty(krate, key.0.0, key.0.1)
    &&& d.atomic_writer@ == span_or_empty(krate, key.1.0, key.1.1)
    &&& d.dep_kind@ == "InterProc"@
}

/// Some report of `r` is a report across functions for `key`.
pub open spec fn key_reported(
    krate: TranslatedCrate,
    cg: CallGraph,
    key: ((FunDeclId, Location), (FunDeclId, Location)),
    r: Seq<Report>,
) -> bool {
    exists|i: int| 0 <= i < r.len() && key_report(krate, cg, key, #[trigger] r[i])
}

/// `r` is a report across functions.
pub open spec fn is_inter_report(r: Report) -> bool {
    r->AtomicityViolation_0.diagnosis.dep_kind@ == "InterProc"@
}

/// `ks[i]` gives the locations of the load and the store that report `r[i]`
/// is about; each report across functions is about locations in two
/// functions, and no two of those are about the same locations.
pub open spec fn inter_keys(
    krate: TranslatedCrate,
    cg: CallGraph,
    ks: Seq<((FunDeclId, Location), (FunDeclId, Location))>,
    r: Seq<Report>,
) -> bool {
    &&& ks.len() == r.len()
    &&& forall|i: int| 0 <= i < r.len() && is_inter_report(#[trigger] r[i]) ==> key_report(krate, cg, ks[i], r[i]) && ks[i].0.0 != ks[i].1.0
    &&& forall|i: int, j: int| 0 <= i < j < r.len() && is_inter_report(#[trigger] r[j]) ==> #[trigger] ks[i] != ks[j]
}

/// The name of a dependence is not that of a dependence across functions.
proof fn lemma_dep_not_inter(k: DependenceKind)
    ensures
        dep_kind_text(k) != "InterProc"@,
{
    reveal_strlit("Control");
    reveal_strlit("Data");
    reveal_strlit("Both");
    reveal_strlit("InterProc");
    assert(dep_kind_text(k).len() != "InterProc"@.len());
}

/// Adding a report not across functions with its locations keeps the keys.
proof fn lemma_keys_push_intra(
    krate: TranslatedCrate,
    cg: CallGraph,
    ks: Seq<((FunDeclId, Location), (FunDeclId, Location))>,
    r: Seq<Report>,
    k: ((FunDeclId, Location), (FunDeclId, Location)),
    x: Report,
)
    requires
        inter_keys(krate, cg, ks, r),
        !is_inter_report(x),
    ensures
        inter_keys(krate, cg, ks.push(k), r.push(x)),
{
    let ks2 = ks.push(k);
    let r2 = r.push(x);
    assert forall|i: int| 0 <= i < r2.len() && is_inter_report(#[trigger] r2[i]) implies key_report(krate, cg, ks2[i], r2[i])
        && ks2[i].0.0 != ks2[i].1.0 by {
        assert(i < r.len());
        assert(r2[i] == r[i] && ks2[i] == ks[i]);
    }
    assert forall|i: int, j: int| 0 <= i < j < r2.len() && is_inter_report(#[trigger] r2[j]) implies #[trigger] ks2[i] != ks2[j] by {
        assert(j < r.len());
        assert(r2[j] == r[j] && ks2[i] == ks[i] && ks2[j] == ks[j]);
    }
}

/// Adding a report across functions for locations not yet reported keeps the keys.
proof fn lemma_keys_push_inter(
    krate: TranslatedCrate,
    cg: CallGraph,
    ks: Seq<((FunDeclId, Location), (FunDeclId, Location))>,
    r: Seq<Report>,
    k: ((FunDeclId, Location), (FunDeclId, Location)),
    x: Report,
)
    requires
        inter_keys(krate, cg, ks, r),
        key_report(krate, cg, k, x),
        k.0.0 != k.1.0,
        !ks.contains(k),
    ensures
        inter_keys(krate, cg, ks.push(k), r.push(x)),
{
    let ks2 = ks.push(k);
    let r2 = r.push(x);
    assert forall|i: int| 0 <= i < r2.len() && is_inter_report(#[trigger] r2[i]) implies key_report(krate, cg, ks2[i], r2[i])
        && ks2[i].0.0 != ks2[i].1.0 by {
        if i < r.len() {
            assert(r2[i] == r[i] && ks2[i] == ks[i]);
        }
    }
    assert forall|i: int, j: int| 0 <= i < j < r2.len() && is_inter_report(#[trigger] r2[j]) implies #[trigger] ks2[i] != ks2[j] by {
        if j < r.len() {
            assert(r2[j] == r[j] && ks2[i] == ks[i] && ks2[j] == ks[j]);
        } else {
            assert(ks2[i] == ks[i]);
            assert(ks2[j] == k);
            if ks[i] == k {
                assert(ks.contains(k));
            }
        }
    }
}

/// Adding a report keeps what was covered.
proof fn lemma_covered_push(krate: TranslatedCrate, cg: CallGraph, r: Seq<Report>, x: Report)
    ensures
        forall|f: FunDeclId, rd: AtomicCallSite, wr: AtomicCallSite|
            #[trigger] intra_covered(krate, f, rd, wr, r) ==> intra_covered(krate, f, rd, wr, r.push(x)),
        forall|f1: FunDeclId, rd: AtomicCallSite, f2: FunDeclId, wr: AtomicCallSite|
            #[trigger] inter_covered(krate, cg, f1, rd, f2, wr, r) ==> inter_covered(krate, cg, f1, rd, f2, wr, r.push(x)),
        forall|key: ((FunDeclId, Location), (FunDeclId, Location))|
            #[trigger] key_reported(krate, cg, key, r) ==> key_reported(krate, cg, key, r.push(x)),
{
    assert forall|f: FunDeclId, rd: AtomicCallSite, wr: AtomicCallSite|
        #[trigger] intra_covered(krate, f, rd, wr, r) implies intra_covered(krate, f, rd, wr, r.push(x)) by {
        let i = choose|i: int| 0 <= i < r.len() && describes_intra(krate, f, rd, wr, #[trigger] r[i]);
        assert(r.push(x)[i] == r[i]);
    }
    assert forall|f1: FunDeclId, rd: AtomicCallSite, f2: FunDeclId, wr: AtomicCallSite|
        #[trigger] inter_covered(krate, cg, f1, rd, f2, wr, r) implies inter_covered(krate, cg, f1, rd, f2, wr, r.push(x)) by {
        let i = choose|i: int| 0 <= i < r.len() && describes_inter(krate, cg, f1, rd, f2, wr, #[trigger] r[i]);
        assert(r.push(x)[i] == r[i]);
    }
    assert forall|key: ((FunDeclId, Location), (FunDeclId, Location))|
        #[trigger] key_reported(krate, cg, key, r) implies key_reported(krate, cg, key, r.push(x)) by {
        let i = choose|i: int| 0 <= i < r.len() && key_report(krate, cg, key, #[trigger] r[i]);
        assert(r.push(x)[i] == r[i]);
    }
}

/// Atomicity violations: within a function, a load and a later store on
/// the same object where the store depends on the load and no
/// read-modify-write on the object lies between them; across functions
/// connected by calls, a load and a store on the same object with no
/// read-modify-write on it in a function connected to either, each pair of
/// locations once.
#[verifier::spinoff_prover]
#[verifier::rlimit(100)]
pub fn detect_atomicity_violations(
    krate: &TranslatedCrate,
    atomic_callsites: &AtomicCallSites,
    callgraph: &CallGraph,
) -> (r: Vec<Report>)
    requires
        krate.wf(),
        callgraph.wf(),
        sites_valid(*krate, atomic_callsites@),
    ensures
        forall|i: int| 0 <= i < r@.len() ==> justified_atomicity(*krate, *callgraph, atomic_callsites@, #[trigger] r@[i]),
        forall|e: int, ri: int, wi: int|
            #[trigger] intra_violation(*krate, atomic_callsites@, e, ri, wi) ==> intra_covered(
                *krate,
                atomic_callsites@[e].0,
                atomic_callsites@[e].1@[ri],
                atomic_callsites@[e].1@[wi],
                r@,
            ),
        forall|e1: int, k1: int, e2: int, k2: int|
            #[trigger] inter_violation(*callgraph, atomic_callsites@, e1, k1, e2, k2) ==> inter_covered(
                *krate,
                *callgraph,
                atomic_callsites@[e1].0,
                atomic_callsites@[e1].1@[k1],
                atomic_callsites@[e2].0,
                atomic_callsites@[e2].1@[k2],
                r@,
            ),
        exists|ks: Seq<((FunDeclId, Location), (FunDeclId, Location))>| #[trigger] inter_keys(*krate, *callgraph, ks, r@),
{
    let ghost sites = atomic_callsites@;
    let mut reports: Vec<Report> = Vec::new();
    let mut reported_pairs: Vec<((FunDeclId, Location), (FunDeclId, Location))> = Vec::new();
    intra_pass(krate, atomic_callsites, callgraph, &mut reports, &mut reported_pairs);
    inter_pass(krate, atomic_callsites, callgraph, &mut reports, &mut reported_pairs);
    proof {
        assert(inter_keys(*krate, *callgraph, reported_pairs@, reports@));
    }
    reports
}

/// The reports within each function, in the order of the entries, their
/// loads and their stores.
#[verifier::spinoff_prover]
#[verifier::rlimit(100)]
fn intra_pass(
    krate: &TranslatedCrate,
    atomic_callsites: &AtomicCallSites,
    callgraph: &CallGraph,
    reports: &mut Vec<Report>,
    reported_pairs: &mut Vec<((FunDeclId, Location), (FunDeclId, Location))>,
)
    requires
        krate.wf(),
        sites_valid(*krate, atomic_callsites@),
        old(reports)@.len() == 0,
        old(reported_pairs)@.len() == 0,
    ensures
        forall|i: int| 0 <= i < final(reports)@.len() ==> justified_atomicity(*krate, *callgraph, atomic_callsites@, #[trigger] final(reports)@[i]),
        forall|e: int, ri: int, wi: int|
            #[trigger] intra_violation(*krate, atomic_callsites@, e, ri, wi) ==> intra_covered(
                *krate,
                atomic_callsites@[e].0,
                atomic_callsites@[e].1@[ri],
                atomic_callsites@[e].1@[wi],
                final(reports)@,
            ),
        forall|q: ((FunDeclId, Location), (FunDeclId, Location))|
            #[trigger] final(reported_pairs)@.contains(q) && q.0.0 != q.1.0 ==> key_reported(*krate, *callgraph, q, final(reports)@),
        inter_keys(*krate, *callgraph, final(reported_pairs)@, final(reports)@),
{
    let ghost sites = atomic_callsites@;
    let mut e: usize = 0;
    while e < atomic_callsites.len()
        invariant
            krate.wf(),
            sites == atomic_callsites@,
            sites_valid(*krate, atomic_callsites@),
            e <= atomic_callsites@.len(),
            forall|i: int| 0 <= i < reports@.len() ==> justified_atomicity(*krate, *callgraph, atomic_callsites@, #[trigger] reports@[i]),
            forall|e0: int, ri: int, wi: int|
                #[trigger] intra_violation(*krate, sites, e0, ri, wi) && e0 < e ==> intra_covered(
                    *krate,
                    sites[e0].0,
                    sites[e0].1@[ri],
                    sites[e0].1@[wi],
                    reports@,
                ),
            forall|q: ((FunDeclId, Location), (FunDeclId, Location))|
                #[trigger] reported_pairs@.contains(q) ==> q.0.0 == q.1.0,
            inter_keys(*krate, *callgraph, reported_pairs@, reports@),
        decreases atomic_callsites@.len() - e,
    {
        let fun_id = atomic_callsites[e].0;
        let callsites = &atomic_callsites[e].1;
        if fun_id >= krate.fun_decls.len() {
            e = e + 1;
            continue;
        }
        let (fun_decl, body) = match &krate.fun_decls[fun_id] {
            Some(d) => match &d.body {
                Some(b) => (d, b),
                None => {
                    e = e + 1;
                    continue;
                },
            },
            None => {
                e = e + 1;
                continue;
            },
        };
        assert(krate.body_of(fun_id as int) == Some(*body));
        assert(body.wf());
        let def_use = build_def_use(body);
        let dominance = build_dominance(body);
        let mut ri: usize = 0;
        while ri < callsites.len()
            invariant
                krate.wf(),
                sites == atomic_callsites@,
                sites_valid(*krate, atomic_callsites@),
                e < atomic_callsites@.len(),
                *callsites == atomic_callsites@[e as int].1,
                fun_id == atomic_callsites@[e as int].0,
                krate.body_of(fun_id as int) == Some(*body),
                krate.fun_decls@[fun_id as int] == Some(*fun_decl),
                is_dominance(*body, rows(dominance@)),
                ri <= callsites@.len(),
                forall|i: int| 0 <= i < reports@.len() ==> justified_atomicity(*krate, *callgraph, atomic_callsites@, #[trigger] reports@[i]),
                forall|e0: int, r0: int, wi: int|
                    #[trigger] intra_violation(*krate, sites, e0, r0, wi) && (e0 < e || (e0 == e && r0 < ri)) ==> intra_covered(
                        *krate,
                        sites[e0].0,
                        sites[e0].1@[r0],
                        sites[e0].1@[wi],
                        reports@,
                    ),
                forall|q: ((FunDeclId, Location), (FunDeclId, Location))|
                    #[trigger] reported_pairs@.contains(q) ==> q.0.0 == q.1.0,
                inter_keys(*krate, *callgraph, reported_pairs@, reports@),
            decreases callsites@.len() - ri,
        {
            let read = &callsites[ri];
            if read.api == AtomicApi::Read {
                let mut wi: usize = 0;
                while wi < callsites.len()
                    invariant
                        krate.wf(),
                        sites == atomic_callsites@,
                        sites_valid(*krate, atomic_callsites@),
                        e < atomic_callsites@.len(),
                        *callsites == atomic_callsites@[e as int].1,
                        fun_id == atomic_callsites@[e as int].0,
                        krate.body_of(fun_id as int) == Some(*body),
                        krate.fun_decls@[fun_id as int] == Some(*fun_decl),
                        is_dominance(*body, rows(dominance@)),
                        ri < callsites@.len(),
                        *read == callsites@[ri as int],
                        read.api == AtomicApi::Read,
                        wi <= callsites@.len(),
                        forall|i: int| 0 <= i < reports@.len() ==> justified_atomicity(*krate, *callgraph, atomic_callsites@, #[trigger] reports@[i]),
                        forall|e0: int, r0: int, w0: int|
                            #[trigger] intra_violation(*krate, sites, e0, r0, w0) && (e0 < e || (e0 == e && r0 < ri) || (e0 == e
                                && r0 == ri && w0 < wi)) ==> intra_covered(
                                *krate,
                                sites[e0].0,
                                sites[e0].1@[r0],
                                sites[e0].1@[w0],
                                reports@,
                            ),
                        forall|q: ((FunDeclId, Location), (FunDeclId, Location))|
                            #[trigger] reported_pairs@.contains(q) ==> q.0.0 == q.1.0,
                        inter_keys(*krate, *callgraph, reported_pairs@, reports@),
                    decreases callsites@.len() - wi,
                {
                    let write = &callsites[wi];
                    let ghost wj = wi as int;
                    wi = wi + 1;
                    if write.api != AtomicApi::Write || !same_receiver(&read.receiver, &write.receiver) {
                        continue;
                    }
                    let read_dest = match read.dest {
                        Some(d) => d,
                        None => continue,
                    };
                    let value = match &write.value_op {
                        Some(op) => Some(op),
                        None => None,
                    };
                    proof {
                        assert((match value {
                            Some(op) => Some(*op),
                            None => None,
                        }) == write.value_op);
                    }
                    let dep_kind = match compute_dependence(read_dest, read.loc, write.loc, value, body, &def_use, &dominance) {
                        Some(k) => k,
                        None => {
                            proof {
                                if intra_violation(*krate, sites, e as int, ri as int, wj) {
                                    assert(is_dominance(krate.body_of(fun_id as int)->0, rows(dominance@)));
                                }
                            }
                            continue;
                        },
                    };
                    let mut has_interlock = false;
                    let mut k: usize = 0;
                    while k < callsites.len() && !has_interlock
                        invariant
                            k <= callsites@.len(),
                            e < sites.len(),
                            sites == atomic_callsites@,
                            *callsites == atomic_callsites@[e as int].1,
                            *read == callsites@[ri as int],
                            *write == callsites@[wj],
                            !has_interlock ==> forall|k0: int| 0 <= k0 < k ==> !#[trigger] intra_interlock(sites, e as int, k0, *read, *write, rows(dominance@)),
                            has_interlock ==> exists|k0: int| #[trigger] intra_interlock(sites, e as int, k0, *read, *write, rows(dominance@)),
                        decreases callsites@.len() - k,
                    {
                        let rw = &callsites[k];
                        if rw.api == AtomicApi::ReadWrite && same_receiver(&rw.receiver, &read.receiver) && is_between(
                            rw.loc,
                            read.loc,
                            write.loc,
                            &dominance,
                        ) {
                            has_interlock = true;
                            assert(intra_interlock(sites, e as int, k as int, *read, *write, rows(dominance@)));
                        }
                        k = k + 1;
                    }
                    if has_interlock {
                        proof {
                            if intra_violation(*krate, sites, e as int, ri as int, wj) {
                                assert(is_dominance(krate.body_of(fun_id as int)->0, rows(dominance@)));
                            }
                        }
                        continue;
                    }
                    let ghost pairs_b = reported_pairs@;
                    reported_pairs.push(((fun_id, read.loc), (fun_id, write.loc)));
                    proof {
                        assert(read.loc.block < body.body@.len());
                        assert(write.loc.block < body.body@.len());
                    }
                    let report = intra_report(krate, fun_id, body, read, write, dep_kind);
                    proof {
                        assert(atomic_callsites@[e as int].1@[ri as int] == *read);
                        assert(atomic_callsites@[e as int].1@[wj] == *write);
                        assert(dependence_spec(*body, rows(dominance@), read_dest, read.loc, write.loc, write.value_op)
                            == Some(dep_kind));
                        assert(is_dominance(*body, rows(dominance@)));
                        assert(describes_intra(*krate, fun_id, *read, *write, report));
                        lemma_justified(*krate, *callgraph, atomic_callsites@, e as int, ri as int, e as int, wj, report);
                        lemma_dep_not_inter(dep_kind);
                    }
                    let ghost before = reports@;
                    reports.push(report);
                    proof {
                        lemma_keys_push_intra(*krate, *callgraph, pairs_b, before, ((fun_id, read.loc), (fun_id, write.loc)), report);
                        assert forall|q: ((FunDeclId, Location), (FunDeclId, Location))|
                            #[trigger] reported_pairs@.contains(q) implies q.0.0 == q.1.0 by {
                            let w = choose|w: int| 0 <= w < reported_pairs@.len() && reported_pairs@[w] == q;
                            if w < pairs_b.len() {
                                assert(pairs_b[w] == q);
                                assert(pairs_b.contains(q));
                            }
                        }
                        lemma_covered_push(*krate, *callgraph, before, report);
                        assert(reports@[before.len() as int] == report);
                        assert(intra_covered(*krate, fun_id, *read, *write, reports@));
                        assert forall|i: int| 0 <= i < reports@.len() implies justified_atomicity(
                            *krate,
                            *callgraph,
                            atomic_callsites@,
                            #[trigger] reports@[i],
                        ) by {
                            if i < before.len() {
                                assert(reports@[i] == before[i]);
                            }
                        }
                    }
                }
            }
            ri = ri + 1;
        }
        e = e + 1;
    }
}

/// The reports across functions, in the order of the loads' and then the
/// stores' entries and positions, each pair of locations once.
#[verifier::spinoff_prover]
#[verifier::rlimit(100)]
fn inter_pass(
    krate: &TranslatedCrate,
    atomic_callsites: &AtomicCallSites,
    callgraph: &CallGraph,
    reports: &mut Vec<Report>,
    reported_pairs: &mut Vec<((FunDeclId, Location), (FunDeclId, Location))>,
)
    requires
        krate.wf(),
        callgraph.wf(),
        sites_valid(*krate, atomic_callsites@),
        forall|i: int| 0 <= i < old(reports)@.len() ==> justified_atomicity(*krate, *callgraph, atomic_callsites@, #[trigger] old(reports)@[i]),
        forall|q: ((FunDeclId, Location), (FunDeclId, Location))|
            #[trigger] old(reported_pairs)@.contains(q) && q.0.0 != q.1.0 ==> key_reported(*krate, *callgraph, q, old(reports)@),
        inter_keys(*krate, *callgraph, old(reported_pairs)@, old(reports)@),
    ensures
        forall|i: int| 0 <= i < final(reports)@.len() ==> justified_atomicity(*krate, *callgraph, atomic_callsites@, #[trigger] final(reports)@[i]),
        inter_keys(*krate, *callgraph, final(reported_pairs)@, final(reports)@),
        forall|f: FunDeclId, rd: AtomicCallSite, wr: AtomicCallSite|
            #[trigger] intra_covered(*krate, f, rd, wr, old(reports)@) ==> intra_covered(*krate, f, rd, wr, final(reports)@),
        forall|e1: int, k1: int, e2: int, k2: int|
            #[trigger] inter_violation(*callgraph, atomic_callsites@, e1, k1, e2, k2) ==> inter_covered(
                *krate,
                *callgraph,
                atomic_callsites@[e1].0,
                atomic_callsites@[e1].1@[k1],
                atomic_callsites@[e2].0,
                atomic_callsites@[e2].1@[k2],
                final(reports)@,
            ),
{
    let ghost sites = atomic_callsites@;
    let ghost r0 = reports@;
    let mut re: usize = 0;
    while re < atomic_callsites.len()
        invariant
            krate.wf(),
            callgraph.wf(),
            sites == atomic_callsites@,
            sites_valid(*krate, atomic_callsites@),
            re <= atomic_callsites@.len(),
            forall|i: int| 0 <= i < reports@.len() ==> justified_atomicity(*krate, *callgraph, atomic_callsites@, #[trigger] reports@[i]),
            forall|f: FunDeclId, rd: AtomicCallSite, wr: AtomicCallSite|
                #[trigger] intra_covered(*krate, f, rd, wr, r0) ==> intra_covered(*krate, f, rd, wr, reports@),
            forall|q: ((FunDeclId, Location), (FunDeclId, Location))|
                #[trigger] reported_pairs@.contains(q) && q.0.0 != q.1.0 ==> key_reported(*krate, *callgraph, q, reports@),
            inter_keys(*krate, *callgraph, reported_pairs@, reports@),
            forall|e1: int, k1: int, e2: int, k2: int|
                #[trigger] inter_violation(*callgraph, sites, e1, k1, e2, k2) && e1 < re ==> inter_covered(
                    *krate,
                    *callgraph,
                    sites[e1].0,
                    sites[e1].1@[k1],
                    sites[e2].0,
                    sites[e2].1@[k2],
                    reports@,
                ),
        decreases atomic_callsites@.len() - re,
    {
        let read_fun = atomic_callsites[re].0;
        let mut ri: usize = 0;
        while ri < atomic_callsites[re].1.len()
            invariant
                krate.wf(),
                callgraph.wf(),
                sites == atomic_callsites@,
                sites_valid(*krate, atomic_callsites@),
                re < atomic_callsites@.len(),
                read_fun == atomic_callsites@[re as int].0,
                ri <= atomic_callsites@[re as int].1@.len(),
                forall|i: int| 0 <= i < reports@.len() ==> justified_atomicity(*krate, *callgraph, atomic_callsites@, #[trigger] reports@[i]),
                forall|f: FunDeclId, rd: AtomicCallSite, wr: AtomicCallSite|
                    #[trigger] intra_covered(*krate, f, rd, wr, r0) ==> intra_covered(*krate, f, rd, wr, reports@),
                forall|q: ((FunDeclId, Location), (FunDeclId, Location))|
                    #[trigger] reported_pairs@.contains(q) && q.0.0 != q.1.0 ==> key_reported(*krate, *callgraph, q, reports@),
            inter_keys(*krate, *callgraph, reported_pairs@, reports@),
                forall|e1: int, k1: int, e2: int, k2: int|
                    #[trigger] inter_violation(*callgraph, sites, e1, k1, e2, k2) && (e1 < re || (e1 == re && k1 < ri)) ==> inter_covered(
                        *krate,
                        *callgraph,
                        sites[e1].0,
                        sites[e1].1@[k1],
                        sites[e2].0,
                        sites[e2].1@[k2],
                        reports@,
                    ),
            decreases atomic_callsites@[re as int].1@.len() - ri,
        {
            let read = &atomic_callsites[re].1[ri];
            let rj = ri;
            ri = ri + 1;
            if read.api != AtomicApi::Read {
                continue;
            }
            let mut we: usize = 0;
            while we < atomic_callsites.len()
                invariant
                    krate.wf(),
                    callgraph.wf(),
                    sites == atomic_callsites@,
                    sites_valid(*krate, atomic_callsites@),
                    re < atomic_callsites@.len(),
                    read_fun == atomic_callsites@[re as int].0,
                    rj == ri - 1,
                    1 <= ri <= atomic_callsites@[re as int].1@.len(),
                    *read == atomic_callsites@[re as int].1@[rj as int],
                    read.api == AtomicApi::Read,
                    we <= atomic_callsites@.len(),
                    forall|i: int| 0 <= i < reports@.len() ==> justified_atomicity(*krate, *callgraph, atomic_callsites@, #[trigger] reports@[i]),
                    forall|f: FunDeclId, rd: AtomicCallSite, wr: AtomicCallSite|
                        #[trigger] intra_covered(*krate, f, rd, wr, r0) ==> intra_covered(*krate, f, rd, wr, reports@),
                    forall|q: ((FunDeclId, Location), (FunDeclId, Location))|
                        #[trigger] reported_pairs@.contains(q) && q.0.0 != q.1.0 ==> key_reported(*krate, *callgraph, q, reports@),
            inter_keys(*krate, *callgraph, reported_pairs@, reports@),
                    forall|e1: int, k1: int, e2: int, k2: int|
                        #[trigger] inter_violation(*callgraph, sites, e1, k1, e2, k2) && (e1 < re || (e1 == re && k1 < rj) || (e1
                            == re && k1 == rj && e2 < we)) ==> inter_covered(
                            *krate,
                            *callgraph,
                            sites[e1].0,
                            sites[e1].1@[k1],
                            sites[e2].0,
                            sites[e2].1@[k2],
                            reports@,
                        ),
                decreases atomic_callsites@.len() - we,
            {
                let write_fun = atomic_callsites[we].0;
                let mut wi: usize = 0;
                while wi < atomic_callsites[we].1.len()
                    invariant
                        krate.wf(),
                        callgraph.wf(),
                        sites == atomic_callsites@,
                        sites_valid(*krate, atomic_callsites@),
                        re < atomic_callsites@.len(),
                        we < atomic_callsites@.len(),
                        read_fun == atomic_callsites@[re as int].0,
                        write_fun == atomic_callsites@[we as int].0,
                        rj == ri - 1,
                        1 <= ri <= atomic_callsites@[re as int].1@.len(),
                        *read == atomic_callsites@[re as int].1@[rj as int],
                        read.api == AtomicApi::Read,
                        wi <= atomic_callsites@[we as int].1@.len(),
                        forall|i: int| 0 <= i < reports@.len() ==> justified_atomicity(*krate, *callgraph, atomic_callsites@, #[trigger] reports@[i]),
                        forall|f: FunDeclId, rd: AtomicCallSite, wr: AtomicCallSite|
                            #[trigger] intra_covered(*krate, f, rd, wr, r0) ==> intra_covered(*krate, f, rd, wr, reports@),
                        forall|q: ((FunDeclId, Location), (FunDeclId, Location))|
                            #[trigger] reported_pairs@.contains(q) && q.0.0 != q.1.0 ==> key_reported(*krate, *callgraph, q, reports@),
            inter_keys(*krate, *callgraph, reported_pairs@, reports@),
                        forall|e1: int, k1: int, e2: int, k2: int|
                            #[trigger] inter_violation(*callgraph, sites, e1, k1, e2, k2) && (e1 < re || (e1 == re && k1 < rj) || (e1
                                == re && k1 == rj && e2 < we) || (e1 == re && k1 == rj && e2 == we && k2 < wi)) ==> inter_covered(
                                *krate,
                                *callgraph,
                                sites[e1].0,
                                sites[e1].1@[k1],
                                sites[e2].0,
                                sites[e2].1@[k2],
                                reports@,
                            ),
                    decreases atomic_callsites@[we as int].1@.len() - wi,
                {
                    let wj = wi;
                    wi = wi + 1;
                    let ghost rb = reports@;
                    inter_pair(krate, atomic_callsites, callgraph, reports, reported_pairs, re, rj, we, wj);
                    proof {
                        assert forall|f: FunDeclId, rd: AtomicCallSite, wr: AtomicCallSite|
                            #[trigger] intra_covered(*krate, f, rd, wr, r0) implies intra_covered(*krate, f, rd, wr, reports@) by {
                            assert(intra_covered(*krate, f, rd, wr, rb));
                        }
                        assert forall|e1: int, k1: int, e2: int, k2: int|
                            #[trigger] inter_violation(*callgraph, sites, e1, k1, e2, k2) && (e1 < re || (e1 == re && k1 < rj) || (e1
                                == re && k1 == rj && e2 < we) || (e1 == re && k1 == rj && e2 == we && k2 < wi)) implies inter_covered(
                                *krate,
                                *callgraph,
                                sites[e1].0,
                                sites[e1].1@[k1],
                                sites[e2].0,
                                sites[e2].1@[k2],
                                reports@,
                            ) by {
                            if !(e1 == re && k1 == rj && e2 == we && k2 == wj) {
                                assert(inter_covered(*krate, *callgraph, sites[e1].0, sites[e1].1@[k1], sites[e2].0, sites[e2].1@[k2], rb));
                            }
                        }
                    }
                }
                we = we + 1;
            }
        }
        re = re + 1;
    }
}

/// Reports the load `rj` of entry `re` and the store `wj` of entry `we` where
/// they are a violation across functions whose locations were not reported.
#[verifier::spinoff_prover]
#[verifier::rlimit(100)]
fn inter_pair(
    krate: &TranslatedCrate,
    atomic_callsites: &AtomicCallSites,
    callgraph: &CallGraph,
    reports: &mut Vec<Report>,
    reported_pairs: &mut Vec<((FunDeclId, Location), (FunDeclId, Location))>,
    re: usize,
    rj: usize,
    we: usize,
    wj: usize,
)
    requires
        krate.wf(),
        callgraph.wf(),
        sites_valid(*krate, atomic_callsites@),
        re < atomic_callsites@.len(),
        rj < atomic_callsites@[re as int].1@.len(),
        we < atomic_callsites@.len(),
        wj < atomic_callsites@[we as int].1@.len(),
        atomic_callsites@[re as int].1@[rj as int].api == AtomicApi::Read,
        forall|i: int| 0 <= i < old(reports)@.len() ==> justified_atomicity(*krate, *callgraph, atomic_callsites@, #[trigger] old(reports)@[i]),
        forall|q: ((FunDeclId, Location), (FunDeclId, Location))|
            #[trigger] old(reported_pairs)@.contains(q) && q.0.0 != q.1.0 ==> key_reported(*krate, *callgraph, q, old(reports)@),
        inter_keys(*krate, *callgraph, old(reported_pairs)@, old(reports)@),
    ensures
        forall|i: int| 0 <= i < final(reports)@.len() ==> justified_atomicity(*krate, *callgraph, atomic_callsites@, #[trigger] final(reports)@[i]),
        forall|q: ((FunDeclId, Location), (FunDeclId, Location))|
            #[trigger] final(reported_pairs)@.contains(q) && q.0.0 != q.1.0 ==> key_reported(*krate, *callgraph, q, final(reports)@),
        inter_keys(*krate, *callgraph, final(reported_pairs)@, final(reports)@),
        forall|f: FunDeclId, rd: AtomicCallSite, wr: AtomicCallSite|
            #[trigger] intra_covered(*krate, f, rd, wr, old(reports)@) ==> intra_covered(*krate, f, rd, wr, final(reports)@),
        forall|f1: FunDeclId, rd: AtomicCallSite, f2: FunDeclId, wr: AtomicCallSite|
            #[trigger] inter_covered(*krate, *callgraph, f1, rd, f2, wr, old(reports)@) ==> inter_covered(*krate, *callgraph, f1, rd, f2, wr, final(reports)@),
        inter_violation(*callgraph, atomic_callsites@, re as int, rj as int, we as int, wj as int) ==> inter_covered(
            *krate,
            *callgraph,
            atomic_callsites@[re as int].0,
            atomic_callsites@[re as int].1@[rj as int],
            atomic_callsites@[we as int].0,
            atomic_callsites@[we as int].1@[wj as int],
            final(reports)@,
        ),
{
    let read = &atomic_callsites[re].1[rj];
    let read_fun = atomic_callsites[re].0;
    let write_fun = atomic_callsites[we].0;
    let write = &atomic_callsites[we].1[wj];
    if !inter_should_report(krate, atomic_callsites, callgraph, reports, reported_pairs, re, rj, we, wj) {
        return;
    }
    let pair = ((read_fun, read.loc), (write_fun, write.loc));
    reported_pairs.push(pair);
    proof {
        assert(sites_valid(*krate, atomic_callsites@));
        assert(atomic_callsites@[re as int].1@[rj as int] == *read);
        assert(atomic_callsites@[we as int].1@[wj as int] == *write);
    }
    let report = inter_report(krate, read_fun, read, write_fun, write);
    proof {
        assert(describes_inter(*krate, *callgraph, read_fun, *read, write_fun, *write, report));
        lemma_justified(*krate, *callgraph, atomic_callsites@, re as int, rj as int, we as int, wj as int, report);
    }
    let ghost before = reports@;
    let ghost pairs_before = reported_pairs@.drop_last();
    proof {
        assert(reported_pairs@ =~= pairs_before.push(pair));
        assert(pairs_before =~= old(reported_pairs)@);
        assert(before == old(reports)@);
        assert(key_report(*krate, *callgraph, pair, report));
        assert(inter_covered(*krate, *callgraph, read_fun, *read, write_fun, *write, before.push(report))) by {
            assert(before.push(report)[before.len() as int] == report);
        }
        lemma_inter_push(*krate, *callgraph, atomic_callsites@, before, report, pairs_before, pair);
        lemma_keys_push_inter(*krate, *callgraph, pairs_before, before, pair, report);
    }
    reports.push(report);
}


/// Whether some read-modify-write of the sites is on the object of `read` in
/// a function connected by calls to `read_fun` or `write_fun`.
fn has_inter_interlock(
    atomic_callsites: &AtomicCallSites,
    callgraph: &CallGraph,
    read: &AtomicCallSite,
    read_fun: FunDeclId,
    write_fun: FunDeclId,
) -> (r: bool)
    requires
        callgraph.wf(),
    ensures
        r == exists|e3: int, k3: int| #[trigger] inter_interlock(*callgraph, atomic_callsites@, *read, read_fun, write_fun, e3, k3),
{
    let ghost sites = atomic_callsites@;
    let mut has_interlock = false;
    let mut xe: usize = 0;
    while xe < atomic_callsites.len() && !has_interlock
        invariant
            callgraph.wf(),
            sites == atomic_callsites@,
            xe <= atomic_callsites@.len(),
            !has_interlock ==> forall|e3: int, k3: int|
                0 <= e3 < xe ==> !#[trigger] inter_interlock(*callgraph, sites, *read, read_fun, write_fun, e3, k3),
            has_interlock ==> exists|e3: int, k3: int| #[trigger] inter_interlock(*callgraph, sites, *read, read_fun, write_fun, e3, k3),
        decreases atomic_callsites@.len() - xe,
    {
        let rw_fun = atomic_callsites[xe].0;
        let mut xi: usize = 0;
        while xi < atomic_callsites[xe].1.len() && !has_interlock
            invariant
                callgraph.wf(),
                sites == atomic_callsites@,
                xe < atomic_callsites@.len(),
                rw_fun == atomic_callsites@[xe as int].0,
                xi <= atomic_callsites@[xe as int].1@.len(),
                !has_interlock ==> forall|e3: int, k3: int|
                    0 <= e3 < xe ==> !#[trigger] inter_interlock(*callgraph, sites, *read, read_fun, write_fun, e3, k3),
                !has_interlock ==> forall|k3: int|
                    0 <= k3 < xi ==> !#[trigger] inter_interlock(*callgraph, sites, *read, read_fun, write_fun, xe as int, k3),
                has_interlock ==> exists|e3: int, k3: int| #[trigger] inter_interlock(*callgraph, sites, *read, read_fun, write_fun, e3, k3),
            decreases atomic_callsites@[xe as int].1@.len() - xi,
        {
            let rw = &atomic_callsites[xe].1[xi];
            if rw.api == AtomicApi::ReadWrite && same_receiver(&rw.receiver, &read.receiver) && (callgraph.can_reach(
                read_fun,
                rw_fun,
            ) || callgraph.can_reach(write_fun, rw_fun) || callgraph.can_reach(rw_fun, read_fun) || callgraph.can_reach(
                rw_fun,
                write_fun,
            )) {
                has_interlock = true;
                assert(inter_interlock(*callgraph, sites, *read, read_fun, write_fun, xe as int, xi as int));
            }
            xi = xi + 1;
        }
        proof {
            if !has_interlock {
                assert forall|e3: int, k3: int|
                    0 <= e3 < xe + 1 implies !#[trigger] inter_interlock(*callgraph, sites, *read, read_fun, write_fun, e3, k3) by {
                    if e3 == xe && 0 <= k3 < sites[e3].1@.len() {
                        assert(!inter_interlock(*callgraph, sites, *read, read_fun, write_fun, xe as int, k3));
                    }
                }
            }
        }
        xe = xe + 1;
    }
    has_interlock
}

/// Adding a report and its locations keeps the reports justified and
/// the recorded locations reported, and keeps what was covered.
proof fn lemma_inter_push(
    krate: TranslatedCrate,
    cg: CallGraph,
    sites: Seq<(FunDeclId, Vec<AtomicCallSite>)>,
    before: Seq<Report>,
    report: Report,
    pairs_before: Seq<((FunDeclId, Location), (FunDeclId, Location))>,
    pair: ((FunDeclId, Location), (FunDeclId, Location)),
)
    requires
        forall|i: int| 0 <= i < before.len() ==> justified_atomicity(krate, cg, sites, #[trigger] before[i]),
        justified_atomicity(krate, cg, sites, report),
        forall|q: ((FunDeclId, Location), (FunDeclId, Location))|
            #[trigger] pairs_before.contains(q) && q.0.0 != q.1.0 ==> key_reported(krate, cg, q, before),
        key_report(krate, cg, pair, report),
    ensures
        forall|i: int| 0 <= i < before.push(report).len() ==> justified_atomicity(krate, cg, sites, #[trigger] before.push(report)[i]),
        forall|q: ((FunDeclId, Location), (FunDeclId, Location))|
            #[trigger] pairs_before.push(pair).contains(q) && q.0.0 != q.1.0 ==> key_reported(krate, cg, q, before.push(report)),
        forall|f: FunDeclId, rd: AtomicCallSite, wr: AtomicCallSite|
            #[trigger] intra_covered(krate, f, rd, wr, before) ==> intra_covered(krate, f, rd, wr, before.push(report)),
        forall|f1: FunDeclId, rd: AtomicCallSite, f2: FunDeclId, wr: AtomicCallSite|
            #[trigger] inter_covered(krate, cg, f1, rd, f2, wr, before) ==> inter_covered(krate, cg, f1, rd, f2, wr, before.push(report)),
{
    lemma_covered_push(krate, cg, before, report);
    let r = before.push(report);
    assert forall|i: int| 0 <= i < r.len() implies justified_atomicity(krate, cg, sites, #[trigger] r[i]) by {
        if i < before.len() {
            assert(r[i] == before[i]);
        }
    }
    assert forall|q: ((FunDeclId, Location), (FunDeclId, Location))|
        #[trigger] pairs_before.push(pair).contains(q) && q.0.0 != q.1.0 implies key_reported(krate, cg, q, r) by {
        if q == pair {
            assert(r[before.len() as int] == report);
        } else {
            let w = choose|w: int| 0 <= w < pairs_before.push(pair).len() && pairs_before.push(pair)[w] == q;
            assert(pairs_before[w] == q);
            assert(key_reported(krate, cg, q, before));
        }
    }
}

/// Whether the load `rj` of entry `re` and the store `wj` of entry `we` are
/// to be reported across functions: a load and a store of other functions
/// connected by calls on the same object, with no read-modify-write on it in
/// a function connected to either, at locations not yet reported.
#[verifier::spinoff_prover]
#[verifier::rlimit(100)]
fn inter_should_report(
    krate: &TranslatedCrate,
    atomic_callsites: &AtomicCallSites,
    callgraph: &CallGraph,
    reports: &Vec<Report>,
    reported_pairs: &Vec<((FunDeclId, Location), (FunDeclId, Location))>,
    re: usize,
    rj: usize,
    we: usize,
    wj: usize,
) -> (r: bool)
    requires
        callgraph.wf(),
        re < atomic_callsites@.len(),
        rj < atomic_callsites@[re as int].1@.len(),
        we < atomic_callsites@.len(),
        wj < atomic_callsites@[we as int].1@.len(),
        atomic_callsites@[re as int].1@[rj as int].api == AtomicApi::Read,
        forall|q: ((FunDeclId, Location), (FunDeclId, Location))|
            #[trigger] reported_pairs@.contains(q) && q.0.0 != q.1.0 ==> key_reported(*krate, *callgraph, q, reports@),
    ensures
        r ==> {
            let rd = atomic_callsites@[re as int].1@[rj as int];
            let wr = atomic_callsites@[we as int].1@[wj as int];
            let f1 = atomic_callsites@[re as int].0;
            let f2 = atomic_callsites@[we as int].0;
            &&& wr.api == AtomicApi::Write
            &&& f1 != f2
            &&& same_receiver_spec(rd.receiver, wr.receiver)
            &&& connected(*callgraph, f1, f2)
            &&& !reported_pairs@.contains(((f1, rd.loc), (f2, wr.loc)))
        },
        !r ==> (inter_violation(*callgraph, atomic_callsites@, re as int, rj as int, we as int, wj as int) ==> inter_covered(
            *krate,
            *callgraph,
            atomic_callsites@[re as int].0,
            atomic_callsites@[re as int].1@[rj as int],
            atomic_callsites@[we as int].0,
            atomic_callsites@[we as int].1@[wj as int],
            reports@,
        )),
{
    let read = &atomic_callsites[re].1[rj];
    let read_fun = atomic_callsites[re].0;
    let write_fun = atomic_callsites[we].0;
    let write = &atomic_callsites[we].1[wj];
    if write.api != AtomicApi::Write || read_fun == write_fun || !same_receiver(
        &read.receiver,
        &write.receiver,
    ) {
        assert(!inter_violation(*callgraph, atomic_callsites@, re as int, rj as int, we as int, wj as int));
        return false;
    }
    let pair = ((read_fun, read.loc), (write_fun, write.loc));
    if pair_reported(reported_pairs, &pair) {
        proof {
            assert(key_reported(*krate, *callgraph, pair, reports@));
            let i = choose|i: int| 0 <= i < reports@.len() && key_report(*krate, *callgraph, pair, #[trigger] reports@[i]);
            assert(describes_inter(*krate, *callgraph, read_fun, *read, write_fun, *write, reports@[i]));
            assert(inter_covered(*krate, *callgraph, read_fun, *read, write_fun, *write, reports@));
        }
        return false;
    }
    if !callgraph.can_reach(read_fun, write_fun) && !callgraph.can_reach(write_fun, read_fun)
        && !callgraph.share_common_ancestor(read_fun, write_fun) {
        assert(!connected(*callgraph, read_fun, write_fun));
        return false;
    }
    let has_interlock = has_inter_interlock(atomic_callsites, callgraph, read, read_fun, write_fun);
    if has_interlock {
        assert(!inter_violation(*callgraph, atomic_callsites@, re as int, rj as int, we as int, wj as int));
        return false;
    }
    true
}

/// What a function's path says of the atomic API it is. Only functions under
/// `std::sync::atomic` or `core::sync::atomic` are atomic APIs; among them a path that names
/// `::load` reads, one that names `::store` and no load writes, and one that names `compare`
/// or `fetch_` and neither reads and writes; any other is none.
pub proof fn law_atomic_api_by_path(name: Seq<char>)
    ensures
        !crate::text::has_prefix(name, "std::sync::atomic"@) && !crate::text::has_prefix(name, "core::sync::atomic"@)
            ==> atomic_api_of_name(name) is None,
        crate::text::has_prefix(name, "std::sync::atomic"@) || crate::text::has_prefix(name, "core::sync::atomic"@) ==> {
            &&& (atomic_api_of_name(name) == Some(AtomicApi::Read) <==> crate::text::has_sub(name, "::load"@))
            &&& (atomic_api_of_name(name) == Some(AtomicApi::Write) <==> !crate::text::has_sub(name, "::load"@)
                && crate::text::has_sub(name, "::store"@))
            &&& (atomic_api_of_name(name) == Some(AtomicApi::ReadWrite) <==> !crate::text::has_sub(name, "::load"@)
                && !crate::text::has_sub(name, "::store"@) && (crate::text::has_sub(name, "compare"@) || crate::text::has_sub(
                name,
                "fetch_"@,
            )))
            &&& (atomic_api_of_name(name) is None <==> !crate::text::has_sub(name, "::load"@) && !crate::text::has_sub(name, "::store"@)
                && !crate::text::has_sub(name, "compare"@) && !crate::text::has_sub(name, "fetch_"@))
        },
{
}

} // verus!
