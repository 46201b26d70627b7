//! Memory bugs: freeing a value that was never initialised, and using a raw
//! pointer after what it points to was dropped.

use vstd::prelude::*;

use crate::lockbud::atomic::{loc_span, span_for_loc, text};
use crate::lockbud::callgraph::{reaches, CallGraph};
use crate::lockbud::render::{format_span, format_ty, span_text, ty_text};
use crate::lockbud::report::{InvalidFreeDiagnosis, Report, ReportContent, UseAfterFreeDiagnosis};
use crate::lockbud::types::{callee_name, callee_name_of, Location};
use crate::lockbud::ullbc::{
    base_local, copy_place, copy_ty, operand_local, operand_local_spec, place_eq, same_place, same_ty, successors,
    terminator_successors, BlockId, ExprBody, FnOperand, FunDecl, FunDeclId, LiteralTy, LocalId, Operand, Place,
    PlaceKind, Rvalue, StatementKind, TerminatorKind, TranslatedCrate, Ty, TyKind,
};
use crate::text::{chars_of, has_prefix, has_sub, vec_has, vec_starts};

verus! {

broadcast use {vstd::seq_lib::lemma_seq_contains_after_push, vstd::seq::Seq::lemma_push_to_set_commute};

#[derive(Clone, Copy, Debug, PartialEq, Eq, Structural)]
pub enum UninitApi {
    Uninitialized,
    MaybeUninit,
    AssumeInit,
    MaybeUninitWrite,
    PtrWrite,
}

/// The API that a function of this printed path is, if it creates, writes
/// or reads an uninitialised value.
pub open spec fn uninit_api_of_name(name: Seq<char>) -> Option<UninitApi> {
    if has_sub(name, "MaybeUninit"@) && (has_sub(name, "::uninit"@) || has_sub(name, "::zeroed"@)) {
        Some(UninitApi::MaybeUninit)
    } else if has_sub(name, "MaybeUninit"@) && has_sub(name, "::write"@) {
        Some(UninitApi::MaybeUninitWrite)
    } else if has_sub(name, "MaybeUninit"@) && has_sub(name, "::assume_init"@) {
        Some(UninitApi::AssumeInit)
    } else if has_sub(name, "mem::uninitialized"@) || has_sub(name, "mem::zeroed"@) {
        Some(UninitApi::Uninitialized)
    } else if has_sub(name, "as_mut_ptr"@) && has_sub(name, "MaybeUninit"@) {
        Some(UninitApi::PtrWrite)
    } else {
        None
    }
}

pub open spec fn uninit_api_spec(func: FnOperand, krate: TranslatedCrate) -> Option<UninitApi> {
    match callee_name(func, krate) {
        Some(n) => uninit_api_of_name(n),
        None => None,
    }
}

/// The uninitialised-memory API that a call targets, by the path of the declared function it calls.
pub fn classify_uninit_api(func: &FnOperand, krate: &TranslatedCrate) -> (r: Option<UninitApi>)
    ensures
        r == uninit_api_spec(*func, *krate),
{
    let name = match callee_name_of(func, krate) {
        Some(n) => n,
        None => return None,
    };
    let n = chars_of(name.as_str());
    if vec_has(&n, "MaybeUninit") && (vec_has(&n, "::uninit") || vec_has(&n, "::zeroed")) {
        Some(UninitApi::MaybeUninit)
    } else if vec_has(&n, "MaybeUninit") && vec_has(&n, "::write") {
        Some(UninitApi::MaybeUninitWrite)
    } else if vec_has(&n, "MaybeUninit") && vec_has(&n, "::assume_init") {
        Some(UninitApi::AssumeInit)
    } else if vec_has(&n, "mem::uninitialized") || vec_has(&n, "mem::zeroed") {
        Some(UninitApi::Uninitialized)
    } else if vec_has(&n, "as_mut_ptr") && vec_has(&n, "MaybeUninit") {
        Some(UninitApi::PtrWrite)
    } else {
        None
    }
}

pub open spec fn is_mem_drop_spec(func: FnOperand, krate: TranslatedCrate) -> bool {
    match callee_name(func, krate) {
        Some(n) => has_prefix(n, "std::mem::drop"@) || has_prefix(n, "core::mem::drop"@),
        None => false,
    }
}

pub open spec fn is_drop_in_place_spec(func: FnOperand, krate: TranslatedCrate) -> bool {
    match callee_name(func, krate) {
        Some(n) => has_sub(n, "ptr::drop_in_place"@),
        None => false,
    }
}

/// Whether a call is `std::mem::drop` or `core::mem::drop`.
fn is_mem_drop(func: &FnOperand, krate: &TranslatedCrate) -> (r: bool)
    ensures
        r == is_mem_drop_spec(*func, *krate),
{
    match callee_name_of(func, krate) {
        Some(name) => {
            let n = chars_of(name.as_str());
            vec_starts(&n, "std::mem::drop") || vec_starts(&n, "core::mem::drop")
        },
        None => false,
    }
}

/// Whether a call is a `ptr::drop_in_place`.
fn is_drop_in_place(func: &FnOperand, krate: &TranslatedCrate) -> (r: bool)
    ensures
        r == is_drop_in_place_spec(*func, *krate),
{
    match callee_name_of(func, krate) {
        Some(name) => {
            let n = chars_of(name.as_str());
            vec_has(&n, "ptr::drop_in_place")
        },
        None => false,
    }
}

/// A drop, automatic or by hand, of a place.
#[derive(Debug)]
pub struct DropSite {
    pub loc: Location,
    pub place: Place,
}

/// The place that block `b` drops, if its terminator drops one: a drop, or a
/// call of `mem::drop` or `drop_in_place` on a place.
pub open spec fn dropped_at(krate: TranslatedCrate, body: ExprBody, b: int) -> Option<Place> {
    match body.body@[b].terminator.kind {
        TerminatorKind::Drop { place, .. } => Some(place),
        TerminatorKind::Call { call, .. } => if (is_mem_drop_spec(call.func, krate) || is_drop_in_place_spec(
            call.func,
            krate,
        )) && call.args@.len() > 0 {
            match call.args@[0] {
                Operand::Move(p) | Operand::Copy(p) => Some(p),
                Operand::Const(_) => None,
            }
        } else {
            None
        },
        _ => None,
    }
}

/// The drops of the first `n` blocks, as places and terminator locations.
pub open spec fn drops_upto(krate: TranslatedCrate, body: ExprBody, n: int) -> Seq<(Location, Place)>
    decreases n,
{
    if n <= 0 {
        Seq::empty()
    } else {
        match dropped_at(krate, body, n - 1) {
            Some(p) => drops_upto(krate, body, n - 1).push(
                (Location { block: (n - 1) as usize, statement_index: body.body@[n - 1].statements@.len() as usize }, p),
            ),
            None => drops_upto(krate, body, n - 1),
        }
    }
}

pub open spec fn drop_views(d: Seq<DropSite>) -> Seq<(Location, Place)> {
    Seq::new(d.len(), |i: int| (d[i].loc, d[i].place))
}

/// Every drop of a function's body, in the order of its blocks; none where it has no body.
fn collect_drops(fun_decl: &FunDecl, krate: &TranslatedCrate) -> (r: Vec<DropSite>)
    ensures
        drop_views(r@) == match fun_decl.body {
            Some(body) => drops_upto(*krate, body, body.body@.len() as int),
            None => Seq::empty(),
        },
{
    let mut drops: Vec<DropSite> = Vec::new();
    let body = match &fun_decl.body {
        Some(b) => b,
        None => {
            assert(drop_views(drops@) =~= Seq::<(Location, Place)>::empty());
            return drops;
        },
    };
    let mut b: usize = 0;
    while b < body.body.len()
        invariant
            b <= body.body@.len(),
            drop_views(drops@) == drops_upto(*krate, *body, b as int),
        decreases body.body@.len() - b,
    {
        let block = &body.body[b];
        let loc = Location::new(b, block.statements.len());
        let ghost before = drops@;
        match &block.terminator.kind {
            TerminatorKind::Drop { place, .. } => {
                drops.push(DropSite { loc, place: copy_place(place) });
            },
            TerminatorKind::Call { call, .. } => {
                if (is_mem_drop(&call.func, krate) || is_drop_in_place(&call.func, krate)) && call.args.len() > 0 {
                    match &call.args[0] {
                        Operand::Move(p) | Operand::Copy(p) => {
                            drops.push(DropSite { loc, place: copy_place(p) });
                        },
                        Operand::Const(_) => {},
                    }
                }
            },
            _ => {},
        }
        assert(drop_views(drops@) =~= drops_upto(*krate, *body, b + 1));
        b = b + 1;
    }
    drops
}

/// A scalar type, or a reference or raw pointer to one.
pub open spec fn simple_ty(t: Ty) -> bool
    decreases t,
{
    match t.kind {
        TyKind::Literal(_) => true,
        TyKind::Ref(inner) => simple_ty(*inner),
        TyKind::RawPtr(inner) => simple_ty(*inner),
        _ => false,
    }
}

/// Whether a type is scalar, or a reference or raw pointer to a scalar.
fn is_simple_ty(ty: &Ty) -> (r: bool)
    ensures
        r == simple_ty(*ty),
    decreases ty,
{
    match &ty.kind {
        TyKind::Literal(_) => true,
        TyKind::Ref(inner) => is_simple_ty(inner),
        TyKind::RawPtr(inner) => is_simple_ty(inner),
        _ => false,
    }
}

/// A call of an uninitialised-memory API.
#[derive(Debug)]
pub struct UninitCallSite {
    pub api: UninitApi,
    pub loc: Location,
    /// The call's destination, as its local with the destination's type.
    pub dest: Option<Place>,
    /// The place of the first argument, if it is one.
    pub first_arg: Option<Place>,
}

/// The calls of each function that has some, one entry per function.
pub type UninitCallSites = Vec<(FunDeclId, Vec<UninitCallSite>)>;

/// The uninitialised-memory call that block `b` ends in, if it is one.
pub open spec fn uninit_site_of(krate: TranslatedCrate, body: ExprBody, b: int) -> Option<UninitCallSite> {
    match body.body@[b].terminator.kind {
        TerminatorKind::Call { call, .. } => match uninit_api_spec(call.func, krate) {
            Some(api) => Some(
                UninitCallSite {
                    api,
                    loc: Location { block: b as usize, statement_index: body.body@[b].statements@.len() as usize },
                    dest: match base_local(call.dest) {
                        Some(l) => Some(Place { kind: PlaceKind::Local(l), ty: call.dest.ty }),
                        None => None,
                    },
                    first_arg: if call.args@.len() > 0 {
                        match call.args@[0] {
                            Operand::Copy(p) | Operand::Move(p) => Some(p),
                            Operand::Const(_) => None,
                        }
                    } else {
                        None
                    },
                },
            ),
            None => None,
        },
        _ => None,
    }
}

/// The uninitialised-memory calls of the first `n` blocks, in order.
pub open spec fn uninit_sites_upto(krate: TranslatedCrate, body: ExprBody, n: int) -> Seq<UninitCallSite>
    decreases n,
{
    if n <= 0 {
        Seq::empty()
    } else {
        match uninit_site_of(krate, body, n - 1) {
            Some(s) => uninit_sites_upto(krate, body, n - 1).push(s),
            None => uninit_sites_upto(krate, body, n - 1),
        }
    }
}

/// Each call lies in the body of its function.
pub open spec fn uninit_sites_valid(krate: TranslatedCrate, sites: Seq<(FunDeclId, Vec<UninitCallSite>)>) -> bool {
    forall|i: int, j: int|
        0 <= i < sites.len() && 0 <= j < sites[i].1@.len() ==> match krate.body_of(sites[i].0 as int) {
            Some(body) => (#[trigger] sites[i].1@[j]).loc.block < body.body@.len(),
            None => true,
        }
}

/// Every uninitialised-memory call of the crate's local functions, grouped
/// by function in order, each group in the order of its blocks.
pub fn collect_uninit_callsites(krate: &TranslatedCrate) -> (r: UninitCallSites)
    ensures
        uninit_sites_valid(*krate, r@),
        forall|i: int|
            0 <= i < r@.len() ==> {
                let f = (#[trigger] r@[i]).0 as int;
                &&& r@[i].1@.len() > 0
                &&& krate.fun_decl(f) is Some
                &&& krate.fun_decl(f)->0.is_local
                &&& krate.fun_decl(f)->0.body is Some
                &&& r@[i].1@ == uninit_sites_upto(
                    *krate,
                    krate.fun_decl(f)->0.body->0,
                    krate.fun_decl(f)->0.body->0.body@.len() as int,
                )
            },
{
    let mut result: UninitCallSites = Vec::new();
    let n = krate.fun_decls.len();
    let mut f: usize = 0;
    while f < n
        invariant
            f <= n,
            n == krate.fun_decls@.len(),
            uninit_sites_valid(*krate, result@),
            forall|i: int|
                0 <= i < result@.len() ==> {
                    let g = (#[trigger] result@[i]).0 as int;
                    &&& result@[i].1@.len() > 0
                    &&& krate.fun_decl(g) is Some
                    &&& krate.fun_decl(g)->0.is_local
                    &&& krate.fun_decl(g)->0.body is Some
                    &&& result@[i].1@ == uninit_sites_upto(
                        *krate,
                        krate.fun_decl(g)->0.body->0,
                        krate.fun_decl(g)->0.body->0.body@.len() as int,
                    )
                },
        decreases n - f,
    {
        match &krate.fun_decls[f] {
            Some(decl) => {
                if decl.is_local {
                    match &decl.body {
                        Some(body) => {
                            let mut sites: Vec<UninitCallSite> = Vec::new();
                            let mut b: usize = 0;
                            while b < body.body.len()
                                invariant
                                    b <= body.body@.len(),
                                    sites@ == uninit_sites_upto(*krate, *body, b as int),
                                    forall|k: int| 0 <= k < sites@.len() ==> (#[trigger] sites@[k]).loc.block < body.body@.len(),
                                decreases body.body@.len() - b,
                            {
                                let block = &body.body[b];
                                match &block.terminator.kind {
                                    TerminatorKind::Call { call, .. } => match classify_uninit_api(&call.func, krate) {
                                        Some(api) => {
                                            let dest = match call.dest.local_id() {
                                                Some(l) => Some(Place { kind: PlaceKind::Local(l), ty: copy_ty(&call.dest.ty) }),
                                                None => None,
                                            };
                                            let first_arg = if call.args.len() > 0 {
                                                match &call.args[0] {
                                                    Operand::Copy(p) | Operand::Move(p) => Some(copy_place(p)),
                                                    Operand::Const(_) => None,
                                                }
                                            } else {
                                                None
                                            };
                                            sites.push(
                                                UninitCallSite { api, loc: Location::new(b, block.statements.len()), dest, first_arg },
                                            );
                                        },
                                        None => {},
                                    },
                                    _ => {},
                                }
                                b = b + 1;
                            }
                            if sites.len() > 0 {
                                let ghost before = result@;
                                result.push((f, sites));
                                proof {
                                    assert forall|i: int| 0 <= i < result@.len() implies {
                                        let g = (#[trigger] result@[i]).0 as int;
                                        &&& result@[i].1@.len() > 0
                                        &&& krate.fun_decl(g) is Some
                                        &&& krate.fun_decl(g)->0.is_local
                                        &&& krate.fun_decl(g)->0.body is Some
                                        &&& result@[i].1@ == uninit_sites_upto(
                                            *krate,
                                            krate.fun_decl(g)->0.body->0,
                                            krate.fun_decl(g)->0.body->0.body@.len() as int,
                                        )
                                    } by {
                                        if i < before.len() {
                                            assert(result@[i] == before[i]);
                                        }
                                    }
                                }
                            }
                        },
                        None => {},
                    }
                }
            },
            None => {},
        }
        f = f + 1;
    }
    result
}

// ---------------------------------------------------------------------------
// Flow of values between locals
// ---------------------------------------------------------------------------

/// The locals whose value an rvalue passes on: a plain copy or move, a
/// borrow, a raw pointer, or the parts of an aggregate.
pub open spec fn flow_sources(rv: Rvalue, s: Set<LocalId>) -> bool {
    match rv {
        Rvalue::Use(o) => match o {
            Operand::Move(p) | Operand::Copy(p) => match base_local(p) {
                Some(l) => s.contains(l),
                None => false,
            },
            Operand::Const(_) => false,
        },
        Rvalue::Ref(p) | Rvalue::RawPtr(p) => match base_local(p) {
            Some(l) => s.contains(l),
            None => false,
        },
        Rvalue::Aggregate(ops) => exists|i: int|
            0 <= i < ops@.len() && match #[trigger] ops@[i] {
                Operand::Move(p) | Operand::Copy(p) => match base_local(p) {
                    Some(l) => s.contains(l),
                    None => false,
                },
                Operand::Const(_) => false,
            },
        _ => false,
    }
}

/// Statement `i` of block `b` assigns local `l` a value that flows from a local of `s`.
pub open spec fn flows(body: ExprBody, s: Set<LocalId>, b: int, i: int, l: LocalId) -> bool {
    &&& 0 <= b < body.body@.len()
    &&& 0 <= i < body.body@[b].statements@.len()
    &&& match body.body@[b].statements@[i].kind {
        StatementKind::Assign(dest, rv) => base_local(dest) == Some(l) && flow_sources(rv, s),
        _ => false,
    }
}

/// `s` holds every local that a value of `s` flows into.
pub open spec fn flow_closed(body: ExprBody, s: Set<LocalId>) -> bool {
    forall|b: int, i: int, l: LocalId| #[trigger] flows(body, s, b, i, l) ==> s.contains(l)
}

/// The locals that `start` flows into: those in every closed set that holds it.
pub open spec fn flow_set(body: ExprBody, start: LocalId) -> Set<LocalId> {
    Set::new(|x: LocalId| forall|s: Set<LocalId>| #[trigger] flow_closed(body, s) && s.contains(start) ==> s.contains(x))
}

proof fn lemma_flow_sources_mono(rv: Rvalue, s1: Set<LocalId>, s2: Set<LocalId>)
    requires
        s1.subset_of(s2),
        flow_sources(rv, s1),
    ensures
        flow_sources(rv, s2),
{
    match rv {
        Rvalue::Aggregate(ops) => {
            let i = choose|i: int|
                0 <= i < ops@.len() && match #[trigger] ops@[i] {
                    Operand::Move(p) | Operand::Copy(p) => match base_local(p) {
                        Some(l) => s1.contains(l),
                        None => false,
                    },
                    Operand::Const(_) => false,
                };
            assert(match ops@[i] {
                Operand::Move(p) | Operand::Copy(p) => match base_local(p) {
                    Some(l) => s2.contains(l),
                    None => false,
                },
                Operand::Const(_) => false,
            });
        },
        _ => {},
    }
}

/// Whether a value of one of `set`'s locals flows through `rv`.
fn flows_from(rv: &Rvalue, set: &Vec<LocalId>) -> (r: bool)
    ensures
        r == flow_sources(*rv, set@.to_set()),
{
    match rv {
        Rvalue::Use(o) => match o {
            Operand::Move(p) | Operand::Copy(p) => match p.local_id() {
                Some(l) => crate::seqs::vec_contains(set, l),
                None => false,
            },
            Operand::Const(_) => false,
        },
        Rvalue::Ref(p) | Rvalue::RawPtr(p) => match p.local_id() {
            Some(l) => crate::seqs::vec_contains(set, l),
            None => false,
        },
        Rvalue::Aggregate(ops) => aggregate_flows(ops, set),
        _ => false,
    }
}

fn aggregate_flows(ops: &Vec<Operand>, set: &Vec<LocalId>) -> (r: bool)
    ensures
        r == exists|i: int|
            0 <= i < ops@.len() && match #[trigger] ops@[i] {
                Operand::Move(p) | Operand::Copy(p) => match base_local(p) {
                    Some(l) => set@.to_set().contains(l),
                    None => false,
                },
                Operand::Const(_) => false,
            },
{
    let mut i: usize = 0;
    while i < ops.len()
        invariant
            i <= ops@.len(),
            forall|k: int|
                0 <= k < i ==> !match #[trigger] ops@[k] {
                    Operand::Move(p) | Operand::Copy(p) => match base_local(p) {
                        Some(l) => set@.to_set().contains(l),
                        None => false,
                    },
                    Operand::Const(_) => false,
                },
        decreases ops@.len() - i,
    {
        let hit = match &ops[i] {
            Operand::Move(p) | Operand::Copy(p) => match p.local_id() {
                Some(l) => crate::seqs::vec_contains(set, l),
                None => false,
            },
            Operand::Const(_) => false,
        };
        if hit {
            return true;
        }
        i = i + 1;
    }
    false
}

/// Every local that the value of `start` flows into through plain copies,
/// moves, borrows, raw pointers and aggregates, `start` included.
fn assignment_closure(start: LocalId, body: &ExprBody) -> (r: Vec<LocalId>)
    ensures
        r@.to_set() == flow_set(*body, start),
{
    let mut set: Vec<LocalId> = Vec::new();
    set.push(start);
    let ghost u = crate::lockbud::atomic::blocks_dests(body.body@).push(start);
    let mut changed = true;
    while changed
        invariant
            set@.no_duplicates(),
            set@.contains(start),
            u == crate::lockbud::atomic::blocks_dests(body.body@).push(start),
            forall|x: LocalId| #[trigger] set@.contains(x) ==> u.contains(x),
            forall|s: Set<LocalId>| #[trigger] flow_closed(*body, s) && s.contains(start) ==> set@.to_set().subset_of(s),
            !changed ==> flow_closed(*body, set@.to_set()),
        decreases u.len() - set@.len() + if changed {
            1int
        } else {
            0int
        },
    {
        proof {
            crate::seqs::lemma_nodup_subset_len(set@, u);
        }
        changed = false;
        let ghost start_set = set@;
        let mut b: usize = 0;
        while b < body.body.len()
            invariant
                b <= body.body@.len(),
                set@.no_duplicates(),
                set@.contains(start),
                u == crate::lockbud::atomic::blocks_dests(body.body@).push(start),
                forall|x: LocalId| #[trigger] set@.contains(x) ==> u.contains(x),
                forall|s: Set<LocalId>| #[trigger] flow_closed(*body, s) && s.contains(start) ==> set@.to_set().subset_of(s),
                !changed ==> set@ == start_set,
                changed ==> set@.len() > start_set.len(),
                !changed ==> forall|bb: int, i: int, l: LocalId|
                    bb < b && #[trigger] flows(*body, set@.to_set(), bb, i, l) ==> set@.contains(l),
            decreases body.body@.len() - b,
        {
            let block = &body.body[b];
            let mut i: usize = 0;
            while i < block.statements.len()
                invariant
                    b < body.body@.len(),
                    *block == body.body@[b as int],
                    i <= block.statements@.len(),
                    set@.no_duplicates(),
                    set@.contains(start),
                    u == crate::lockbud::atomic::blocks_dests(body.body@).push(start),
                    forall|x: LocalId| #[trigger] set@.contains(x) ==> u.contains(x),
                    forall|s: Set<LocalId>| #[trigger] flow_closed(*body, s) && s.contains(start) ==> set@.to_set().subset_of(s),
                    !changed ==> set@ == start_set,
                    changed ==> set@.len() > start_set.len(),
                    !changed ==> forall|bb: int, ii: int, l: LocalId|
                        (bb < b || (bb == b && ii < i)) && #[trigger] flows(*body, set@.to_set(), bb, ii, l) ==> set@.contains(l),
                decreases block.statements@.len() - i,
            {
                match &block.statements[i].kind {
                    StatementKind::Assign(dest, rvalue) => {
                        match dest.local_id() {
                            Some(dest_local) => {
                                if !crate::seqs::vec_contains(&set, dest_local) && flows_from(rvalue, &set) {
                                    let ghost before = set@;
                                    proof {
                                        crate::seqs::lemma_push_nodup(before, dest_local);
                                        crate::lockbud::atomic::lemma_block_dest_in(body.body@, b as int, i as int, dest_local);
                                        assert forall|s: Set<LocalId>| #[trigger] flow_closed(*body, s) && s.contains(start) implies before.push(
                                            dest_local,
                                        ).to_set().subset_of(s) by {
                                            assert(before.to_set().subset_of(s));
                                            match body.body@[b as int].statements@[i as int].kind {
                                                StatementKind::Assign(_, rv) => {
                                                    lemma_flow_sources_mono(rv, before.to_set(), s);
                                                },
                                                _ => {},
                                            }
                                            assert(flows(*body, s, b as int, i as int, dest_local));
                                        }
                                    }
                                    set.push(dest_local);
                                    changed = true;
                                }
                            },
                            None => {},
                        }
                    },
                    _ => {},
                }
                i = i + 1;
            }
            b = b + 1;
        }
        proof {
            crate::seqs::lemma_nodup_subset_len(set@, u);
        }
    }
    proof {
        assert(set@.to_set() =~= flow_set(*body, start)) by {
            assert forall|x: LocalId| #[trigger] set@.to_set().contains(x) implies flow_set(*body, start).contains(x) by {
                assert forall|s: Set<LocalId>| #[trigger] flow_closed(*body, s) && s.contains(start) implies s.contains(x) by {
                    assert(set@.to_set().subset_of(s));
                }
            }
            assert forall|x: LocalId| flow_set(*body, start).contains(x) implies #[trigger] set@.to_set().contains(x) by {
                assert(flow_closed(*body, set@.to_set()));
                assert(set@.to_set().contains(start));
            }
        }
    }
    set
}

/// Some drop drops a local that the value of `place`'s local flows into.
pub open spec fn drop_aliases_spec(place: Place, drops: Seq<DropSite>, body: ExprBody) -> bool {
    match base_local(place) {
        Some(l) => exists|i: int|
            0 <= i < drops.len() && match base_local((#[trigger] drops[i]).place) {
                Some(d) => flow_set(body, l).contains(d),
                None => false,
            },
        None => false,
    }
}

/// Whether some drop drops a local that the value of `place` flows into.
fn any_drop_aliases(place: &Place, drops: &Vec<DropSite>, body: &ExprBody) -> (r: bool)
    ensures
        r == drop_aliases_spec(*place, drops@, *body),
{
    let start_local = match place.local_id() {
        Some(l) => l,
        None => return false,
    };
    let reachable = assignment_closure(start_local, body);
    let mut i: usize = 0;
    while i < drops.len()
        invariant
            i <= drops@.len(),
            reachable@.to_set() == flow_set(*body, start_local),
            base_local(*place) == Some(start_local),
            forall|k: int|
                0 <= k < i ==> !match base_local((#[trigger] drops@[k]).place) {
                    Some(d) => flow_set(*body, start_local).contains(d),
                    None => false,
                },
        decreases drops@.len() - i,
    {
        match drops[i].place.local_id() {
            Some(l) => {
                if crate::seqs::vec_contains(&reachable, l) {
                    assert(flow_set(*body, start_local).contains(l));
                    assert(base_local(drops@[i as int].place) == Some(l));
                    return true;
                }
            },
            None => {},
        }
        i = i + 1;
    }
    false
}

/// Two places may be the same: they are the same place, or the same plain local.
pub open spec fn may_alias(a: Place, b: Place) -> bool {
    same_place(a, b) || (a.kind is Local && b.kind is Local && a.kind->Local_0 == b.kind->Local_0)
}

fn places_may_alias(a: &Place, b: &Place) -> (r: bool)
    ensures
        r == may_alias(*a, *b),
{
    if place_eq(a, b) {
        return true;
    }
    match (&a.kind, &b.kind) {
        (PlaceKind::Local(la), PlaceKind::Local(lb)) => *la == *lb,
        _ => false,
    }
}

// ---------------------------------------------------------------------------
// Reachability between locations
// ---------------------------------------------------------------------------

/// The jumps between the blocks of a body.
pub open spec fn cfg_edges(body: ExprBody) -> Set<(BlockId, BlockId)> {
    Set::new(
        |e: (BlockId, BlockId)|
            0 <= e.0 < body.body@.len() && successors(body.body@[e.0 as int].terminator.kind).contains(e.1),
    )
}

/// Control can pass from `from` to `to`: later in the same block, or along jumps to another block.
pub open spec fn loc_reachable(body: ExprBody, from: Location, to: Location) -> bool {
    if from.block == to.block {
        from.statement_index <= to.statement_index
    } else {
        reaches(cfg_edges(body), from.block, to.block)
    }
}

/// The control-flow graph of a body, as a graph over block identifiers.
fn build_cfg(body: &ExprBody) -> (r: CallGraph)
    ensures
        r.wf(),
        r.edge_set() == cfg_edges(*body),
{
    let mut edges: Vec<(BlockId, BlockId)> = Vec::new();
    let mut b: usize = 0;
    while b < body.body.len()
        invariant
            b <= body.body@.len(),
            edges@.no_duplicates(),
            forall|e: (BlockId, BlockId)| #[trigger] edges@.contains(e) <==> (e.0 < b && cfg_edges(*body).contains(e)),
        decreases body.body@.len() - b,
    {
        let succs = terminator_successors(&body.body[b].terminator.kind);
        let ghost ss = successors(body.body@[b as int].terminator.kind);
        let ghost start = edges@;
        let mut j: usize = 0;
        while j < succs.len()
            invariant
                b < body.body@.len(),
                succs@ == ss,
                ss == successors(body.body@[b as int].terminator.kind),
                j <= ss.len(),
                edges@.no_duplicates(),
                forall|e: (BlockId, BlockId)| #[trigger] edges@.contains(e) <==> (start.contains(e) || (e.0 == b
                    && ss.subrange(0, j as int).contains(e.1))),
                forall|e: (BlockId, BlockId)| #[trigger] start.contains(e) <==> (e.0 < b && cfg_edges(*body).contains(e)),
            decreases ss.len() - j,
        {
            let e = (b, succs[j]);
            let mut found = false;
            let mut k: usize = 0;
            while k < edges.len()
                invariant
                    k <= edges@.len(),
                    found == edges@.subrange(0, k as int).contains(e),
                decreases edges@.len() - k,
            {
                if edges[k].0 == e.0 && edges[k].1 == e.1 {
                    found = true;
                }
                assert(edges@.subrange(0, k + 1) == edges@.subrange(0, k as int).push(edges@[k as int]));
                k = k + 1;
            }
            assert(edges@.subrange(0, edges@.len() as int) =~= edges@);
            if !found {
                proof {
                    crate::seqs::lemma_push_nodup(edges@, e);
                }
                edges.push(e);
            }
            proof {
                assert(ss.subrange(0, j + 1) == ss.subrange(0, j as int).push(ss[j as int]));
            }
            j = j + 1;
        }
        proof {
            assert(ss.subrange(0, ss.len() as int) =~= ss);
            assert forall|e: (BlockId, BlockId)| #[trigger] edges@.contains(e) <==> (e.0 < b + 1 && cfg_edges(*body).contains(e)) by {
                if e.0 == b && cfg_edges(*body).contains(e) {
                    assert(ss.contains(e.1));
                }
            }
        }
        b = b + 1;
    }
    let r = CallGraph { edges, callsites: Vec::new() };
    assert(r.edge_set() =~= cfg_edges(*body));
    r
}

/// Whether control can pass from `from` to `to`.
pub fn is_reachable(from: Location, to: Location, body: &ExprBody) -> (r: bool)
    ensures
        r == loc_reachable(*body, from, to),
{
    if from.block == to.block {
        return from.statement_index <= to.statement_index;
    }
    let cfg = build_cfg(body);
    cfg.can_reach(from.block, to.block)
}


// ---------------------------------------------------------------------------
// Uses of locals
// ---------------------------------------------------------------------------

/// The local as a sequence of at most one element.
pub open spec fn opt_local(l: Option<LocalId>) -> Seq<LocalId> {
    match l {
        Some(x) => seq![x],
        None => Seq::empty(),
    }
}

/// The locals that a list of operands reads, in order.
pub open spec fn operands_reads(ops: Seq<Operand>) -> Seq<LocalId>
    decreases ops.len(),
{
    if ops.len() == 0 {
        Seq::empty()
    } else {
        operands_reads(ops.drop_last()) + opt_local(operand_local_spec(ops.last()))
    }
}

/// The locals that an rvalue reads, in order, one entry per occurrence.
pub open spec fn rvalue_reads(rv: Rvalue) -> Seq<LocalId> {
    match rv {
        Rvalue::Use(op) => opt_local(operand_local_spec(op)),
        Rvalue::Ref(p) => opt_local(base_local(p)),
        Rvalue::RawPtr(p) => opt_local(base_local(p)),
        Rvalue::BinaryOp(a, b) => opt_local(operand_local_spec(a)) + opt_local(operand_local_spec(b)),
        Rvalue::UnaryOp(op) => opt_local(operand_local_spec(op)),
        Rvalue::Aggregate(ops) => operands_reads(ops@),
        Rvalue::Discriminant(p) => opt_local(base_local(p)),
        Rvalue::Len(p) => opt_local(base_local(p)),
        Rvalue::NullaryOp => Seq::empty(),
        Rvalue::Repeat(op) => opt_local(operand_local_spec(op)),
        Rvalue::ShallowInitBox(op) => opt_local(operand_local_spec(op)),
    }
}

/// The locals that a terminator reads: a call's arguments, a switch's
/// discriminant, a dropped place.
pub open spec fn terminator_reads(k: TerminatorKind) -> Seq<LocalId> {
    match k {
        TerminatorKind::Call { call, .. } => operands_reads(call.args@),
        TerminatorKind::Switch { discr, .. } => opt_local(operand_local_spec(discr)),
        TerminatorKind::Drop { place, .. } => opt_local(base_local(place)),
        _ => Seq::empty(),
    }
}

/// Each local paired with a location.
pub open spec fn at_loc(ls: Seq<LocalId>, loc: Location) -> Seq<(LocalId, Location)> {
    Seq::new(ls.len(), |i: int| (ls[i], loc))
}

/// The locals that statement `i` of block `b` reads.
pub open spec fn stmt_reads(body: ExprBody, b: int, i: int) -> Seq<LocalId> {
    match body.body@[b].statements@[i].kind {
        StatementKind::Assign(_, rv) => rvalue_reads(rv),
        _ => Seq::empty(),
    }
}

/// The uses in the first `n` statements of block `b`.
pub open spec fn stmts_uses(body: ExprBody, b: int, n: int) -> Seq<(LocalId, Location)>
    decreases n,
{
    if n <= 0 {
        Seq::empty()
    } else {
        stmts_uses(body, b, n - 1) + at_loc(
            stmt_reads(body, b, n - 1),
            Location { block: b as usize, statement_index: (n - 1) as usize },
        )
    }
}

/// The uses in the first `n` blocks, statements first and then the
/// terminator of each block, in order.
pub open spec fn uses_upto(body: ExprBody, n: int) -> Seq<(LocalId, Location)>
    decreases n,
{
    if n <= 0 {
        Seq::empty()
    } else {
        let b = n - 1;
        let len = body.body@[b].statements@.len();
        uses_upto(body, b) + stmts_uses(body, b, len as int) + at_loc(
            terminator_reads(body.body@[b].terminator.kind),
            Location { block: b as usize, statement_index: len as usize },
        )
    }
}

proof fn lemma_stmts_uses_block(body: ExprBody, b: int, n: int)
    requires
        0 <= b,
        b <= usize::MAX,
    ensures
        forall|k: int| 0 <= k < stmts_uses(body, b, n).len() ==> (#[trigger] stmts_uses(body, b, n)[k]).1.block == b,
    decreases n,
{
    if n > 0 {
        lemma_stmts_uses_block(body, b, n - 1);
        let a = stmts_uses(body, b, n - 1);
        let t = at_loc(stmt_reads(body, b, n - 1), Location { block: b as usize, statement_index: (n - 1) as usize });
        assert forall|k: int| 0 <= k < stmts_uses(body, b, n).len() implies (#[trigger] stmts_uses(body, b, n)[k]).1.block == b by {
            if k < a.len() {
                assert(stmts_uses(body, b, n)[k] == a[k]);
            } else {
                assert(stmts_uses(body, b, n)[k] == t[k - a.len()]);
            }
        }
    }
}

/// Every use lies in one of the first `n` blocks.
proof fn lemma_uses_upto_blocks(body: ExprBody, n: int)
    requires
        n <= body.body@.len(),
        body.body@.len() <= usize::MAX,
    ensures
        forall|k: int| 0 <= k < uses_upto(body, n).len() ==> (#[trigger] uses_upto(body, n)[k]).1.block < n,
    decreases n,
{
    if n > 0 {
        lemma_uses_upto_blocks(body, n - 1);
        let b = n - 1;
        let len = body.body@[b].statements@.len();
        lemma_stmts_uses_block(body, b, len as int);
        let a = uses_upto(body, b);
        let m = stmts_uses(body, b, len as int);
        let t = at_loc(
            terminator_reads(body.body@[b].terminator.kind),
            Location { block: b as usize, statement_index: len as usize },
        );
        assert forall|k: int| 0 <= k < uses_upto(body, n).len() implies (#[trigger] uses_upto(body, n)[k]).1.block < n by {
            if k < a.len() {
                assert(uses_upto(body, n)[k] == a[k]);
            } else if k < a.len() + m.len() {
                assert(uses_upto(body, n)[k] == m[k - a.len()]);
            } else {
                assert(uses_upto(body, n)[k] == t[k - a.len() - m.len()]);
            }
        }
    }
}

/// The locals that a list of operands reads, in order.
fn operands_locals(ops: &Vec<Operand>) -> (r: Vec<LocalId>)
    ensures
        r@ == operands_reads(ops@),
{
    let mut r: Vec<LocalId> = Vec::new();
    let mut i: usize = 0;
    while i < ops.len()
        invariant
            i <= ops@.len(),
            r@ == operands_reads(ops@.subrange(0, i as int)),
        decreases ops@.len() - i,
    {
        assert(ops@.subrange(0, i + 1).drop_last() =~= ops@.subrange(0, i as int));
        match operand_local(&ops[i]) {
            Some(l) => {
                r.push(l);
            },
            None => {},
        }
        i = i + 1;
        assert(r@ =~= operands_reads(ops@.subrange(0, i as int)));
    }
    assert(ops@.subrange(0, ops@.len() as int) =~= ops@);
    r
}

fn opt_vec(l: Option<LocalId>) -> (r: Vec<LocalId>)
    ensures
        r@ == opt_local(l),
{
    match l {
        Some(x) => vec![x],
        None => Vec::new(),
    }
}

/// The locals that an rvalue reads, in order.
fn collect_rvalue_locals(rvalue: &Rvalue) -> (r: Vec<LocalId>)
    ensures
        r@ == rvalue_reads(*rvalue),
{
    match rvalue {
        Rvalue::Use(op) => opt_vec(operand_local(op)),
        Rvalue::Ref(place) => opt_vec(place.local_id()),
        Rvalue::RawPtr(place) => opt_vec(place.local_id()),
        Rvalue::BinaryOp(a, b) => {
            let mut v = opt_vec(operand_local(a));
            let mut w = opt_vec(operand_local(b));
            v.append(&mut w);
            v
        },
        Rvalue::UnaryOp(op) => opt_vec(operand_local(op)),
        Rvalue::Aggregate(ops) => operands_locals(ops),
        Rvalue::Discriminant(place) => opt_vec(place.local_id()),
        Rvalue::Len(place) => opt_vec(place.local_id()),
        Rvalue::NullaryOp => Vec::new(),
        Rvalue::Repeat(op) => opt_vec(operand_local(op)),
        Rvalue::ShallowInitBox(op) => opt_vec(operand_local(op)),
    }
}

/// Appends each local with the location.
fn push_uses(uses: &mut Vec<(LocalId, Location)>, ls: &Vec<LocalId>, loc: Location)
    ensures
        final(uses)@ == old(uses)@ + at_loc(ls@, loc),
{
    let ghost start = uses@;
    let mut i: usize = 0;
    while i < ls.len()
        invariant
            i <= ls@.len(),
            uses@ == start + at_loc(ls@.subrange(0, i as int), loc),
        decreases ls@.len() - i,
    {
        uses.push((ls[i], loc));
        i = i + 1;
        assert(uses@ =~= start + at_loc(ls@.subrange(0, i as int), loc));
    }
    assert(ls@.subrange(0, ls@.len() as int) =~= ls@);
}

/// Every use of a local in a body, with its location, in the order of the
/// blocks; within a block, the statements' uses come before the terminator's.
fn collect_uses(body: &ExprBody) -> (r: Vec<(LocalId, Location)>)
    ensures
        r@ == uses_upto(*body, body.body@.len() as int),
{
    let mut uses: Vec<(LocalId, Location)> = Vec::new();
    let mut b: usize = 0;
    while b < body.body.len()
        invariant
            b <= body.body@.len(),
            uses@ == uses_upto(*body, b as int),
        decreases body.body@.len() - b,
    {
        let block = &body.body[b];
        let mut i: usize = 0;
        while i < block.statements.len()
            invariant
                b < body.body@.len(),
                *block == body.body@[b as int],
                i <= block.statements@.len(),
                uses@ == uses_upto(*body, b as int) + stmts_uses(*body, b as int, i as int),
            decreases block.statements@.len() - i,
        {
            let loc = Location::new(b, i);
            match &block.statements[i].kind {
                StatementKind::Assign(_, rvalue) => {
                    let ls = collect_rvalue_locals(rvalue);
                    push_uses(&mut uses, &ls, loc);
                },
                _ => {
                    assert(at_loc(Seq::<LocalId>::empty(), loc) =~= Seq::<(LocalId, Location)>::empty());
                },
            }
            i = i + 1;
            assert(uses@ =~= uses_upto(*body, b as int) + stmts_uses(*body, b as int, i as int));
        }
        let term_loc = Location::new(b, block.statements.len());
        let ls: Vec<LocalId> = match &block.terminator.kind {
            TerminatorKind::Call { call, .. } => operands_locals(&call.args),
            TerminatorKind::Switch { discr, .. } => opt_vec(operand_local(discr)),
            TerminatorKind::Drop { place, .. } => opt_vec(place.local_id()),
            _ => Vec::new(),
        };
        push_uses(&mut uses, &ls, term_loc);
        b = b + 1;
        assert(uses@ =~= uses_upto(*body, b as int));
    }
    uses
}

// ---------------------------------------------------------------------------
// What a pointer points to
// ---------------------------------------------------------------------------

/// The place that statement `s` makes local `l` point to: a reference or raw
/// pointer taken to a place, or, where `through_copies`, a place copied or
/// moved into `l`.
pub open spec fn stmt_pointee(s: crate::lockbud::ullbc::Statement, l: LocalId, through_copies: bool) -> Seq<Place> {
    match s.kind {
        StatementKind::Assign(dest, rv) => if base_local(dest) == Some(l) {
            match rv {
                Rvalue::Ref(p) => seq![p],
                Rvalue::RawPtr(p) => seq![p],
                Rvalue::Use(Operand::Copy(p)) => if through_copies {
                    seq![p]
                } else {
                    Seq::empty()
                },
                Rvalue::Use(Operand::Move(p)) => if through_copies {
                    seq![p]
                } else {
                    Seq::empty()
                },
                _ => Seq::empty(),
            }
        } else {
            Seq::empty()
        },
        _ => Seq::empty(),
    }
}

pub open spec fn stmts_pointees(ss: Seq<crate::lockbud::ullbc::Statement>, l: LocalId, through_copies: bool) -> Seq<Place>
    decreases ss.len(),
{
    if ss.len() == 0 {
        Seq::empty()
    } else {
        stmts_pointees(ss.drop_last(), l, through_copies) + stmt_pointee(ss.last(), l, through_copies)
    }
}

/// A call that returns into `l` is taken to make it point to the place of its
/// first argument.
pub open spec fn term_pointee(k: TerminatorKind, l: LocalId) -> Seq<Place> {
    match k {
        TerminatorKind::Call { call, .. } => if base_local(call.dest) == Some(l) && call.args@.len() > 0 {
            match call.args@[0] {
                Operand::Copy(p) => seq![p],
                Operand::Move(p) => seq![p],
                Operand::Const(_) => Seq::empty(),
            }
        } else {
            Seq::empty()
        },
        _ => Seq::empty(),
    }
}

/// The places that the first `n` blocks make `l` point to, in order.
pub open spec fn pointees_upto(body: ExprBody, l: LocalId, through_copies: bool, n: int) -> Seq<Place>
    decreases n,
{
    if n <= 0 {
        Seq::empty()
    } else {
        pointees_upto(body, l, through_copies, n - 1) + stmts_pointees(
            body.body@[n - 1].statements@,
            l,
            through_copies,
        ) + term_pointee(body.body@[n - 1].terminator.kind, l)
    }
}

fn assigned_pointees(l: LocalId, body: &ExprBody, through_copies: bool) -> (r: Vec<Place>)
    ensures
        r@ == pointees_upto(*body, l, through_copies, body.body@.len() as int),
{
    let mut pointees: Vec<Place> = Vec::new();
    let mut b: usize = 0;
    while b < body.body.len()
        invariant
            b <= body.body@.len(),
            pointees@ == pointees_upto(*body, l, through_copies, b as int),
        decreases body.body@.len() - b,
    {
        let block = &body.body[b];
        let ghost ss = block.statements@;
        let mut i: usize = 0;
        while i < block.statements.len()
            invariant
                b < body.body@.len(),
                *block == body.body@[b as int],
                ss == block.statements@,
                i <= ss.len(),
                pointees@ == pointees_upto(*body, l, through_copies, b as int) + stmts_pointees(
                    ss.subrange(0, i as int),
                    l,
                    through_copies,
                ),
            decreases ss.len() - i,
        {
            assert(ss.subrange(0, i + 1).drop_last() =~= ss.subrange(0, i as int));
            let ghost before = pointees@;
            match &block.statements[i].kind {
                StatementKind::Assign(dest, rvalue) => {
                    if dest.local_id() == Some(l) {
                        match rvalue {
                            Rvalue::Ref(p) => pointees.push(copy_place(p)),
                            Rvalue::RawPtr(p) => pointees.push(copy_place(p)),
                            Rvalue::Use(Operand::Copy(p)) => if through_copies {
                                pointees.push(copy_place(p));
                            },
                            Rvalue::Use(Operand::Move(p)) => if through_copies {
                                pointees.push(copy_place(p));
                            },
                            _ => {},
                        }
                    }
                },
                _ => {},
            }
            assert(pointees@ =~= before + stmt_pointee(ss[i as int], l, through_copies));
            i = i + 1;
        }
        assert(ss.subrange(0, ss.len() as int) =~= ss);
        let ghost before = pointees@;
        match &block.terminator.kind {
            TerminatorKind::Call { call, .. } => {
                if call.dest.local_id() == Some(l) && call.args.len() > 0 {
                    match &call.args[0] {
                        Operand::Copy(p) | Operand::Move(p) => pointees.push(copy_place(p)),
                        Operand::Const(_) => {},
                    }
                }
            },
            _ => {},
        }
        assert(pointees@ =~= before + term_pointee(body.body@[b as int].terminator.kind, l));
        b = b + 1;
    }
    pointees
}

/// The places that a raw pointer local may point to: what is borrowed or
/// copied into it, and the first argument of a call that returns into it.
fn find_pointees(raw_local: LocalId, body: &ExprBody) -> (r: Vec<Place>)
    ensures
        r@ == pointees_upto(*body, raw_local, true, body.body@.len() as int),
{
    assigned_pointees(raw_local, body, true)
}

/// The places that a dropped local may point to: what is borrowed into it,
/// and the first argument of a call that returns into it.
fn resolve_drop_pointees(drop_local: LocalId, body: &ExprBody) -> (r: Vec<Place>)
    ensures
        r@ == pointees_upto(*body, drop_local, false, body.body@.len() as int),
{
    assigned_pointees(drop_local, body, false)
}

/// A raw pointer type.
fn is_raw_ptr(ty: &Ty) -> (r: bool)
    ensures
        r == (ty.kind is RawPtr),
{
    match &ty.kind {
        TyKind::RawPtr(_) => true,
        _ => false,
    }
}


// ---------------------------------------------------------------------------
// The detectors
// ---------------------------------------------------------------------------

/// Every drop lies in one of the first `n` blocks.
proof fn lemma_drops_upto_blocks(krate: TranslatedCrate, body: ExprBody, n: int)
    requires
        n <= body.body@.len(),
        body.body@.len() <= usize::MAX,
    ensures
        forall|k: int| 0 <= k < drops_upto(krate, body, n).len() ==> (#[trigger] drops_upto(krate, body, n)[k]).0.block < n,
    decreases n,
{
    if n > 0 {
        lemma_drops_upto_blocks(krate, body, n - 1);
        let a = drops_upto(krate, body, n - 1);
        match dropped_at(krate, body, n - 1) {
            Some(p) => {
                assert forall|k: int| 0 <= k < drops_upto(krate, body, n).len() implies (#[trigger] drops_upto(krate, body, n)[k]).0.block < n by {
                    if k < a.len() {
                        assert(drops_upto(krate, body, n)[k] == a[k]);
                    }
                }
            },
            None => {},
        }
    }
}

pub open spec fn uninitialized_explanation() -> Seq<char> {
    "Call mem::uninitialized() on a non-simple type and the value is dropped"@
}

pub open spec fn assume_init_explanation() -> Seq<char> {
    "MaybeUninit::uninit() followed by assume_init() without write on non-simple type, and dropped"@
}

/// A report of a value that may be freed uninitialised: of one of the two
/// kinds, and naming a type that is not simple.
pub open spec fn is_invalid_free_report(krate: TranslatedCrate, r: Report) -> bool {
    &&& r is InvalidFree
    &&& r->InvalidFree_0.bug_kind@ == "InvalidFree"@
    &&& r->InvalidFree_0.possibility@ == "Possibly"@
    &&& {
        ||| (r->InvalidFree_0.explanation@ == uninitialized_explanation()
            && r->InvalidFree_0.diagnosis.assume_init_span is None)
        ||| (r->InvalidFree_0.explanation@ == assume_init_explanation()
            && r->InvalidFree_0.diagnosis.assume_init_span is Some)
    }
    &&& exists|t: Ty| !simple_ty(t) && r->InvalidFree_0.diagnosis.ty@ == #[trigger] ty_text(krate, t)
}

/// A write of `w` that aliases `dest` and lies between two locations.
pub open spec fn write_between_spec(body: ExprBody, w: UninitCallSite, dest: Place, from: Location, to: Location) -> bool {
    &&& (w.api == UninitApi::MaybeUninitWrite || w.api == UninitApi::PtrWrite)
    &&& w.first_arg is Some
    &&& may_alias(w.first_arg->0, dest)
    &&& loc_reachable(body, from, w.loc)
    &&& loc_reachable(body, w.loc, to)
}

/// Whether some write on `dest` lies between the two locations.
fn has_write_between(callsites: &Vec<UninitCallSite>, dest: &Place, from: Location, to: Location, body: &ExprBody) -> (r: bool)
    ensures
        r == exists|k: int| 0 <= k < callsites@.len() && write_between_spec(*body, #[trigger] callsites@[k], *dest, from, to),
{
    let mut k: usize = 0;
    while k < callsites.len()
        invariant
            k <= callsites@.len(),
            forall|j: int| 0 <= j < k ==> !write_between_spec(*body, #[trigger] callsites@[j], *dest, from, to),
        decreases callsites@.len() - k,
    {
        let w = &callsites[k];
        if w.api == UninitApi::MaybeUninitWrite || w.api == UninitApi::PtrWrite {
            match &w.first_arg {
                Some(wa) => {
                    if places_may_alias(wa, dest) && is_reachable(from, w.loc, body) && is_reachable(w.loc, to, body) {
                        assert(write_between_spec(*body, callsites@[k as int], *dest, from, to));
                        return true;
                    }
                },
                None => {},
            }
        }
        k = k + 1;
    }
    false
}

/// Some drop among `dv` drops what `place` flows into.
pub open spec fn drops_alias(place: Place, dv: Seq<(Location, Place)>, body: ExprBody) -> bool {
    match base_local(place) {
        Some(l) => exists|i: int|
            0 <= i < dv.len() && match base_local((#[trigger] dv[i]).1) {
                Some(d) => flow_set(body, l).contains(d),
                None => false,
            },
        None => false,
    }
}

proof fn lemma_drops_alias(place: Place, d: Seq<DropSite>, body: ExprBody)
    ensures
        drop_aliases_spec(place, d, body) == drops_alias(place, drop_views(d), body),
{
    let dv = drop_views(d);
    if drop_aliases_spec(place, d, body) {
        let i = choose|i: int|
            0 <= i < d.len() && match base_local((#[trigger] d[i]).place) {
                Some(x) => flow_set(body, base_local(place)->0).contains(x),
                None => false,
            };
        assert(dv[i].1 == d[i].place);
    }
    if drops_alias(place, dv, body) {
        let i = choose|i: int|
            0 <= i < dv.len() && match base_local((#[trigger] dv[i]).1) {
                Some(x) => flow_set(body, base_local(place)->0).contains(x),
                None => false,
            };
        assert(dv[i].1 == d[i].place);
    }
}

/// The drops of function `f`'s body, in block order.
pub open spec fn fun_drops(krate: TranslatedCrate, f: FunDeclId) -> Seq<(Location, Place)> {
    match krate.body_of(f as int) {
        Some(body) => drops_upto(krate, body, body.body@.len() as int),
        None => Seq::empty(),
    }
}

/// Call `si` of entry `e` is `mem::uninitialized()` of a type that is not
/// simple whose value flows into a drop.
pub open spec fn uninit_hit(krate: TranslatedCrate, sites: Seq<(FunDeclId, Vec<UninitCallSite>)>, e: int, si: int) -> bool {
    let f = sites[e].0;
    let c = sites[e].1@[si];
    &&& krate.body_of(f as int) is Some
    &&& c.api == UninitApi::Uninitialized
    &&& c.dest is Some
    &&& !simple_ty(c.dest->0.ty)
    &&& drops_alias(c.dest->0, fun_drops(krate, f), krate.body_of(f as int)->0)
}

/// Call `ui` of entry `e` is `MaybeUninit::uninit()` and call `ai` an
/// `assume_init()` of the same type, not simple, whose value flows into a
/// drop, with no write on the uninitialised value between them.
pub open spec fn assume_hit(krate: TranslatedCrate, sites: Seq<(FunDeclId, Vec<UninitCallSite>)>, e: int, ui: int, ai: int) -> bool {
    let f = sites[e].0;
    let u = sites[e].1@[ui];
    let c = sites[e].1@[ai];
    let body = krate.body_of(f as int)->0;
    &&& krate.body_of(f as int) is Some
    &&& u.dest is Some
    &&& u.api == UninitApi::MaybeUninit
    &&& c.api == UninitApi::AssumeInit
    &&& c.dest is Some
    &&& c.first_arg is Some
    &&& u.dest->0.ty.id == c.first_arg->0.ty.id
    &&& !simple_ty(c.dest->0.ty)
    &&& drops_alias(c.dest->0, fun_drops(krate, f), body)
    &&& !exists|k: int| 0 <= k < sites[e].1@.len() && write_between_spec(body, #[trigger] sites[e].1@[k], u.dest->0, u.loc, c.loc)
}

/// The `mem::uninitialized()` calls among the first `n` of entry `e`, as `(call, -1)`.
pub open spec fn uninit_hits(krate: TranslatedCrate, sites: Seq<(FunDeclId, Vec<UninitCallSite>)>, e: int, n: int) -> Seq<(int, int)>
    decreases n,
{
    if n <= 0 {
        Seq::empty()
    } else {
        uninit_hits(krate, sites, e, n - 1) + if uninit_hit(krate, sites, e, n - 1) {
            seq![(n - 1, -1int)]
        } else {
            Seq::empty()
        }
    }
}

/// The `assume_init()` calls among the first `n` of entry `e` that pair with `MaybeUninit::uninit()` call `ui`.
pub open spec fn assume_row(krate: TranslatedCrate, sites: Seq<(FunDeclId, Vec<UninitCallSite>)>, e: int, ui: int, n: int) -> Seq<(int, int)>
    decreases n,
{
    if n <= 0 {
        Seq::empty()
    } else {
        assume_row(krate, sites, e, ui, n - 1) + if assume_hit(krate, sites, e, ui, n - 1) {
            seq![(ui, n - 1)]
        } else {
            Seq::empty()
        }
    }
}

/// The pairs of `MaybeUninit::uninit()` and `assume_init()` calls of entry `e` with the first call among the first `n`.
pub open spec fn assume_hits(krate: TranslatedCrate, sites: Seq<(FunDeclId, Vec<UninitCallSite>)>, e: int, n: int) -> Seq<(int, int)>
    decreases n,
{
    if n <= 0 {
        Seq::empty()
    } else {
        assume_hits(krate, sites, e, n - 1) + assume_row(krate, sites, e, n - 1, sites[e].1@.len() as int)
    }
}

/// The invalid frees of the first `n` entries, in the order they are reported:
/// `(entry, call, -1)` for `mem::uninitialized()`, `(entry, uninit, assume_init)` for pairs.
pub open spec fn invalid_frees_upto(krate: TranslatedCrate, sites: Seq<(FunDeclId, Vec<UninitCallSite>)>, n: int) -> Seq<(int, int, int)>
    decreases n,
{
    if n <= 0 {
        Seq::empty()
    } else {
        let e = n - 1;
        let len = sites[e].1@.len() as int;
        invalid_frees_upto(krate, sites, n - 1) + (uninit_hits(krate, sites, e, len) + assume_hits(krate, sites, e, len)).map(
            |x: int, q: (int, int)| (e, q.0, q.1),
        )
    }
}

/// `r` is the report of invalid free `h`.
pub open spec fn describes_invalid_free(krate: TranslatedCrate, sites: Seq<(FunDeclId, Vec<UninitCallSite>)>, h: (int, int, int), r: Report) -> bool {
    let f = sites[h.0].0;
    let body = krate.body_of(f as int)->0;
    let d = r->InvalidFree_0.diagnosis;
    &&& is_invalid_free_report(krate, r)
    &&& if h.2 < 0 {
        let c = sites[h.0].1@[h.1];
        &&& d.ty@ == ty_text(krate, c.dest->0.ty)
        &&& d.uninit_span@ == span_text(loc_span(body, c.loc))
        &&& d.assume_init_span is None
    } else {
        let u = sites[h.0].1@[h.1];
        let c = sites[h.0].1@[h.2];
        &&& d.ty@ == ty_text(krate, c.dest->0.ty)
        &&& d.uninit_span@ == span_text(loc_span(body, u.loc))
        &&& d.assume_init_span is Some
        &&& d.assume_init_span->0@ == span_text(loc_span(body, c.loc))
    }
}

/// Values that may be freed while not initialised: the result of
/// `mem::uninitialized()` of a type that is not simple and that flows into a
/// drop; and the result of `assume_init()` on what `MaybeUninit::uninit()`
/// made, of the same type, not simple, dropped, with no write on it in between.
#[verifier::rlimit(50)]
pub fn detect_invalid_free(krate: &TranslatedCrate, uninit_callsites: &UninitCallSites) -> (r: Vec<Report>)
    requires
        uninit_sites_valid(*krate, uninit_callsites@),
    ensures
        forall|i: int| 0 <= i < r@.len() ==> is_invalid_free_report(*krate, #[trigger] r@[i]),
        uninit_callsites@.len() == 0 ==> r@.len() == 0,
        r@.len() == invalid_frees_upto(*krate, uninit_callsites@, uninit_callsites@.len() as int).len(),
        forall|i: int|
            0 <= i < r@.len() ==> describes_invalid_free(
                *krate,
                uninit_callsites@,
                invalid_frees_upto(*krate, uninit_callsites@, uninit_callsites@.len() as int)[i],
                #[trigger] r@[i],
            ),
{
    let mut reports: Vec<Report> = Vec::new();
    let mut e: usize = 0;
    while e < uninit_callsites.len()
        invariant
            uninit_sites_valid(*krate, uninit_callsites@),
            e <= uninit_callsites@.len(),
            forall|i: int| 0 <= i < reports@.len() ==> is_invalid_free_report(*krate, #[trigger] reports@[i]),
            uninit_callsites@.len() == 0 ==> reports@.len() == 0,
            reports@.len() == invalid_frees_upto(*krate, uninit_callsites@, e as int).len(),
            forall|i: int|
                0 <= i < reports@.len() ==> describes_invalid_free(
                    *krate,
                    uninit_callsites@,
                    invalid_frees_upto(*krate, uninit_callsites@, e as int)[i],
                    #[trigger] reports@[i],
                ),
        decreases uninit_callsites@.len() - e,
    {
        let fun_id = uninit_callsites[e].0;
        let callsites = &uninit_callsites[e].1;
        let ghost before = invalid_frees_upto(*krate, uninit_callsites@, e as int);
        let ghost sites = uninit_callsites@;
        let ghost len = callsites@.len() as int;
        proof {
            if krate.body_of(fun_id as int) is None {
                lemma_no_invalid_frees(*krate, sites, e as int, len);
                assert(invalid_frees_upto(*krate, sites, e + 1) =~= before);
            }
        }
        if fun_id >= krate.fun_decls.len() {
            e = e + 1;
            continue;
        }
        let (fun_decl, body) = match &krate.fun_decls[fun_id] {
            Some(d) => match &d.body {
                Some(b) => (d, b),
                None => {
                    e = e + 1;
                    continue;
                },
            },
            None => {
                e = e + 1;
                continue;
            },
        };
        assert(krate.body_of(fun_id as int) == Some(*body));
        let drops = collect_drops(fun_decl, krate);
        assert(drop_views(drops@) == fun_drops(*krate, fun_id));
        // Calls of `mem::uninitialized()`.
        let mut si: usize = 0;
        while si < callsites.len()
            invariant
                uninit_sites_valid(*krate, uninit_callsites@),
                sites == uninit_callsites@,
                e < uninit_callsites@.len(),
                *callsites == uninit_callsites@[e as int].1,
                len == callsites@.len(),
                fun_id == uninit_callsites@[e as int].0,
                krate.body_of(fun_id as int) == Some(*body),
                drop_views(drops@) == fun_drops(*krate, fun_id),
                si <= callsites@.len(),
                forall|i: int| 0 <= i < reports@.len() ==> is_invalid_free_report(*krate, #[trigger] reports@[i]),
                before == invalid_frees_upto(*krate, sites, e as int),
                reports@.len() == before.len() + uninit_hits(*krate, sites, e as int, si as int).len(),
                forall|i: int|
                    0 <= i < reports@.len() ==> describes_invalid_free(
                        *krate,
                        sites,
                        (before + uninit_hits(*krate, sites, e as int, si as int).map(|x: int, q: (int, int)| (e as int, q.0, q.1)))[i],
                        #[trigger] reports@[i],
                    ),
            decreases callsites@.len() - si,
        {
            let ghost cur = before + uninit_hits(*krate, sites, e as int, si as int).map(|x: int, q: (int, int)| (e as int, q.0, q.1));
            let ghost rb = reports@;
            let site = &callsites[si];
            let mut hit = false;
            if site.api == UninitApi::Uninitialized {
                match &site.dest {
                    Some(dest) => {
                        proof {
                            lemma_drops_alias(*dest, drops@, *body);
                        }
                        if !is_simple_ty(&dest.ty) && any_drop_aliases(dest, &drops, body) {
                            assert(site.loc.block < body.body@.len()) by {
                                assert(callsites@[si as int] == uninit_callsites@[e as int].1@[si as int]);
                            }
                            let span = span_for_loc(body, site.loc);
                            let diagnosis = InvalidFreeDiagnosis {
                                ty: format_ty(krate, &dest.ty),
                                uninit_span: format_span(&span),
                                assume_init_span: None,
                            };
                            let rep = Report::InvalidFree(
                                ReportContent::new(
                                    text("InvalidFree"),
                                    text("Possibly"),
                                    diagnosis,
                                    text("Call mem::uninitialized() on a non-simple type and the value is dropped"),
                                ),
                            );
                            assert(is_invalid_free_report(*krate, rep)) by {
                                assert(!simple_ty(dest.ty) && rep->InvalidFree_0.diagnosis.ty@ == ty_text(*krate, dest.ty));
                            }
                            reports.push(rep);
                            hit = true;
                            proof {
                                assert(uninit_hit(*krate, sites, e as int, si as int));
                                let nxt = before + uninit_hits(*krate, sites, e as int, si + 1).map(|x: int, q: (int, int)| (e as int, q.0, q.1));
                                assert(uninit_hits(*krate, sites, e as int, si + 1) == uninit_hits(*krate, sites, e as int, si as int).push((si as int, -1int)));
                                assert(nxt =~= cur.push((e as int, si as int, -1int)));
                                assert(describes_invalid_free(*krate, sites, (e as int, si as int, -1int), rep));
                                assert forall|i: int| 0 <= i < reports@.len() implies describes_invalid_free(*krate, sites, nxt[i], #[trigger] reports@[i]) by {
                                    if i < rb.len() {
                                        assert(reports@[i] == rb[i]);
                                        assert(nxt[i] == cur[i]);
                                    }
                                }
                            }
                        }
                    },
                    None => {},
                }
            }
            if !hit {
                proof {
                    assert(!uninit_hit(*krate, sites, e as int, si as int));
                    assert(uninit_hits(*krate, sites, e as int, si + 1) == uninit_hits(*krate, sites, e as int, si as int));
                }
            }
            si = si + 1;
        }
        let ghost mid = before + uninit_hits(*krate, sites, e as int, len).map(|x: int, q: (int, int)| (e as int, q.0, q.1));
        // `MaybeUninit::uninit()` followed by `assume_init()`.
        let mut ui: usize = 0;
        while ui < callsites.len()
            invariant
                uninit_sites_valid(*krate, uninit_callsites@),
                sites == uninit_callsites@,
                e < uninit_callsites@.len(),
                *callsites == uninit_callsites@[e as int].1,
                len == callsites@.len(),
                fun_id == uninit_callsites@[e as int].0,
                krate.body_of(fun_id as int) == Some(*body),
                drop_views(drops@) == fun_drops(*krate, fun_id),
                ui <= callsites@.len(),
                forall|i: int| 0 <= i < reports@.len() ==> is_invalid_free_report(*krate, #[trigger] reports@[i]),
                mid == before + uninit_hits(*krate, sites, e as int, len).map(|x: int, q: (int, int)| (e as int, q.0, q.1)),
                reports@.len() == mid.len() + assume_hits(*krate, sites, e as int, ui as int).len(),
                forall|i: int|
                    0 <= i < reports@.len() ==> describes_invalid_free(
                        *krate,
                        sites,
                        (mid + assume_hits(*krate, sites, e as int, ui as int).map(|x: int, q: (int, int)| (e as int, q.0, q.1)))[i],
                        #[trigger] reports@[i],
                    ),
            decreases callsites@.len() - ui,
        {
            let uninit = &callsites[ui];
            let ghost hu = assume_hits(*krate, sites, e as int, ui as int);
            let ghost rbu = reports@;
            if !(uninit.dest.is_some() && uninit.api == UninitApi::MaybeUninit) {
                proof {
                    lemma_no_assume_row(*krate, sites, e as int, ui as int, len);
                    assert(assume_hits(*krate, sites, e as int, ui + 1) =~= hu);
                }
                ui = ui + 1;
                continue;
            }
            let uninit_dest = match &uninit.dest {
                Some(d) => d,
                None => {
                    ui = ui + 1;
                    continue;
                },
            };
            let mut ai: usize = 0;
            while ai < callsites.len()
                invariant
                    uninit_sites_valid(*krate, uninit_callsites@),
                    sites == uninit_callsites@,
                    e < uninit_callsites@.len(),
                    *callsites == uninit_callsites@[e as int].1,
                    len == callsites@.len(),
                    fun_id == uninit_callsites@[e as int].0,
                    krate.body_of(fun_id as int) == Some(*body),
                    drop_views(drops@) == fun_drops(*krate, fun_id),
                    ui < callsites@.len(),
                    *uninit == callsites@[ui as int],
                    uninit.dest == Some(*uninit_dest),
                    uninit.api == UninitApi::MaybeUninit,
                    ai <= callsites@.len(),
                    forall|i: int| 0 <= i < reports@.len() ==> is_invalid_free_report(*krate, #[trigger] reports@[i]),
                    hu == assume_hits(*krate, sites, e as int, ui as int),
                    rbu.len() == mid.len() + hu.len(),
                    forall|i: int| 0 <= i < rbu.len() ==> reports@[i] == rbu[i],
                    forall|i: int|
                        0 <= i < rbu.len() ==> describes_invalid_free(
                            *krate,
                            sites,
                            (mid + hu.map(|x: int, q: (int, int)| (e as int, q.0, q.1)))[i],
                            #[trigger] rbu[i],
                        ),
                    reports@.len() == rbu.len() + assume_row(*krate, sites, e as int, ui as int, ai as int).len(),
                    forall|i: int|
                        0 <= i < assume_row(*krate, sites, e as int, ui as int, ai as int).len() ==> describes_invalid_free(
                            *krate,
                            sites,
                            (e as int, assume_row(*krate, sites, e as int, ui as int, ai as int)[i].0, assume_row(*krate, sites, e as int, ui as int, ai as int)[i].1),
                            #[trigger] reports@[rbu.len() + i],
                        ),
                decreases callsites@.len() - ai,
            {
                let ghost ra = reports@;
                let ghost row = assume_row(*krate, sites, e as int, ui as int, ai as int);
                let init_call = &callsites[ai];
                let mut hit = false;
                if init_call.api == UninitApi::AssumeInit {
                    match (&init_call.dest, &init_call.first_arg) {
                        (Some(init_dest), Some(init_arg)) => {
                            proof {
                                lemma_drops_alias(*init_dest, drops@, *body);
                            }
                            if uninit_dest.ty.id == init_arg.ty.id && !is_simple_ty(&init_dest.ty)
                                && any_drop_aliases(init_dest, &drops, body)
                                && !has_write_between(callsites, uninit_dest, uninit.loc, init_call.loc, body) {
                                assert(uninit.loc.block < body.body@.len() && init_call.loc.block < body.body@.len()) by {
                                    assert(callsites@[ui as int] == uninit_callsites@[e as int].1@[ui as int]);
                                    assert(callsites@[ai as int] == uninit_callsites@[e as int].1@[ai as int]);
                                }
                                let uninit_span = span_for_loc(body, uninit.loc);
                                let init_span = span_for_loc(body, init_call.loc);
                                let diagnosis = InvalidFreeDiagnosis {
                                    ty: format_ty(krate, &init_dest.ty),
                                    uninit_span: format_span(&uninit_span),
                                    assume_init_span: Some(format_span(&init_span)),
                                };
                                let rep = Report::InvalidFree(
                                    ReportContent::new(
                                        text("InvalidFree"),
                                        text("Possibly"),
                                        diagnosis,
                                        text(
                                            "MaybeUninit::uninit() followed by assume_init() without write on non-simple type, and dropped",
                                        ),
                                    ),
                                );
                                assert(is_invalid_free_report(*krate, rep)) by {
                                    assert(!simple_ty(init_dest.ty) && rep->InvalidFree_0.diagnosis.ty@ == ty_text(
                                        *krate,
                                        init_dest.ty,
                                    ));
                                }
                                reports.push(rep);
                                hit = true;
                                proof {
                                    assert(assume_hit(*krate, sites, e as int, ui as int, ai as int));
                                    let rn = assume_row(*krate, sites, e as int, ui as int, ai + 1);
                                    assert(rn == row.push((ui as int, ai as int)));
                                    assert(describes_invalid_free(*krate, sites, (e as int, ui as int, ai as int), rep));
                                    assert forall|i: int| 0 <= i < rbu.len() implies reports@[i] == rbu[i] by {
                                        assert(reports@[i] == ra[i]);
                                    }
                                    assert forall|i: int| 0 <= i < rn.len() implies describes_invalid_free(
                                        *krate,
                                        sites,
                                        (e as int, rn[i].0, rn[i].1),
                                        #[trigger] reports@[rbu.len() + i],
                                    ) by {
                                        if i < row.len() {
                                            assert(reports@[rbu.len() + i] == ra[rbu.len() + i]);
                                            assert(rn[i] == row[i]);
                                        }
                                    }
                                }
                            }
                        },
                        _ => {},
                    }
                }
                if !hit {
                    proof {
                        assert(!assume_hit(*krate, sites, e as int, ui as int, ai as int));
                        assert(assume_row(*krate, sites, e as int, ui as int, ai + 1) == row);
                    }
                }
                ai = ai + 1;
            }
            proof {
                let row = assume_row(*krate, sites, e as int, ui as int, len);
                let hn = assume_hits(*krate, sites, e as int, ui + 1);
                assert(hn == hu + row);
                let full = mid + hn.map(|x: int, q: (int, int)| (e as int, q.0, q.1));
                let prev = mid + hu.map(|x: int, q: (int, int)| (e as int, q.0, q.1));
                assert forall|i: int| 0 <= i < reports@.len() implies describes_invalid_free(*krate, sites, full[i], #[trigger] reports@[i]) by {
                    if i < rbu.len() {
                        assert(reports@[i] == rbu[i]);
                        assert(full[i] == prev[i]);
                    } else {
                        let k = i - rbu.len();
                        assert(full[i] == (e as int, row[k].0, row[k].1));
                        assert(reports@[rbu.len() + k] == reports@[i]);
                    }
                }
            }
            ui = ui + 1;
        }
        proof {
            assert(invalid_frees_upto(*krate, sites, e + 1) =~= mid + assume_hits(*krate, sites, e as int, len).map(
                |x: int, q: (int, int)| (e as int, q.0, q.1),
            ));
        }
        e = e + 1;
    }
    reports
}

proof fn lemma_no_invalid_frees(krate: TranslatedCrate, sites: Seq<(FunDeclId, Vec<UninitCallSite>)>, e: int, n: int)
    requires
        0 <= e < sites.len(),
        krate.body_of(sites[e].0 as int) is None,
    ensures
        uninit_hits(krate, sites, e, n).len() == 0,
        assume_hits(krate, sites, e, n).len() == 0,
    decreases n,
{
    if n > 0 {
        lemma_no_invalid_frees(krate, sites, e, n - 1);
        lemma_no_assume_row(krate, sites, e, n - 1, sites[e].1@.len() as int);
    }
}

proof fn lemma_no_assume_row(krate: TranslatedCrate, sites: Seq<(FunDeclId, Vec<UninitCallSite>)>, e: int, ui: int, n: int)
    requires
        !(krate.body_of(sites[e].0 as int) is Some && sites[e].1@[ui].dest is Some && sites[e].1@[ui].api == UninitApi::MaybeUninit),
    ensures
        assume_row(krate, sites, e, ui, n).len() == 0,
    decreases n,
{
    if n > 0 {
        lemma_no_assume_row(krate, sites, e, ui, n - 1);
    }
}

pub open spec fn use_after_free_explanation() -> Seq<char> {
    "Raw ptr is used after the pointed value is dropped"@
}

/// Local `l` has a raw pointer type in the body of some local function.
pub open spec fn raw_ptr_local_of(krate: TranslatedCrate, l: int) -> bool {
    exists|f: int|
        #![trigger krate.body_of(f)]
        {
            &&& krate.body_of(f) is Some
            &&& krate.fun_decl(f)->0.is_local
            &&& 0 <= l < krate.body_of(f)->0.locals@.len()
            &&& krate.body_of(f)->0.locals@[l].ty.kind is RawPtr
        }
}

/// A report of a raw pointer used after what it points to was dropped, naming
/// a raw pointer local of a local function.
pub open spec fn is_use_after_free_report(krate: TranslatedCrate, r: Report) -> bool {
    &&& r is UseAfterFree
    &&& r->UseAfterFree_0.bug_kind@ == "UseAfterFree"@
    &&& r->UseAfterFree_0.possibility@ == "Possibly"@
    &&& r->UseAfterFree_0.explanation@ == use_after_free_explanation()
    &&& r->UseAfterFree_0.diagnosis.explanation@ == use_after_free_explanation()
    &&& raw_ptr_local_of(krate, r->UseAfterFree_0.diagnosis.raw_ptr_local as int)
}

/// Whether `pointee` may be one of `places`.
fn aliases_any(pointee: &Place, places: &Vec<Place>) -> (r: bool)
    ensures
        r == exists|k: int| 0 <= k < places@.len() && may_alias(*pointee, #[trigger] places@[k]),
{
    let mut k: usize = 0;
    while k < places.len()
        invariant
            k <= places@.len(),
            forall|j: int| 0 <= j < k ==> !may_alias(*pointee, #[trigger] places@[j]),
        decreases places@.len() - k,
    {
        if places_may_alias(pointee, &places[k]) {
            return true;
        }
        k = k + 1;
    }
    false
}

/// Whether `pointee` may be what `drop` drops: the dropped place itself, or
/// what the dropped local points to.
fn pointee_dropped(pointee: &Place, drop: &DropSite, body: &ExprBody) -> (r: bool)
    ensures
        r == (may_alias(*pointee, drop.place) || match base_local(drop.place) {
            Some(dl) => exists|k: int|
                0 <= k < pointees_upto(*body, dl, false, body.body@.len() as int).len() && may_alias(
                    *pointee,
                    #[trigger] pointees_upto(*body, dl, false, body.body@.len() as int)[k],
                ),
            None => false,
        }),
{
    if places_may_alias(pointee, &drop.place) {
        return true;
    }
    match drop.place.local_id() {
        Some(dl) => {
            let dps = resolve_drop_pointees(dl, body);
            aliases_any(pointee, &dps)
        },
        None => false,
    }
}

/// Appends a report for each use of `raw_local` that control can reach from the drop.
/// The uses among the first `k` of `uses` that are uses of `raw_local`
/// reachable from the drop at `drop_loc`, in order.
pub open spec fn uses_after_drop(body: ExprBody, raw_local: LocalId, drop_loc: Location, uses: Seq<(LocalId, Location)>, k: int) -> Seq<
    Location,
>
    decreases k,
{
    if k <= 0 {
        Seq::empty()
    } else {
        uses_after_drop(body, raw_local, drop_loc, uses, k - 1) + if uses[k - 1].0 == raw_local && loc_reachable(
            body,
            drop_loc,
            uses[k - 1].1,
        ) {
            seq![uses[k - 1].1]
        } else {
            Seq::empty()
        }
    }
}

/// `r` reports the use of `raw_local` at `use_loc` after the drop at `drop_loc`.
pub open spec fn describes_use_after_drop(body: ExprBody, raw_local: LocalId, drop_loc: Location, use_loc: Location, r: Report) -> bool {
    &&& r is UseAfterFree
    &&& r->UseAfterFree_0.diagnosis.raw_ptr_local == raw_local
    &&& r->UseAfterFree_0.diagnosis.use_span@ == span_text(loc_span(body, use_loc))
    &&& r->UseAfterFree_0.diagnosis.drop_span@ == span_text(loc_span(body, drop_loc))
}

fn report_uses_after_drop(
    krate: &TranslatedCrate,
    body: &ExprBody,
    raw_local: LocalId,
    drop: &DropSite,
    uses: &Vec<(LocalId, Location)>,
    reports: &mut Vec<Report>,
)
    requires
        raw_ptr_local_of(*krate, raw_local as int),
        drop.loc.block < body.body@.len(),
        forall|k: int| 0 <= k < uses@.len() ==> (#[trigger] uses@[k]).1.block < body.body@.len(),
        forall|i: int| 0 <= i < old(reports)@.len() ==> is_use_after_free_report(*krate, #[trigger] old(reports)@[i]),
    ensures
        forall|i: int| 0 <= i < final(reports)@.len() ==> is_use_after_free_report(*krate, #[trigger] final(reports)@[i]),
        ({
            let h = uses_after_drop(*body, raw_local, drop.loc, uses@, uses@.len() as int);
            &&& final(reports)@.len() == old(reports)@.len() + h.len()
            &&& forall|i: int| 0 <= i < old(reports)@.len() ==> final(reports)@[i] == old(reports)@[i]
            &&& forall|i: int|
                0 <= i < h.len() ==> describes_use_after_drop(
                    *body,
                    raw_local,
                    drop.loc,
                    h[i],
                    #[trigger] final(reports)@[old(reports)@.len() + i],
                )
        }),
{
    let ghost r0 = reports@;
    let mut k: usize = 0;
    while k < uses.len()
        invariant
            raw_ptr_local_of(*krate, raw_local as int),
            drop.loc.block < body.body@.len(),
            forall|j: int| 0 <= j < uses@.len() ==> (#[trigger] uses@[j]).1.block < body.body@.len(),
            k <= uses@.len(),
            forall|i: int| 0 <= i < reports@.len() ==> is_use_after_free_report(*krate, #[trigger] reports@[i]),
            reports@.len() == r0.len() + uses_after_drop(*body, raw_local, drop.loc, uses@, k as int).len(),
            forall|i: int| 0 <= i < r0.len() ==> reports@[i] == r0[i],
            forall|i: int|
                0 <= i < uses_after_drop(*body, raw_local, drop.loc, uses@, k as int).len() ==> describes_use_after_drop(
                    *body,
                    raw_local,
                    drop.loc,
                    uses_after_drop(*body, raw_local, drop.loc, uses@, k as int)[i],
                    #[trigger] reports@[r0.len() + i],
                ),
        decreases uses@.len() - k,
    {
        let ghost hk = uses_after_drop(*body, raw_local, drop.loc, uses@, k as int);
        let ghost rb = reports@;
        let (l, use_loc) = uses[k];
        if l == raw_local && is_reachable(drop.loc, use_loc, body) {
            assert(use_loc.block < body.body@.len()) by {
                assert(uses@[k as int].1 == use_loc);
            }
            let use_span = span_for_loc(body, use_loc);
            let drop_span = span_for_loc(body, drop.loc);
            let diagnosis = UseAfterFreeDiagnosis {
                raw_ptr_local: raw_local,
                use_span: format_span(&use_span),
                drop_span: format_span(&drop_span),
                explanation: text("Raw ptr is used after the pointed value is dropped"),
            };
            let rep = Report::UseAfterFree(
                ReportContent::new(
                    text("UseAfterFree"),
                    text("Possibly"),
                    diagnosis,
                    text("Raw ptr is used after the pointed value is dropped"),
                ),
            );
            reports.push(rep);
            proof {
                let hn = uses_after_drop(*body, raw_local, drop.loc, uses@, k + 1);
                assert(hn =~= hk.push(use_loc));
                assert forall|i: int| 0 <= i < r0.len() implies reports@[i] == r0[i] by {
                    assert(reports@[i] == rb[i]);
                }
                assert forall|i: int| 0 <= i < hn.len() implies describes_use_after_drop(
                    *body,
                    raw_local,
                    drop.loc,
                    hn[i],
                    #[trigger] reports@[r0.len() + i],
                ) by {
                    if i < hk.len() {
                        assert(reports@[r0.len() + i] == rb[r0.len() + i]);
                        assert(hn[i] == hk[i]);
                    }
                }
            }
        } else {
            proof {
                assert(uses_after_drop(*body, raw_local, drop.loc, uses@, k + 1) =~= hk);
            }
        }
        k = k + 1;
    }
}

/// A use after free: the function, the raw pointer local, where the drop is, where the use is.
pub type UafHit = (FunDeclId, LocalId, Location, Location);

/// `r` reports use after free `t`.
pub open spec fn describes_uaf(krate: TranslatedCrate, t: UafHit, r: Report) -> bool {
    &&& is_use_after_free_report(krate, r)
    &&& describes_use_after_drop(krate.body_of(t.0 as int)->0, t.1, t.2, t.3, r)
}

/// The reports `rs` are those of the uses after free `ts`, one each, in order.
pub open spec fn described(krate: TranslatedCrate, ts: Seq<UafHit>, rs: Seq<Report>) -> bool {
    &&& rs.len() == ts.len()
    &&& forall|i: int| 0 <= i < rs.len() ==> describes_uaf(krate, ts[i], #[trigger] rs[i])
}

/// The raw pointer locals among the first `n` locals.
pub open spec fn raw_locals(body: ExprBody, n: int) -> Seq<LocalId>
    decreases n,
{
    if n <= 0 {
        Seq::empty()
    } else {
        raw_locals(body, n - 1) + if body.locals@[n - 1].ty.kind is RawPtr {
            seq![(n - 1) as usize]
        } else {
            Seq::empty()
        }
    }
}

/// The drop `d` may drop `p`, or something a pointer it drops points to may be `p`.
pub open spec fn dropped_spec(body: ExprBody, p: Place, d: (Location, Place)) -> bool {
    may_alias(p, d.1) || match base_local(d.1) {
        Some(dl) => exists|k: int|
            0 <= k < pointees_upto(body, dl, false, body.body@.len() as int).len() && may_alias(
                p,
                #[trigger] pointees_upto(body, dl, false, body.body@.len() as int)[k],
            ),
        None => false,
    }
}

/// The uses of `raw` after those of the first `n` drops of `dv` that may drop `p`.
pub open spec fn drop_rows(
    body: ExprBody,
    f: FunDeclId,
    raw: LocalId,
    p: Place,
    dv: Seq<(Location, Place)>,
    uses: Seq<(LocalId, Location)>,
    n: int,
) -> Seq<UafHit>
    decreases n,
{
    if n <= 0 {
        Seq::empty()
    } else {
        drop_rows(body, f, raw, p, dv, uses, n - 1) + if dropped_spec(body, p, dv[n - 1]) {
            uses_after_drop(body, raw, dv[n - 1].0, uses, uses.len() as int).map(|x: int, u: Location| (f, raw, dv[n - 1].0, u))
        } else {
            Seq::empty()
        }
    }
}

/// The uses of `raw` after drops of the first `n` places it may point to.
pub open spec fn pointee_rows(
    body: ExprBody,
    f: FunDeclId,
    raw: LocalId,
    ps: Seq<Place>,
    dv: Seq<(Location, Place)>,
    uses: Seq<(LocalId, Location)>,
    n: int,
) -> Seq<UafHit>
    decreases n,
{
    if n <= 0 {
        Seq::empty()
    } else {
        pointee_rows(body, f, raw, ps, dv, uses, n - 1) + drop_rows(body, f, raw, ps[n - 1], dv, uses, dv.len() as int)
    }
}

/// The uses after free of the first `n` raw pointer locals `rl` of function `f`.
pub open spec fn raw_rows(body: ExprBody, f: FunDeclId, rl: Seq<LocalId>, dv: Seq<(Location, Place)>, uses: Seq<(LocalId, Location)>, n: int) -> Seq<
    UafHit,
>
    decreases n,
{
    if n <= 0 {
        Seq::empty()
    } else {
        let raw = rl[n - 1];
        let ps = pointees_upto(body, raw, true, body.body@.len() as int);
        raw_rows(body, f, rl, dv, uses, n - 1) + pointee_rows(body, f, raw, ps, dv, uses, ps.len() as int)
    }
}

/// The uses after free of function `f`: none unless it is a local function with a body.
pub open spec fn fun_uafs(krate: TranslatedCrate, f: int) -> Seq<UafHit> {
    match krate.fun_decl(f) {
        Some(d) => match d.body {
            Some(body) => if d.is_local {
                let rl = raw_locals(body, body.locals@.len() as int);
                raw_rows(body, f as usize, rl, fun_drops(krate, f as usize), uses_upto(body, body.body@.len() as int), rl.len() as int)
            } else {
                Seq::empty()
            },
            None => Seq::empty(),
        },
        None => Seq::empty(),
    }
}

/// The uses after free of the first `n` functions, in the order they are reported.
pub open spec fn uafs_upto(krate: TranslatedCrate, n: int) -> Seq<UafHit>
    decreases n,
{
    if n <= 0 {
        Seq::empty()
    } else {
        uafs_upto(krate, n - 1) + fun_uafs(krate, n - 1)
    }
}

/// Appending reports of further uses after free keeps the reports described.
proof fn lemma_described_append(krate: TranslatedCrate, t1: Seq<UafHit>, t2: Seq<UafHit>, r1: Seq<Report>, r2: Seq<Report>)
    requires
        described(krate, t1, r1),
        r2.len() == r1.len() + t2.len(),
        forall|i: int| 0 <= i < r1.len() ==> r2[i] == r1[i],
        forall|i: int| 0 <= i < t2.len() ==> describes_uaf(krate, t2[i], #[trigger] r2[r1.len() + i]),
    ensures
        described(krate, t1 + t2, r2),
{
    assert forall|i: int| 0 <= i < r2.len() implies describes_uaf(krate, (t1 + t2)[i], #[trigger] r2[i]) by {
        if i < r1.len() {
            assert(r2[i] == r1[i]);
        } else {
            assert(r2[r1.len() + (i - r1.len())] == r2[i]);
        }
    }
}

/// Uses of raw pointers after what they point to was dropped: in each local
/// function, for each raw pointer local, each place it may point to and each
/// drop of that place (or of a pointer to it), every use of the raw pointer
/// that control can reach from the drop.
#[verifier::rlimit(50)]
pub fn detect_use_after_free(krate: &TranslatedCrate) -> (r: Vec<Report>)
    ensures
        forall|i: int| 0 <= i < r@.len() ==> is_use_after_free_report(*krate, #[trigger] r@[i]),
        described(*krate, uafs_upto(*krate, krate.fun_decls@.len() as int), r@),
{
    let mut reports: Vec<Report> = Vec::new();
    let mut f: usize = 0;
    while f < krate.fun_decls.len()
        invariant
            f <= krate.fun_decls@.len(),
            described(*krate, uafs_upto(*krate, f as int), reports@),
        decreases krate.fun_decls@.len() - f,
    {
        let ghost before = uafs_upto(*krate, f as int);
        proof {
            assert(uafs_upto(*krate, f + 1) == before + fun_uafs(*krate, f as int));
        }
        let (fun_decl, body) = match &krate.fun_decls[f] {
            Some(d) => match &d.body {
                Some(b) => (d, b),
                None => {
                    assert(before + fun_uafs(*krate, f as int) =~= before);
                    f = f + 1;
                    continue;
                },
            },
            None => {
                assert(before + fun_uafs(*krate, f as int) =~= before);
                f = f + 1;
                continue;
            },
        };
        if !fun_decl.is_local {
            assert(before + fun_uafs(*krate, f as int) =~= before);
            f = f + 1;
            continue;
        }
        assert(krate.body_of(f as int) == Some(*body));
        // The raw pointer locals.
        let mut raw_ptrs: Vec<LocalId> = Vec::new();
        let mut l: usize = 0;
        while l < body.locals.len()
            invariant
                l <= body.locals@.len(),
                forall|k: int|
                    0 <= k < raw_ptrs@.len() ==> #[trigger] raw_ptrs@[k] < body.locals@.len()
                        && body.locals@[raw_ptrs@[k] as int].ty.kind is RawPtr,
                raw_ptrs@ == raw_locals(*body, l as int),
            decreases body.locals@.len() - l,
        {
            if is_raw_ptr(&body.locals[l].ty) {
                raw_ptrs.push(l);
            }
            l = l + 1;
        }
        let ghost rl = raw_ptrs@;
        if raw_ptrs.len() == 0 {
            assert(before + fun_uafs(*krate, f as int) =~= before);
            f = f + 1;
            continue;
        }
        let drops = collect_drops(fun_decl, krate);
        let uses = collect_uses(body);
        let ghost dv = drop_views(drops@);
        let ghost us = uses@;
        let nb = body.body.len();
        proof {
            lemma_uses_upto_blocks(*body, body.body@.len() as int);
            lemma_drops_upto_blocks(*krate, *body, body.body@.len() as int);
            assert forall|k: int| 0 <= k < drops@.len() implies (#[trigger] drops@[k]).loc.block < body.body@.len() by {
                assert(drop_views(drops@)[k] == (drops@[k].loc, drops@[k].place));
            }
            assert(dv == fun_drops(*krate, f));
        }
        let mut ri: usize = 0;
        while ri < raw_ptrs.len()
            invariant
                f < krate.fun_decls@.len(),
                krate.body_of(f as int) == Some(*body),
                krate.fun_decl(f as int)->0.is_local,
                forall|k: int|
                    0 <= k < raw_ptrs@.len() ==> #[trigger] raw_ptrs@[k] < body.locals@.len()
                        && body.locals@[raw_ptrs@[k] as int].ty.kind is RawPtr,
                forall|k: int| 0 <= k < drops@.len() ==> (#[trigger] drops@[k]).loc.block < body.body@.len(),
                forall|k: int| 0 <= k < uses@.len() ==> (#[trigger] uses@[k]).1.block < body.body@.len(),
                ri <= raw_ptrs@.len(),
                rl == raw_ptrs@,
                dv == drop_views(drops@),
                us == uses@,
                described(*krate, before + raw_rows(*body, f, rl, dv, us, ri as int), reports@),
            decreases raw_ptrs@.len() - ri,
        {
            let raw_local = raw_ptrs[ri];
            assert(raw_ptr_local_of(*krate, raw_local as int)) by {
                assert(raw_ptrs@[ri as int] == raw_local);
                assert(krate.body_of(f as int) is Some);
            }
            let pointees = find_pointees(raw_local, body);
            let ghost ps = pointees@;
            let ghost base = before + raw_rows(*body, f, rl, dv, us, ri as int);
            let mut pi: usize = 0;
            assert(base + pointee_rows(*body, f, raw_local, ps, dv, us, 0) =~= base);
            while pi < pointees.len()
                invariant
                    raw_ptr_local_of(*krate, raw_local as int),
                    krate.body_of(f as int) == Some(*body),
                    forall|k: int| 0 <= k < drops@.len() ==> (#[trigger] drops@[k]).loc.block < body.body@.len(),
                    forall|k: int| 0 <= k < uses@.len() ==> (#[trigger] uses@[k]).1.block < body.body@.len(),
                    pi <= pointees@.len(),
                    ps == pointees@,
                    dv == drop_views(drops@),
                    us == uses@,
                    described(*krate, base + pointee_rows(*body, f, raw_local, ps, dv, us, pi as int), reports@),
                decreases pointees@.len() - pi,
            {
                let ghost base2 = base + pointee_rows(*body, f, raw_local, ps, dv, us, pi as int);
                let mut di: usize = 0;
                assert(base2 + drop_rows(*body, f, raw_local, ps[pi as int], dv, us, 0) =~= base2);
                while di < drops.len()
                    invariant
                        raw_ptr_local_of(*krate, raw_local as int),
                        krate.body_of(f as int) == Some(*body),
                        forall|k: int| 0 <= k < drops@.len() ==> (#[trigger] drops@[k]).loc.block < body.body@.len(),
                        forall|k: int| 0 <= k < uses@.len() ==> (#[trigger] uses@[k]).1.block < body.body@.len(),
                        pi < pointees@.len(),
                        di <= drops@.len(),
                        ps == pointees@,
                        dv == drop_views(drops@),
                        us == uses@,
                        described(*krate, base2 + drop_rows(*body, f, raw_local, ps[pi as int], dv, us, di as int), reports@),
                    decreases drops@.len() - di,
                {
                    let drop = &drops[di];
                    let ghost cur = base2 + drop_rows(*body, f, raw_local, ps[pi as int], dv, us, di as int);
                    let ghost r0 = reports@;
                    proof {
                        assert(dv[di as int] == (drop.loc, drop.place));
                    }
                    if pointee_dropped(&pointees[pi], drop, body) {
                        assert(drops@[di as int].loc.block < body.body@.len());
                        report_uses_after_drop(krate, body, raw_local, drop, &uses, &mut reports);
                        proof {
                            let h = uses_after_drop(*body, raw_local, drop.loc, us, us.len() as int);
                            let t2 = h.map(|x: int, u: Location| (f, raw_local, drop.loc, u));
                            assert forall|i: int| 0 <= i < t2.len() implies describes_uaf(*krate, t2[i], #[trigger] reports@[r0.len() + i]) by {
                                assert(t2[i] == (f, raw_local, drop.loc, h[i]));
                            }
                            lemma_described_append(*krate, cur, t2, r0, reports@);
                            assert(cur + t2 =~= base2 + drop_rows(*body, f, raw_local, ps[pi as int], dv, us, di + 1));
                        }
                    } else {
                        assert(cur =~= base2 + drop_rows(*body, f, raw_local, ps[pi as int], dv, us, di + 1));
                    }
                    di = di + 1;
                }
                assert(base2 + drop_rows(*body, f, raw_local, ps[pi as int], dv, us, dv.len() as int)
                    =~= base + pointee_rows(*body, f, raw_local, ps, dv, us, pi + 1));
                pi = pi + 1;
            }
            assert(base + pointee_rows(*body, f, raw_local, ps, dv, us, ps.len() as int) =~= before + raw_rows(*body, f, rl, dv, us, ri + 1));
            ri = ri + 1;
        }
        assert(before + raw_rows(*body, f, rl, dv, us, rl.len() as int) =~= before + fun_uafs(*krate, f as int));
        f = f + 1;
    }
    reports
}

/// What a function's path says of the uninitialised-value API it is: `MaybeUninit` with
/// `::uninit` or `::zeroed` creates one; else `MaybeUninit` with `::write` writes one; else
/// `MaybeUninit` with `::assume_init` reads one; else `mem::uninitialized` or `mem::zeroed`
/// creates one the old way; a path naming neither `MaybeUninit` nor those is none.
pub proof fn law_uninit_api_by_path(name: Seq<char>)
    ensures
        crate::text::has_sub(name, "MaybeUninit"@) && (crate::text::has_sub(name, "::uninit"@) || crate::text::has_sub(name, "::zeroed"@))
            ==> uninit_api_of_name(name) == Some(UninitApi::MaybeUninit),
        crate::text::has_sub(name, "MaybeUninit"@) && !crate::text::has_sub(name, "::uninit"@) && !crate::text::has_sub(name, "::zeroed"@)
            && crate::text::has_sub(name, "::write"@) ==> uninit_api_of_name(name) == Some(UninitApi::MaybeUninitWrite),
        crate::text::has_sub(name, "MaybeUninit"@) && !crate::text::has_sub(name, "::uninit"@) && !crate::text::has_sub(name, "::zeroed"@)
            && !crate::text::has_sub(name, "::write"@) && crate::text::has_sub(name, "::assume_init"@) ==> uninit_api_of_name(name) == Some(
            UninitApi::AssumeInit,
        ),
        !crate::text::has_sub(name, "MaybeUninit"@) && (crate::text::has_sub(name, "mem::uninitialized"@) || crate::text::has_sub(
            name,
            "mem::zeroed"@,
        )) ==> uninit_api_of_name(name) == Some(UninitApi::Uninitialized),
        !crate::text::has_sub(name, "MaybeUninit"@) && !crate::text::has_sub(name, "mem::uninitialized"@) && !crate::text::has_sub(
            name,
            "mem::zeroed"@,
        ) ==> uninit_api_of_name(name) is None,
{
}

} // verus!
