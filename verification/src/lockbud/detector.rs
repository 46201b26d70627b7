//! Double locks, conflicting locks and condvar misuse, read off the relations
//! and states that the lock-guard analysis found.

use vstd::prelude::*;

use crate::lockbud::analysis::Analyzer;
use crate::lockbud::callgraph::{covered, is_simple_path, reaches, CallGraph};
use crate::lockbud::conflict_graph::{canonical, has_conflict_edge, is_conflict_cycle, ConflictLockGraph};
use crate::lockbud::condvar::{CondvarApi, CondvarCallSites, CondvarKey, ParkingLotCondvarApi, StdCondvarApi};
use crate::lockbud::engine::LiveSet;
use crate::lockbud::render::{format_guard_ty, format_span, guard_ty_text, span_text};
use crate::lockbud::report::{
    CondvarDeadlockDiagnosis, DeadlockDiagnosis, Report, ReportContent, WaitNotifyLocks,
};
use crate::lockbud::types::{
    deadlock_with_spec, fun_name, possibility_rank, DeadlockPossibility, LockGuardId, LockGuardInfo,
    LockGuardMap, LockGuardTy, Location,
};
use crate::lockbud::ullbc::{
    base_local, copy_place, copy_ty, operand_place, place_eq, same_place, FunDeclId, LocalId, Operand, Place, PlaceKind, Rvalue,
    StatementKind, TerminatorKind, TranslatedCrate,
};
use crate::text::{has_prefix, str_has_prefix};

verus! {

/// `chains` has one entry per path of `ps`, with one step per call along it;
/// the paths of `ps` are the simple paths from `source` to `target` of at most
/// six functions, each of them there once.
spec fn chains_follow(
    e: Set<(FunDeclId, FunDeclId)>,
    source: FunDeclId,
    target: FunDeclId,
    ps: Seq<Vec<FunDeclId>>,
    chains: Seq<Vec<Vec<String>>>,
) -> bool {
    &&& ps.len() == chains.len()
    &&& forall|i: int|
        0 <= i < ps.len() ==> is_simple_path(e, (#[trigger] ps[i])@, source, target) && ps[i]@.len() <= 6
            && chains[i]@.len() == ps[i]@.len() - 1
    &&& forall|q: Seq<FunDeclId>| #[trigger] is_simple_path(e, q, source, target) && q.len() <= 6 ==> covered(ps, q)
    &&& forall|i: int, j: int| 0 <= i < j < ps.len() ==> (#[trigger] ps[i])@ != (#[trigger] ps[j])@
}

broadcast use {vstd::seq_lib::lemma_seq_contains_after_push, vstd::seq::Seq::lemma_push_to_set_commute};

/// Why a pair of guards was judged not to deadlock, or that it may.
#[derive(Clone, Copy, Debug, PartialEq, Eq, Structural)]
pub enum NotDeadlockReason {
    TrueDeadlock,
    SameSpan,
    TypeMismatch,
    UnknownGuard,
    RecursiveRead,
}

/// Both guards are read guards of the same library.
pub open spec fn both_read(a: LockGuardTy, b: LockGuardTy) -> bool {
    ||| (a is StdRwLockRead && b is StdRwLockRead)
    ||| (a is ParkingLotRead && b is ParkingLotRead)
    ||| (a is SpinRead && b is SpinRead)
}

/// Both receivers are known and are the same place.
pub open spec fn same_receiver(ra: Option<Place>, rb: Option<Place>) -> bool {
    ra is Some && rb is Some && same_place(ra->0, rb->0)
}

/// How likely two receivers are the same lock: the same place is probably,
/// two different plain locals are unlikely, anything else possibly.
pub open spec fn alias_possibility(ra: Option<Place>, rb: Option<Place>) -> DeadlockPossibility {
    if ra is Some && rb is Some {
        if same_place(ra->0, rb->0) {
            DeadlockPossibility::Probably
        } else if ra->0.kind is Local && rb->0.kind is Local && ra->0.kind->Local_0 != rb->0.kind->Local_0 {
            DeadlockPossibility::Unlikely
        } else {
            DeadlockPossibility::Possibly
        }
    } else {
        DeadlockPossibility::Possibly
    }
}

/// The possibility from the type judgement and the alias judgement.
pub open spec fn combine_possibility(t: DeadlockPossibility, a: DeadlockPossibility) -> DeadlockPossibility {
    match (t, a) {
        (DeadlockPossibility::Probably, DeadlockPossibility::Probably) => DeadlockPossibility::Probably,
        (DeadlockPossibility::Probably, DeadlockPossibility::Possibly)
        | (DeadlockPossibility::Possibly, DeadlockPossibility::Probably)
        | (DeadlockPossibility::Possibly, DeadlockPossibility::Possibly) => DeadlockPossibility::Possibly,
        _ => DeadlockPossibility::Unlikely,
    }
}

/// How likely acquiring guard `b` while `a` is held deadlocks, and why.
pub open spec fn possibility_of(lg: LockGuardMap, a: LockGuardId, b: LockGuardId) -> (
    DeadlockPossibility,
    NotDeadlockReason,
) {
    if !lg.has(a) || !lg.has(b) {
        (DeadlockPossibility::Unlikely, NotDeadlockReason::UnknownGuard)
    } else {
        let ai = lg.info(a);
        let bi = lg.info(b);
        if ai.span == bi.span {
            (DeadlockPossibility::Unlikely, NotDeadlockReason::SameSpan)
        } else if deadlock_with_spec(ai.lockguard_ty, bi.lockguard_ty) is Unlikely {
            (DeadlockPossibility::Unlikely, NotDeadlockReason::TypeMismatch)
        } else if both_read(ai.lockguard_ty, bi.lockguard_ty) && (ai.is_recursive_read || bi.is_recursive_read)
            && same_receiver(ai.receiver_place, bi.receiver_place) {
            (DeadlockPossibility::Unlikely, NotDeadlockReason::RecursiveRead)
        } else {
            (
                combine_possibility(
                    deadlock_with_spec(ai.lockguard_ty, bi.lockguard_ty),
                    alias_possibility(ai.receiver_place, bi.receiver_place),
                ),
                NotDeadlockReason::TrueDeadlock,
            )
        }
    }
}

/// The guard belongs to a function outside std, core, alloc and the compiler.
pub open spec fn is_user_fun(krate: TranslatedCrate, f: FunDeclId) -> bool {
    match fun_name(krate, f as int) {
        Some(n) => !has_prefix(n, "std::"@) && !has_prefix(n, "core::"@) && !has_prefix(n, "alloc::"@) && !has_prefix(
            n,
            "rustc"@,
        ),
        None => false,
    }
}

/// `p` is possibly or probably.
pub open spec fn is_likely(p: DeadlockPossibility) -> bool {
    p is Probably || p is Possibly
}

/// A relation that is reported as a double lock.
pub open spec fn is_double_lock(krate: TranslatedCrate, lg: LockGuardMap, r: (LockGuardId, LockGuardId)) -> bool {
    is_user_fun(krate, r.0.fun_id) && is_user_fun(krate, r.1.fun_id) && is_likely(possibility_of(lg, r.0, r.1).0)
}

/// A relation that becomes a node of the conflict graph.
pub open spec fn is_conflict_node(krate: TranslatedCrate, lg: LockGuardMap, r: (LockGuardId, LockGuardId)) -> bool {
    is_user_fun(krate, r.0.fun_id) && is_user_fun(krate, r.1.fun_id) && !is_likely(possibility_of(lg, r.0, r.1).0)
        && possibility_of(lg, r.0, r.1).1 != NotDeadlockReason::SameSpan
}

/// The text of a possibility.
pub open spec fn possibility_text(p: DeadlockPossibility) -> Seq<char> {
    match p {
        DeadlockPossibility::Probably => "Probably"@,
        DeadlockPossibility::Possibly => "Possibly"@,
        DeadlockPossibility::Unlikely => "Unlikely"@,
        DeadlockPossibility::Unknown => "Unknown"@,
    }
}

fn possibility_string(p: DeadlockPossibility) -> (r: String)
    ensures
        r@ == possibility_text(p),
{
    let mut s = String::new();
    match p {
        DeadlockPossibility::Probably => s.append("Probably"),
        DeadlockPossibility::Possibly => s.append("Possibly"),
        DeadlockPossibility::Unlikely => s.append("Unlikely"),
        DeadlockPossibility::Unknown => s.append("Unknown"),
    }
    assert(s@ =~= possibility_text(p));
    s
}

fn text(s: &str) -> (r: String)
    ensures
        r@ == s@,
{
    let mut out = String::new();
    out.append(s);
    assert(out@ =~= s@);
    out
}

// ---------------------------------------------------------------------------
// The detector
// ---------------------------------------------------------------------------

/// Detects double locks, conflicting locks and condvar misuse from the
/// relations and states that the analyzer found.
pub struct DeadlockDetector<'a> {
    crate_data: &'a TranslatedCrate,
    callgraph: &'a CallGraph,
    lockguards: &'a LockGuardMap,
    analyzer: &'a Analyzer<'a>,
    condvar_callsites: &'a CondvarCallSites,
}

impl<'a> DeadlockDetector<'a> {
    pub closed spec fn krate(&self) -> TranslatedCrate {
        *self.crate_data
    }

    pub closed spec fn graph(&self) -> CallGraph {
        *self.callgraph
    }

    pub closed spec fn guards(&self) -> LockGuardMap {
        *self.lockguards
    }

    pub closed spec fn relation_seq(&self) -> Seq<(LockGuardId, LockGuardId)> {
        self.analyzer.engine_spec().relation_seq()
    }

    pub closed spec fn sites(&self) -> CondvarCallSites {
        *self.condvar_callsites
    }

    pub closed spec fn condvar_states(&self) -> Seq<(CondvarKey, LiveSet<LockGuardId>)> {
        self.analyzer.condvar_states()
    }

    pub closed spec fn contexts(&self) -> Seq<LiveSet<LockGuardId>> {
        self.analyzer.engine_spec().context_seq()
    }

    /// The guards are listed once each, the call graph is well formed, and
    /// each relation is listed once.
    pub open spec fn wf(&self) -> bool {
        self.guards().wf() && self.graph().wf() && self.relation_seq().no_duplicates()
    }

    pub fn new(
        crate_data: &'a TranslatedCrate,
        callgraph: &'a CallGraph,
        lockguards: &'a LockGuardMap,
        analyzer: &'a Analyzer<'a>,
        condvar_callsites: &'a CondvarCallSites,
    ) -> (r: Self)
        ensures
            r.krate() == *crate_data,
            r.graph() == *callgraph,
            r.guards() == *lockguards,
            r.relation_seq() == analyzer.engine_spec().relation_seq(),
            r.condvar_states() == analyzer.condvar_states(),
            r.contexts() == analyzer.engine_spec().context_seq(),
            r.sites() == *condvar_callsites,
    {
        Self { crate_data, callgraph, lockguards, analyzer, condvar_callsites }
    }

    /// Whether guard `guard` belongs to a function outside std, core, alloc and the compiler.
    fn is_user_guard(&self, guard: &LockGuardId) -> (r: bool)
        ensures
            r == is_user_fun(self.krate(), guard.fun_id),
    {
        let krate = self.crate_data;
        if guard.fun_id >= krate.fun_decls.len() {
            return false;
        }
        match &krate.fun_decls[guard.fun_id] {
            Some(decl) => {
                let name = crate::lockbud::types::format_name(&decl.name);
                !str_has_prefix(name.as_str(), "std::") && !str_has_prefix(name.as_str(), "core::")
                    && !str_has_prefix(name.as_str(), "alloc::") && !str_has_prefix(name.as_str(), "rustc")
            },
            None => false,
        }
    }

    /// How likely acquiring `b` while `a` is held deadlocks, and why: unknown
    /// guards, guards acquired at the same span, and guard types that cannot
    /// conflict are unlikely; so are recursive reads of one lock; otherwise the
    /// type judgement is combined with whether the receivers alias.
    fn deadlock_possibility(&self, a: &LockGuardId, b: &LockGuardId) -> (r: (DeadlockPossibility, NotDeadlockReason))
        requires
            self.wf(),
        ensures
            r == possibility_of(self.guards(), *a, *b),
    {
        let a_info = match self.lockguards.get(a) {
            Some(i) => i,
            None => return (DeadlockPossibility::Unlikely, NotDeadlockReason::UnknownGuard),
        };
        let b_info = match self.lockguards.get(b) {
            Some(i) => i,
            None => return (DeadlockPossibility::Unlikely, NotDeadlockReason::UnknownGuard),
        };
        if a_info.span == b_info.span {
            return (DeadlockPossibility::Unlikely, NotDeadlockReason::SameSpan);
        }
        let ty_possibility = a_info.lockguard_ty.deadlock_with(&b_info.lockguard_ty);
        if let DeadlockPossibility::Unlikely = ty_possibility {
            return (DeadlockPossibility::Unlikely, NotDeadlockReason::TypeMismatch);
        }
        let reads = match (&a_info.lockguard_ty, &b_info.lockguard_ty) {
            (LockGuardTy::StdRwLockRead(_), LockGuardTy::StdRwLockRead(_)) => true,
            (LockGuardTy::ParkingLotRead(_), LockGuardTy::ParkingLotRead(_)) => true,
            (LockGuardTy::SpinRead(_), LockGuardTy::SpinRead(_)) => true,
            _ => false,
        };
        if reads && (a_info.is_recursive_read || b_info.is_recursive_read) {
            if let (Some(ra), Some(rb)) = (&a_info.receiver_place, &b_info.receiver_place) {
                if place_eq(ra, rb) {
                    return (DeadlockPossibility::Unlikely, NotDeadlockReason::RecursiveRead);
                }
            }
        }
        let alias = match (&a_info.receiver_place, &b_info.receiver_place) {
            (Some(ra), Some(rb)) => {
                if place_eq(ra, rb) {
                    DeadlockPossibility::Probably
                } else {
                    match (&ra.kind, &rb.kind) {
                        (PlaceKind::Local(la), PlaceKind::Local(lb)) => {
                            if *la != *lb {
                                DeadlockPossibility::Unlikely
                            } else {
                                DeadlockPossibility::Possibly
                            }
                        },
                        _ => DeadlockPossibility::Possibly,
                    }
                }
            },
            _ => DeadlockPossibility::Possibly,
        };
        let possibility = match (ty_possibility, alias) {
            (DeadlockPossibility::Probably, DeadlockPossibility::Probably) => DeadlockPossibility::Probably,
            (DeadlockPossibility::Probably, DeadlockPossibility::Possibly)
            | (DeadlockPossibility::Possibly, DeadlockPossibility::Probably)
            | (DeadlockPossibility::Possibly, DeadlockPossibility::Possibly) => DeadlockPossibility::Possibly,
            _ => DeadlockPossibility::Unlikely,
        };
        (possibility, NotDeadlockReason::TrueDeadlock)
    }

    /// For each simple call path from `source` to `target` of at most six
    /// functions, the spans of the calls along it, step by step.
    fn track_callchains(&self, source: FunDeclId, target: FunDeclId) -> (r: Vec<Vec<Vec<String>>>)
        requires
            self.wf(),
        ensures
            forall|i: int| 0 <= i < r@.len() ==> 1 <= (#[trigger] r@[i])@.len() <= 5,
            exists|ps: Seq<Vec<FunDeclId>>| #[trigger] chains_follow(self.graph().edge_set(), source, target, ps, r@),
    {
        let paths = self.callgraph.all_simple_paths(source, target, 6);
        let krate = self.crate_data;
        let mut chains: Vec<Vec<Vec<String>>> = Vec::new();
        let mut i: usize = 0;
        while i < paths.len()
            invariant
                i <= paths@.len(),
                chains@.len() == i,
                forall|k: int|
                    0 <= k < paths@.len() ==> is_simple_path(self.graph().edge_set(), (#[trigger] paths@[k])@, source, target)
                        && paths@[k]@.len() <= 6,
                forall|k: int| 0 <= k < i ==> 1 <= (#[trigger] chains@[k])@.len() <= 5,
                forall|k: int| 0 <= k < i ==> (#[trigger] chains@[k])@.len() == paths@[k]@.len() - 1,
            decreases paths@.len() - i,
        {
            let path = &paths[i];
            assert(is_simple_path(self.graph().edge_set(), paths@[i as int]@, source, target));
            let mut steps: Vec<Vec<String>> = Vec::new();
            let mut w: usize = 0;
            while w + 1 < path.len()
                invariant
                    2 <= path@.len() <= 6,
                    w + 1 <= path@.len(),
                    steps@.len() == w,
                decreases path@.len() - w,
            {
                let caller = path[w];
                let callee = path[w + 1];
                let blocks = self.callgraph.callsite_blocks(caller, callee);
                let mut spans: Vec<String> = Vec::new();
                if caller < krate.fun_decls.len() {
                    match &krate.fun_decls[caller] {
                        Some(decl) => match &decl.body {
                            Some(body) => {
                                let mut k: usize = 0;
                                while k < blocks.len()
                                    invariant
                                        k <= blocks@.len(),
                                    decreases blocks@.len() - k,
                                {
                                    if blocks[k] < body.body.len() {
                                        spans.push(format_span(&body.body[blocks[k]].terminator.span));
                                    }
                                    k = k + 1;
                                }
                            },
                            None => {},
                        },
                        None => {},
                    }
                }
                steps.push(spans);
                w = w + 1;
            }
            chains.push(steps);
            i = i + 1;
        }
        proof {
            assert(chains_follow(self.graph().edge_set(), source, target, paths@, chains@));
        }
        chains
    }

    /// The diagnosis of relation `(a, b)`: both guards' types and spans, and
    /// the call chains from the function of `a` to that of `b`.
    fn diagnose_relation(&self, a: &LockGuardId, b: &LockGuardId) -> (r: DeadlockDiagnosis)
        requires
            self.wf(),
            self.guards().has(*a),
            self.guards().has(*b),
        ensures
            r.first_lock_type@ == guard_ty_text(self.krate(), self.guards().info(*a).lockguard_ty),
            r.first_lock_span@ == span_text(self.guards().info(*a).span),
            r.second_lock_type@ == guard_ty_text(self.krate(), self.guards().info(*b).lockguard_ty),
            r.second_lock_span@ == span_text(self.guards().info(*b).span),
    {
        let a_info = self.lockguards.get(a).unwrap();
        let b_info = self.lockguards.get(b).unwrap();
        let callchains = self.track_callchains(a.fun_id, b.fun_id);
        DeadlockDiagnosis::new(
            format_guard_ty(self.crate_data, &a_info.lockguard_ty),
            format_span(&a_info.span),
            format_guard_ty(self.crate_data, &b_info.lockguard_ty),
            format_span(&b_info.span),
            callchains,
        )
    }
}

/// The relations of `rels` that are reported as double locks, in order.
pub open spec fn double_locks(krate: TranslatedCrate, lg: LockGuardMap, rels: Seq<(LockGuardId, LockGuardId)>) -> Seq<
    (LockGuardId, LockGuardId),
>
    decreases rels.len(),
{
    if rels.len() == 0 {
        Seq::empty()
    } else if is_double_lock(krate, lg, rels.last()) {
        double_locks(krate, lg, rels.drop_last()).push(rels.last())
    } else {
        double_locks(krate, lg, rels.drop_last())
    }
}

/// The relations of `rels` that become nodes of the conflict graph, in order.
pub open spec fn conflict_nodes(krate: TranslatedCrate, lg: LockGuardMap, rels: Seq<(LockGuardId, LockGuardId)>) -> Seq<
    (LockGuardId, LockGuardId),
>
    decreases rels.len(),
{
    if rels.len() == 0 {
        Seq::empty()
    } else if is_conflict_node(krate, lg, rels.last()) {
        conflict_nodes(krate, lg, rels.drop_last()).push(rels.last())
    } else {
        conflict_nodes(krate, lg, rels.drop_last())
    }
}

/// Relation `y` may follow relation `x` in a conflict cycle: the second guard
/// of `x` may deadlock with the first guard of `y`.
pub open spec fn conflict_step(lg: LockGuardMap, x: (LockGuardId, LockGuardId), y: (LockGuardId, LockGuardId)) -> bool {
    x != y && is_likely(possibility_of(lg, x.1, y.0).0)
}

/// `c` is a cycle of distinct conflict relations of `rels`, each followed by the next.
pub open spec fn is_relation_cycle(
    krate: TranslatedCrate,
    lg: LockGuardMap,
    rels: Seq<(LockGuardId, LockGuardId)>,
    c: Seq<(LockGuardId, LockGuardId)>,
) -> bool {
    &&& 1 <= c.len() <= 5
    &&& c.no_duplicates()
    &&& forall|i: int| 0 <= i < c.len() ==> conflict_nodes(krate, lg, rels).contains(#[trigger] c[i])
    &&& forall|i: int| 0 <= i < c.len() - 1 ==> conflict_step(lg, #[trigger] c[i], c[i + 1])
    &&& conflict_step(lg, c.last(), c[0])
}

/// The diagnosis names the guards of relation `r` by their types and spans.
pub open spec fn diagnoses_relation(
    krate: TranslatedCrate,
    lg: LockGuardMap,
    d: DeadlockDiagnosis,
    r: (LockGuardId, LockGuardId),
) -> bool {
    &&& d.first_lock_type@ == guard_ty_text(krate, lg.info(r.0).lockguard_ty)
    &&& d.first_lock_span@ == span_text(lg.info(r.0).span)
    &&& d.second_lock_type@ == guard_ty_text(krate, lg.info(r.1).lockguard_ty)
    &&& d.second_lock_span@ == span_text(lg.info(r.1).span)
}

proof fn lemma_double_locks_step(krate: TranslatedCrate, lg: LockGuardMap, rels: Seq<(LockGuardId, LockGuardId)>, i: int)
    requires
        0 <= i < rels.len(),
    ensures
        double_locks(krate, lg, rels.take(i + 1)) == if is_double_lock(krate, lg, rels[i]) {
            double_locks(krate, lg, rels.take(i)).push(rels[i])
        } else {
            double_locks(krate, lg, rels.take(i))
        },
        conflict_nodes(krate, lg, rels.take(i + 1)) == if is_conflict_node(krate, lg, rels[i]) {
            conflict_nodes(krate, lg, rels.take(i)).push(rels[i])
        } else {
            conflict_nodes(krate, lg, rels.take(i))
        },
{
    assert(rels.take(i + 1).drop_last() =~= rels.take(i));
    assert(rels.take(i + 1).last() == rels[i]);
}

proof fn lemma_conflict_nodes_in(krate: TranslatedCrate, lg: LockGuardMap, rels: Seq<(LockGuardId, LockGuardId)>)
    requires
        rels.no_duplicates(),
    ensures
        conflict_nodes(krate, lg, rels).no_duplicates(),
        forall|x: (LockGuardId, LockGuardId)| #[trigger]
            conflict_nodes(krate, lg, rels).contains(x) ==> rels.contains(x) && is_conflict_node(krate, lg, x),
    decreases rels.len(),
{
    if rels.len() > 0 {
        let d = rels.drop_last();
        assert(d.no_duplicates()) by {
            assert forall|i: int, j: int| 0 <= i < j < d.len() implies d[i] != d[j] by {
                assert(d[i] == rels[i] && d[j] == rels[j]);
            }
        }
        lemma_conflict_nodes_in(krate, lg, d);
        if is_conflict_node(krate, lg, rels.last()) {
            assert(!d.contains(rels.last())) by {
                if d.contains(rels.last()) {
                    let k = choose|k: int| 0 <= k < d.len() && d[k] == rels.last();
                    assert(rels[k] == rels[rels.len() - 1]);
                }
            }
            crate::seqs::lemma_push_nodup(conflict_nodes(krate, lg, d), rels.last());
        }
        assert forall|x: (LockGuardId, LockGuardId)| #[trigger]
            conflict_nodes(krate, lg, rels).contains(x) implies rels.contains(x) && is_conflict_node(krate, lg, x) by {
            if conflict_nodes(krate, lg, d).contains(x) {
                let k = choose|k: int| 0 <= k < d.len() && d[k] == x;
                assert(rels[k] == x);
            } else {
                assert(x == rels.last());
                assert(rels[rels.len() - 1] == x);
            }
        }
    }
}

impl<'a> DeadlockDetector<'a> {
    /// Reports each relation that is a double lock, and builds the graph whose
    /// nodes are the other relations between user guards that were not judged
    /// unlikely for sharing a span, with an edge from one to another where the
    /// second guard of the first may deadlock with the first guard of the other.
    fn relation_phase(&self) -> (r: (Vec<Report>, ConflictLockGraph))
        requires
            self.wf(),
        ensures
            r.0@.len() == double_locks(self.krate(), self.guards(), self.relation_seq()).len(),
            forall|i: int|
                0 <= i < r.0@.len() ==> {
                    let p = double_locks(self.krate(), self.guards(), self.relation_seq())[i];
                    &&& (#[trigger] r.0@[i]) is DoubleLock
                    &&& r.0@[i]->DoubleLock_0.bug_kind@ == "DoubleLock"@
                    &&& r.0@[i]->DoubleLock_0.possibility@ == possibility_text(possibility_of(self.guards(), p.0, p.1).0)
                    &&& diagnoses_relation(self.krate(), self.guards(), r.0@[i]->DoubleLock_0.diagnosis, p)
                },
            r.1.nodes() == conflict_nodes(self.krate(), self.guards(), self.relation_seq()),
            forall|a: usize, b: usize|
                #[trigger] has_conflict_edge(r.1.edges(), a, b) <==> a < r.1.nodes().len() && b < r.1.nodes().len()
                    && conflict_step(self.guards(), r.1.nodes()[a as int], r.1.nodes()[b as int]),
    {
        let rels = self.analyzer.relations();
        let ghost rs = rels@;
        let ghost krate = self.krate();
        let ghost lg = self.guards();
        let mut reports: Vec<Report> = Vec::new();
        let mut graph = ConflictLockGraph::new();
        let mut i: usize = 0;
        while i < rels.len()
            invariant
                self.wf(),
                rs == rels@,
                rs == self.relation_seq(),
                krate == self.krate(),
                lg == self.guards(),
                i <= rs.len(),
                reports@.len() == double_locks(krate, lg, rs.take(i as int)).len(),
                forall|k: int|
                    0 <= k < reports@.len() ==> {
                        let p = double_locks(krate, lg, rs.take(i as int))[k];
                        &&& (#[trigger] reports@[k]) is DoubleLock
                        &&& reports@[k]->DoubleLock_0.bug_kind@ == "DoubleLock"@
                        &&& reports@[k]->DoubleLock_0.possibility@ == possibility_text(possibility_of(lg, p.0, p.1).0)
                        &&& diagnoses_relation(krate, lg, reports@[k]->DoubleLock_0.diagnosis, p)
                    },
                graph.nodes() == conflict_nodes(krate, lg, rs.take(i as int)),
                graph.edges().len() == 0,
            decreases rs.len() - i,
        {
            let (a, b) = rels[i];
            proof {
                lemma_double_locks_step(krate, lg, rs, i as int);
            }
            let ghost before = reports@;
            if self.is_user_guard(&a) && self.is_user_guard(&b) {
                let (possibility, reason) = self.deadlock_possibility(&a, &b);
                match possibility {
                    DeadlockPossibility::Probably | DeadlockPossibility::Possibly => {
                        let diagnosis = self.diagnose_relation(&a, &b);
                        let report = Report::DoubleLock(
                            ReportContent::new(
                                text("DoubleLock"),
                                possibility_string(possibility),
                                diagnosis,
                                text("The first lock is not released when acquiring the second lock"),
                            ),
                        );
                        reports.push(report);
                        proof {
                            assert forall|k: int| 0 <= k < reports@.len() implies {
                                let p = double_locks(krate, lg, rs.take(i + 1))[k];
                                &&& (#[trigger] reports@[k]) is DoubleLock
                                &&& reports@[k]->DoubleLock_0.bug_kind@ == "DoubleLock"@
                                &&& reports@[k]->DoubleLock_0.possibility@ == possibility_text(possibility_of(lg, p.0, p.1).0)
                                &&& diagnoses_relation(krate, lg, reports@[k]->DoubleLock_0.diagnosis, p)
                            } by {
                                if k < before.len() {
                                    assert(reports@[k] == before[k]);
                                }
                            }
                        }
                    },
                    _ => {
                        if reason != NotDeadlockReason::SameSpan {
                            graph.add_node((a, b));
                        }
                    },
                }
            }
            i = i + 1;
        }
        proof {
            assert(rs.take(rs.len() as int) =~= rs);
            lemma_conflict_nodes_in(krate, lg, rs);
        }
        let n = graph.node_count();
        let ghost nodes = graph.nodes();
        let mut n1: usize = 0;
        while n1 < n
            invariant
                self.wf(),
                lg == self.guards(),
                n == nodes.len(),
                graph.nodes() == nodes,
                n1 <= n,
                forall|a: usize, b: usize|
                    #[trigger] has_conflict_edge(graph.edges(), a, b) ==> a < n && b < n && conflict_step(lg, nodes[a as int], nodes[b as int]),
                forall|a: usize, b: usize|
                    a < n1 && b < n && conflict_step(lg, nodes[a as int], nodes[b as int]) ==> #[trigger] has_conflict_edge(graph.edges(), a, b),
                nodes.no_duplicates(),
            decreases n - n1,
        {
            let second = graph.node_weight(n1).unwrap().1;
            let mut n2: usize = 0;
            while n2 < n
                invariant
                    self.wf(),
                    lg == self.guards(),
                    n == nodes.len(),
                    graph.nodes() == nodes,
                    n1 < n,
                    n2 <= n,
                    second == nodes[n1 as int].1,
                    forall|a: usize, b: usize|
                        #[trigger] has_conflict_edge(graph.edges(), a, b) ==> a < n && b < n && conflict_step(lg, nodes[a as int], nodes[b as int]),
                    forall|a: usize, b: usize|
                        (a < n1 || (a == n1 && b < n2)) && b < n && conflict_step(lg, nodes[a as int], nodes[b as int])
                            ==> #[trigger] has_conflict_edge(graph.edges(), a, b),
                    nodes.no_duplicates(),
                decreases n - n2,
            {
                let ghost eb = graph.edges();
                if n1 != n2 {
                    let first = graph.node_weight(n2).unwrap().0;
                    let (possibility, _) = self.deadlock_possibility(&second, &first);
                    match possibility {
                        DeadlockPossibility::Probably | DeadlockPossibility::Possibly => {
                            let ghost before = graph.edges();
                            graph.add_edge(n1, n2, possibility);
                            proof {
                                assert(nodes[n1 as int] != nodes[n2 as int]);
                                assert forall|a: usize, b: usize| #[trigger] has_conflict_edge(graph.edges(), a, b) implies a < n && b < n
                                    && conflict_step(lg, nodes[a as int], nodes[b as int]) by {
                                    let k = choose|k: int| 0 <= k < graph.edges().len() && (#[trigger] graph.edges()[k]).0 == a && graph.edges()[k].1 == b;
                                    if k < before.len() {
                                        assert(before[k] == graph.edges()[k]);
                                        assert(has_conflict_edge(before, a, b));
                                    }
                                }
                                assert(graph.edges()[before.len() as int] == (n1, n2, possibility));
                                assert(has_conflict_edge(graph.edges(), n1, n2));
                            }
                        },
                        _ => {},
                    }
                } else {
                    assert(!conflict_step(lg, nodes[n1 as int], nodes[n2 as int]));
                }
                proof {
                    assert forall|a: usize, b: usize|
                        (a < n1 || (a == n1 && b < n2 + 1)) && b < n && conflict_step(lg, nodes[a as int], nodes[b as int])
                            implies #[trigger] has_conflict_edge(graph.edges(), a, b) by {
                        if !(a == n1 && b == n2) {
                            assert(has_conflict_edge(eb, a, b));
                            let k = choose|k: int| 0 <= k < eb.len() && (#[trigger] eb[k]).0 == a && eb[k].1 == b;
                            assert(graph.edges()[k] == eb[k]);
                        }
                    }
                }
                n2 = n2 + 1;
            }
            n1 = n1 + 1;
        }
        (reports, graph)
    }
}

/// Report `r[i]` diagnoses, relation by relation, the nodes of cycle `cs[i]`
/// of the conflict graph; the cycles of at most five nodes are all there up
/// to rotation and direction.
pub open spec fn reports_follow_cycles(
    edges: Seq<(usize, usize, DeadlockPossibility)>,
    nodes: Seq<(LockGuardId, LockGuardId)>,
    krate: TranslatedCrate,
    lg: LockGuardMap,
    cs: Seq<Vec<usize>>,
    r: Seq<Report>,
) -> bool {
    &&& cs.len() == r.len()
    &&& forall|i: int|
        0 <= i < r.len() ==> (#[trigger] r[i]) is ConflictLock && r[i]->ConflictLock_0.diagnosis@.len() == cs[i]@.len()
            && forall|j: int|
            0 <= j < cs[i]@.len() ==> diagnoses_relation(krate, lg, #[trigger] r[i]->ConflictLock_0.diagnosis@[j], nodes[cs[i]@[j] as int])
    &&& forall|c: Seq<usize>|
        #[trigger] is_conflict_cycle(edges, c) && c.len() <= 5 ==> exists|i: int| 0 <= i < cs.len() && canonical((#[trigger] cs[i])@) == canonical(c)
}

impl<'a> DeadlockDetector<'a> {
    /// One conflict-lock report per cycle of the conflict graph, with the
    /// diagnosis of each relation along the cycle.
    fn conflict_reports(&self, graph: &ConflictLockGraph) -> (r: Vec<Report>)
        requires
            self.wf(),
            graph.nodes() == conflict_nodes(self.krate(), self.guards(), self.relation_seq()),
            forall|a: usize, b: usize|
                #[trigger] has_conflict_edge(graph.edges(), a, b) ==> a < graph.nodes().len() && b < graph.nodes().len()
                    && conflict_step(self.guards(), graph.nodes()[a as int], graph.nodes()[b as int]),
        ensures
            forall|i: int|
                0 <= i < r@.len() ==> {
                    &&& (#[trigger] r@[i]) is ConflictLock
                    &&& r@[i]->ConflictLock_0.bug_kind@ == "ConflictLock"@
                    &&& r@[i]->ConflictLock_0.possibility@ == "Possibly"@
                    &&& exists|c: Seq<(LockGuardId, LockGuardId)>|
                        #![trigger is_relation_cycle(self.krate(), self.guards(), self.relation_seq(), c)]
                        is_relation_cycle(self.krate(), self.guards(), self.relation_seq(), c)
                            && r@[i]->ConflictLock_0.diagnosis@.len() == c.len() && forall|j: int|
                            0 <= j < c.len() ==> diagnoses_relation(
                                self.krate(),
                                self.guards(),
                                #[trigger] r@[i]->ConflictLock_0.diagnosis@[j],
                                c[j],
                            )
                },
            exists|cs: Seq<Vec<usize>>|
                #[trigger] reports_follow_cycles(graph.edges(), graph.nodes(), self.krate(), self.guards(), cs, r@),
    {
        let ghost krate = self.krate();
        let ghost lg = self.guards();
        let ghost rels = self.relation_seq();
        let ghost nodes = graph.nodes();
        proof {
            lemma_conflict_nodes_in(krate, lg, rels);
        }
        let cycles = graph.simple_cycles();
        let mut reports: Vec<Report> = Vec::new();
        let mut i: usize = 0;
        while i < cycles.len()
            invariant
                self.wf(),
                krate == self.krate(),
                lg == self.guards(),
                rels == self.relation_seq(),
                nodes == graph.nodes(),
                nodes == conflict_nodes(krate, lg, rels),
                nodes.no_duplicates(),
                forall|a: usize, b: usize|
                    #[trigger] has_conflict_edge(graph.edges(), a, b) ==> a < nodes.len() && b < nodes.len()
                        && conflict_step(lg, nodes[a as int], nodes[b as int]),
                forall|k: int|
                    0 <= k < cycles@.len() ==> is_conflict_cycle(graph.edges(), (#[trigger] cycles@[k])@) && cycles@[k]@.len() <= 5,
                i <= cycles@.len(),
                reports@.len() == i,
                forall|k: int|
                    0 <= k < i ==> (#[trigger] reports@[k])->ConflictLock_0.diagnosis@.len() == cycles@[k]@.len() && forall|x: int|
                        0 <= x < cycles@[k]@.len() ==> diagnoses_relation(
                            krate,
                            lg,
                            #[trigger] reports@[k]->ConflictLock_0.diagnosis@[x],
                            nodes[cycles@[k]@[x] as int],
                        ),
                forall|k: int|
                    0 <= k < reports@.len() ==> {
                        &&& (#[trigger] reports@[k]) is ConflictLock
                        &&& reports@[k]->ConflictLock_0.bug_kind@ == "ConflictLock"@
                        &&& reports@[k]->ConflictLock_0.possibility@ == "Possibly"@
                        &&& exists|c: Seq<(LockGuardId, LockGuardId)>|
                            #![trigger is_relation_cycle(krate, lg, rels, c)]
                            is_relation_cycle(krate, lg, rels, c) && reports@[k]->ConflictLock_0.diagnosis@.len() == c.len()
                                && forall|j: int|
                                0 <= j < c.len() ==> diagnoses_relation(
                                    krate,
                                    lg,
                                    #[trigger] reports@[k]->ConflictLock_0.diagnosis@[j],
                                    c[j],
                                )
                    },
            decreases cycles@.len() - i,
        {
            let cycle = &cycles[i];
            let ghost cyc = cycle@;
            let ghost crel = Seq::new(cyc.len(), |j: int| nodes[cyc[j] as int]);
            proof {
                assert(is_conflict_cycle(graph.edges(), cyc));
                assert forall|j: int| 0 <= j < cyc.len() implies (#[trigger] cyc[j]) < nodes.len() by {
                    if j < cyc.len() - 1 {
                        assert(has_conflict_edge(graph.edges(), cyc[j], cyc[j + 1]));
                    } else {
                        assert(has_conflict_edge(graph.edges(), cyc.last(), cyc[0]));
                    }
                }
                assert forall|j: int| 0 <= j < crel.len() - 1 implies conflict_step(lg, #[trigger] crel[j], crel[j + 1]) by {
                    assert(has_conflict_edge(graph.edges(), cyc[j], cyc[j + 1]));
                }
                assert(has_conflict_edge(graph.edges(), cyc.last(), cyc[0]));
                assert(conflict_step(lg, crel.last(), crel[0]));
                assert(crel.no_duplicates()) by {
                    assert forall|x: int, y: int| 0 <= x < y < crel.len() implies crel[x] != crel[y] by {
                        assert(cyc[x] != cyc[y]);
                    }
                }
                assert forall|j: int| 0 <= j < crel.len() implies nodes.contains(#[trigger] crel[j]) by {
                    assert(nodes[cyc[j] as int] == crel[j]);
                }
                assert(is_relation_cycle(krate, lg, rels, crel));
            }
            let mut diagnosis: Vec<DeadlockDiagnosis> = Vec::new();
            let mut j: usize = 0;
            while j < cycle.len()
                invariant
                    self.wf(),
                    krate == self.krate(),
                    lg == self.guards(),
                    nodes == graph.nodes(),
                    cyc == cycle@,
                    1 <= cyc.len() <= 5,
                    crel.len() == cyc.len(),
                    forall|x: int| 0 <= x < cyc.len() ==> (#[trigger] cyc[x]) < nodes.len(),
                    forall|x: int| 0 <= x < crel.len() ==> #[trigger] crel[x] == nodes[cyc[x] as int],
                    forall|x: int| 0 <= x < crel.len() - 1 ==> conflict_step(lg, #[trigger] crel[x], crel[x + 1]),
                    conflict_step(lg, crel.last(), crel[0]),
                    j <= cyc.len(),
                    diagnosis@.len() == j,
                    forall|x: int| 0 <= x < j ==> diagnoses_relation(krate, lg, #[trigger] diagnosis@[x], crel[x]),
                decreases cyc.len() - j,
            {
                let node = cycle[j];
                let (a, b) = *graph.node_weight(node).unwrap();
                proof {
                    assert(crel[j as int] == (a, b));
                    // the guards of a relation on a cycle are known: each takes part in a likely step
                    let nxt = if j + 1 < cyc.len() { j + 1 } else { 0 };
                    let prv = if j > 0 { j - 1 } else { cyc.len() - 1 };
                    if j + 1 < cyc.len() {
                        assert(conflict_step(lg, crel[j as int], crel[j + 1]));
                    }
                    if j > 0 {
                        assert(conflict_step(lg, crel[j - 1], crel[j as int]));
                    }
                    assert(lg.has(b));
                    assert(lg.has(a));
                }
                let d = self.diagnose_relation(&a, &b);
                diagnosis.push(d);
                j = j + 1;
            }
            let report = Report::ConflictLock(
                ReportContent::new(
                    text("ConflictLock"),
                    text("Possibly"),
                    diagnosis,
                    text("Locks mutually wait for each other to form a cycle"),
                ),
            );
            let ghost before = reports@;
            reports.push(report);
            proof {
                assert(is_relation_cycle(krate, lg, rels, crel));
                assert forall|k: int| 0 <= k < reports@.len() implies {
                    &&& (#[trigger] reports@[k]) is ConflictLock
                    &&& reports@[k]->ConflictLock_0.bug_kind@ == "ConflictLock"@
                    &&& reports@[k]->ConflictLock_0.possibility@ == "Possibly"@
                    &&& exists|c: Seq<(LockGuardId, LockGuardId)>|
                        #![trigger is_relation_cycle(krate, lg, rels, c)]
                        is_relation_cycle(krate, lg, rels, c) && reports@[k]->ConflictLock_0.diagnosis@.len() == c.len()
                            && forall|x: int|
                            0 <= x < c.len() ==> diagnoses_relation(krate, lg, #[trigger] reports@[k]->ConflictLock_0.diagnosis@[x], c[x])
                } by {
                    if k < before.len() {
                        assert(reports@[k] == before[k]);
                    } else {
                        assert(is_relation_cycle(krate, lg, rels, crel));
                    }
                }
                assert forall|k: int| 0 <= k < i + 1 implies (#[trigger] reports@[k])->ConflictLock_0.diagnosis@.len()
                    == cycles@[k]@.len() && forall|x: int|
                    0 <= x < cycles@[k]@.len() ==> diagnoses_relation(
                        krate,
                        lg,
                        #[trigger] reports@[k]->ConflictLock_0.diagnosis@[x],
                        nodes[cycles@[k]@[x] as int],
                    ) by {
                    if k < before.len() {
                        assert(reports@[k] == before[k]);
                    } else {
                        assert forall|x: int| 0 <= x < cyc.len() implies diagnoses_relation(
                            krate,
                            lg,
                            #[trigger] reports@[k]->ConflictLock_0.diagnosis@[x],
                            nodes[cycles@[k]@[x] as int],
                        ) by {
                            assert(crel[x] == nodes[cyc[x] as int]);
                        }
                    }
                }
            }
            i = i + 1;
        }
        proof {
            assert(reports_follow_cycles(graph.edges(), graph.nodes(), krate, lg, cycles@, reports@));
        }
        reports
    }
}

/// Whether the condvar call is a wait.
pub open spec fn is_wait_api(api: CondvarApi) -> bool {
    api matches CondvarApi::Std(StdCondvarApi::Wait(_)) || api matches CondvarApi::ParkingLot(ParkingLotCondvarApi::Wait(_))
}

/// The call ending the block of `key`'s location in its caller's body, where there is one.
pub open spec fn call_at(krate: TranslatedCrate, key: CondvarKey) -> Option<crate::lockbud::ullbc::Call> {
    match krate.body_of(key.0 as int) {
        Some(body) => if key.1.block < body.body@.len() {
            match body.body@[key.1.block as int].terminator.kind {
                TerminatorKind::Call { call, .. } => Some(call),
                _ => None,
            }
        } else {
            None
        },
        None => None,
    }
}

/// A wait at `key`: the condvar it waits on and the guard moved into it, each
/// followed through the caller's borrows.
pub open spec fn wait_entry(krate: TranslatedCrate, key: CondvarKey, api: CondvarApi) -> Option<(CondvarKey, Place, Place)> {
    let refs = fun_refs(krate, key.0 as int);
    match call_at(krate, key) {
        Some(call) => if is_wait_api(api) && call.args@.len() >= 2 && operand_place(call.args@[0]) is Some
            && call.args@[1] is Move {
            Some((key, resolve_spec(operand_place(call.args@[0])->0, refs, refs.len()), resolve_spec(call.args@[1]->Move_0, refs, refs.len())))
        } else {
            None
        },
        None => None,
    }
}

/// A notify at `key`: the condvar it notifies, followed through the caller's borrows.
pub open spec fn notify_entry(krate: TranslatedCrate, key: CondvarKey, api: CondvarApi) -> Option<(CondvarKey, Place)> {
    let refs = fun_refs(krate, key.0 as int);
    match call_at(krate, key) {
        Some(call) => if !is_wait_api(api) && call.args@.len() >= 1 && operand_place(call.args@[0]) is Some {
            Some((key, resolve_spec(operand_place(call.args@[0])->0, refs, refs.len())))
        } else {
            None
        },
        None => None,
    }
}

/// The waits among the first `n` condvar calls of the library `std` says, in order.
pub open spec fn waits_of(krate: TranslatedCrate, sites: Seq<(CondvarKey, CondvarApi)>, std: bool, n: int) -> Seq<(CondvarKey, Place, Place)>
    decreases n,
{
    if n <= 0 {
        Seq::empty()
    } else {
        let (key, api) = sites[n - 1];
        waits_of(krate, sites, std, n - 1) + if (api is Std) == std && wait_entry(krate, key, api) is Some {
            seq![wait_entry(krate, key, api)->0]
        } else {
            Seq::empty()
        }
    }
}

/// The notifies among the first `n` condvar calls of the library `std` says, in order.
pub open spec fn notifies_of(krate: TranslatedCrate, sites: Seq<(CondvarKey, CondvarApi)>, std: bool, n: int) -> Seq<(CondvarKey, Place)>
    decreases n,
{
    if n <= 0 {
        Seq::empty()
    } else {
        let (key, api) = sites[n - 1];
        notifies_of(krate, sites, std, n - 1) + if (api is Std) == std && notify_entry(krate, key, api) is Some {
            seq![notify_entry(krate, key, api)->0]
        } else {
            Seq::empty()
        }
    }
}

// ---------------------------------------------------------------------------
// Condvar misuse
// ---------------------------------------------------------------------------

/// The local a statement borrows into and the place it borrows, if it is a borrow.
pub open spec fn stmt_ref(s: crate::lockbud::ullbc::Statement) -> Option<(LocalId, Place)> {
    match s.kind {
        StatementKind::Assign(dest, rv) => match rv {
            Rvalue::Ref(p) => match base_local(dest) {
                Some(l) => Some((l, p)),
                None => None,
            },
            _ => None,
        },
        _ => None,
    }
}

/// The borrows of a list of statements, in order.
pub open spec fn stmts_refs(ss: Seq<crate::lockbud::ullbc::Statement>) -> Seq<(LocalId, Place)>
    decreases ss.len(),
{
    if ss.len() == 0 {
        Seq::empty()
    } else {
        match stmt_ref(ss.last()) {
            Some(x) => stmts_refs(ss.drop_last()).push(x),
            None => stmts_refs(ss.drop_last()),
        }
    }
}

/// The borrows of a list of blocks, block by block, in order.
pub open spec fn blocks_refs(bs: Seq<crate::lockbud::ullbc::BlockData>) -> Seq<(LocalId, Place)>
    decreases bs.len(),
{
    if bs.len() == 0 {
        Seq::empty()
    } else {
        blocks_refs(bs.drop_last()) + stmts_refs(bs.last().statements@)
    }
}

/// The borrows of function `f`'s body, in order; none where it has no body.
pub open spec fn fun_refs(krate: TranslatedCrate, f: int) -> Seq<(LocalId, Place)> {
    match krate.body_of(f) {
        Some(body) => blocks_refs(body.body@),
        None => Seq::empty(),
    }
}

/// The place that local `l` was last borrowed from, if it was.
pub open spec fn ref_target(refs: Seq<(LocalId, Place)>, l: LocalId) -> Option<Place>
    decreases refs.len(),
{
    if refs.len() == 0 {
        None
    } else if refs.last().0 == l {
        Some(refs.last().1)
    } else {
        ref_target(refs.drop_last(), l)
    }
}

/// A place with each local that was borrowed into replaced by the place it
/// borrows, following at most `fuel` borrows.
pub open spec fn resolve_spec(p: Place, refs: Seq<(LocalId, Place)>, fuel: nat) -> Place
    decreases fuel, p,
{
    match p.kind {
        PlaceKind::Local(l) => if fuel > 0 && ref_target(refs, l) is Some {
            resolve_spec(ref_target(refs, l)->0, refs, (fuel - 1) as nat)
        } else {
            p
        },
        PlaceKind::Projection(inner, e) => Place {
            kind: PlaceKind::Projection(Box::new(resolve_spec(*inner, refs, fuel)), e),
            ty: p.ty,
        },
        PlaceKind::Global(_) => p,
    }
}

/// The receiver of `g1` is the local that the mutex argument of the wait is.
pub open spec fn aliases_mutex(rp: Option<Place>, mutex_local: Option<LocalId>) -> bool {
    rp is Some && mutex_local is Some && rp->0.kind is Local && rp->0.kind->Local_0 == mutex_local->0
}

/// `g1`, live before the wait, and `g2`, live before the notify, are guards
/// of the same lock that may deadlock, and `g1` is not the mutex the wait releases.
pub open spec fn misuse_pair(
    lg: LockGuardMap,
    live1: Set<LockGuardId>,
    live2: Set<LockGuardId>,
    mutex_local: Option<LocalId>,
    g1: LockGuardId,
    g2: LockGuardId,
) -> bool {
    &&& live1.contains(g1)
    &&& live2.contains(g2)
    &&& lg.has(g1)
    &&& lg.has(g2)
    &&& same_receiver(lg.info(g1).receiver_place, lg.info(g2).receiver_place)
    &&& possibility_rank(possibility_of(lg, g1, g2).0) > 1
    &&& !aliases_mutex(lg.info(g1).receiver_place, mutex_local)
}

/// The live guards recorded for `key`, the last recording winning.
pub open spec fn recorded_state(m: Seq<(CondvarKey, LiveSet<LockGuardId>)>, key: CondvarKey) -> Option<Set<LockGuardId>>
    decreases m.len(),
{
    if m.len() == 0 {
        None
    } else if m.last().0 == key {
        Some(m.last().1@)
    } else {
        recorded_state(m.drop_last(), key)
    }
}

/// The borrows recorded for local `l`: the last one.
pub fn lookup_ref<'b>(refs: &'b Vec<(LocalId, Place)>, l: LocalId) -> (r: Option<&'b Place>)
    ensures
        match r {
            Some(p) => ref_target(refs@, l) == Some(*p),
            None => ref_target(refs@, l) is None,
        },
{
    let mut i = refs.len();
    assert(refs@.take(i as int) =~= refs@);
    while i > 0
        invariant
            i <= refs@.len(),
            ref_target(refs@, l) == ref_target(refs@.take(i as int), l),
        decreases i,
    {
        assert(refs@.take(i as int).drop_last() =~= refs@.take(i - 1));
        if refs[i - 1].0 == l {
            return Some(&refs[i - 1].1);
        }
        i = i - 1;
    }
    None
}

/// Follows the borrows of `refs` through `place`, at most `fuel` of them.
fn resolve_with(place: &Place, refs: &Vec<(LocalId, Place)>, fuel: usize) -> (r: Place)
    ensures
        r == resolve_spec(*place, refs@, fuel as nat),
    decreases fuel, place,
{
    match &place.kind {
        PlaceKind::Local(l) => {
            if fuel > 0 {
                match lookup_ref(refs, *l) {
                    Some(underlying) => resolve_with(underlying, refs, fuel - 1),
                    None => copy_place(place),
                }
            } else {
                copy_place(place)
            }
        },
        PlaceKind::Projection(inner, e) => {
            let resolved = resolve_with(inner, refs, fuel);
            Place { kind: PlaceKind::Projection(Box::new(resolved), *e), ty: copy_ty(&place.ty) }
        },
        PlaceKind::Global(_) => copy_place(place),
    }
}

/// A place with each local that was borrowed into replaced by the place it
/// borrows; a chain of borrows is followed at most as many steps as there
/// are borrows, which no chain of a well-typed body exceeds.
pub fn resolve_place_through_refs(place: &Place, ref_places: &Vec<(LocalId, Place)>) -> (r: Place)
    ensures
        r == resolve_spec(*place, ref_places@, ref_places@.len()),
{
    resolve_with(place, ref_places, ref_places.len())
}

impl<'a> DeadlockDetector<'a> {
    /// The borrows of function `fun_id`'s body: each local assigned a
    /// reference, with the place it references, in order.
    fn build_ref_places_for_function(&self, fun_id: FunDeclId) -> (r: Vec<(LocalId, Place)>)
        ensures
            r@ == fun_refs(self.krate(), fun_id as int),
    {
        let mut ref_places: Vec<(LocalId, Place)> = Vec::new();
        let krate = self.crate_data;
        if fun_id >= krate.fun_decls.len() {
            return ref_places;
        }
        let body = match &krate.fun_decls[fun_id] {
            Some(decl) => match &decl.body {
                Some(b) => b,
                None => return ref_places,
            },
            None => return ref_places,
        };
        let mut b: usize = 0;
        while b < body.body.len()
            invariant
                b <= body.body@.len(),
                ref_places@ == blocks_refs(body.body@.take(b as int)),
            decreases body.body@.len() - b,
        {
            let block = &body.body[b];
            let ghost start = ref_places@;
            let mut k: usize = 0;
            while k < block.statements.len()
                invariant
                    k <= block.statements@.len(),
                    ref_places@ == start + stmts_refs(block.statements@.take(k as int)),
                decreases block.statements@.len() - k,
            {
                let stmt = &block.statements[k];
                proof {
                    assert(block.statements@.take(k + 1).drop_last() =~= block.statements@.take(k as int));
                    assert(block.statements@.take(k + 1).last() == block.statements@[k as int]);
                }
                match &stmt.kind {
                    StatementKind::Assign(dest, rvalue) => {
                        match dest.local_id() {
                            Some(dest_local) => match rvalue {
                                Rvalue::Ref(ref_place) => {
                                    ref_places.push((dest_local, copy_place(ref_place)));
                                },
                                _ => {},
                            },
                            None => {},
                        }
                    },
                    _ => {},
                }
                assert(ref_places@ =~= start + stmts_refs(block.statements@.take(k + 1)));
                k = k + 1;
            }
            proof {
                assert(block.statements@.take(block.statements@.len() as int) =~= block.statements@);
                assert(body.body@.take(b + 1).drop_last() =~= body.body@.take(b as int));
                assert(body.body@.take(b + 1).last() == body.body@[b as int]);
            }
            b = b + 1;
        }
        assert(body.body@.take(body.body@.len() as int) =~= body.body@);
        ref_places
    }
}

/// The live guards recorded for `key`, the last recording winning.
fn recorded_live(m: &Vec<(CondvarKey, LiveSet<LockGuardId>)>, key: &CondvarKey) -> (r: Option<Vec<LockGuardId>>)
    ensures
        match r {
            Some(v) => recorded_state(m@, *key) == Some(v@.to_set()),
            None => recorded_state(m@, *key) is None,
        },
{
    let ghost ms = m@;
    let mut i = m.len();
    assert(ms.take(i as int) =~= ms);
    while i > 0
        invariant
            i <= ms.len(),
            m@ == ms,
            recorded_state(ms, *key) == recorded_state(ms.take(i as int), *key),
        decreases i,
    {
        assert(ms.take(i as int).drop_last() =~= ms.take(i - 1));
        let entry = &m[i - 1];
        if entry.0.0 == key.0 && entry.0.1 == key.1 && entry.0.2 == key.2 {
            assert(ms.take(i as int).last() == ms[i - 1]);
            assert(entry.0 == *key);
            let v = entry.1.iter();
            assert(ms[i - 1].1@ == v@.to_set());
            return Some(v);
        }
        i = i - 1;
    }
    assert(ms.take(0).len() == 0);
    None
}

/// The printed span of the call at the site `key`, or nothing where there is no such block.
pub open spec fn site_span_text(krate: TranslatedCrate, key: CondvarKey) -> Seq<char> {
    match krate.body_of(key.0 as int) {
        Some(body) => if key.1.block < body.body@.len() {
            span_text(body.body@[key.1.block as int].terminator.span)
        } else {
            Seq::empty()
        },
        None => Seq::empty(),
    }
}

/// The pair of guards is described by their types and spans, the first as held at the wait.
pub open spec fn describes_pair(
    krate: TranslatedCrate,
    lg: LockGuardMap,
    w: WaitNotifyLocks,
    p: (LockGuardId, LockGuardId),
) -> bool {
    &&& w.wait_lock_type@ == guard_ty_text(krate, lg.info(p.0).lockguard_ty)
    &&& w.wait_lock_span@ == span_text(lg.info(p.0).span)
    &&& w.notify_lock_type@ == guard_ty_text(krate, lg.info(p.1).lockguard_ty)
    &&& w.notify_lock_span@ == span_text(lg.info(p.1).span)
}

/// A report of condvar misuse.
pub open spec fn is_condvar_report(r: Report) -> bool {
    &&& r is CondvarDeadlock
    &&& r->CondvarDeadlock_0.bug_kind@ == "CondvarDeadlock"@
    &&& r->CondvarDeadlock_0.possibility@ == "Possibly"@
    &&& r->CondvarDeadlock_0.diagnosis.deadlocks@.len() > 0
}

/// `ps` lists each misusing pair of guards of the live sets `s1` and `s2`,
/// and the entries `dl` describe them one by one.
pub open spec fn pairs_listed(
    krate: TranslatedCrate,
    lg: LockGuardMap,
    s1: Set<LockGuardId>,
    s2: Set<LockGuardId>,
    ml: Option<LocalId>,
    ps: Seq<(LockGuardId, LockGuardId)>,
    dl: Seq<WaitNotifyLocks>,
) -> bool {
    &&& forall|p: (LockGuardId, LockGuardId)| #[trigger] ps.contains(p) <==> misuse_pair(lg, s1, s2, ml, p.0, p.1)
    &&& ps.len() == dl.len()
    &&& forall|i: int| 0 <= i < ps.len() ==> describes_pair(krate, lg, #[trigger] dl[i], ps[i])
}

/// `r` reports the wait at `wk` and the notify at `nk` of the std or the
/// parking_lot condvar, with the misusing pairs of guards of the live sets.
pub open spec fn reports_wait_notify(
    krate: TranslatedCrate,
    lg: LockGuardMap,
    r: Report,
    wk: CondvarKey,
    nk: CondvarKey,
    std: bool,
    s1: Set<LockGuardId>,
    s2: Set<LockGuardId>,
    ml: Option<LocalId>,
) -> bool {
    let d = r->CondvarDeadlock_0.diagnosis;
    &&& is_condvar_report(r)
    &&& d.condvar_wait_type@ == if std {
        "std::sync::Condvar::wait"@
    } else {
        "parking_lot::Condvar::wait"@
    }
    &&& d.condvar_notify_type@ == if std {
        "std::sync::Condvar::notify"@
    } else {
        "parking_lot::Condvar::notify"@
    }
    &&& d.condvar_wait_callsite_span@ == site_span_text(krate, wk)
    &&& d.condvar_notify_callsite_span@ == site_span_text(krate, nk)
    &&& exists|ps: Seq<(LockGuardId, LockGuardId)>| #[trigger] pairs_listed(krate, lg, s1, s2, ml, ps, d.deadlocks@)
}

/// The context of function `f`, or nothing where there is none.
pub open spec fn ctx_set(contexts: Seq<LiveSet<LockGuardId>>, f: FunDeclId) -> Set<LockGuardId> {
    if f < contexts.len() {
        contexts[f as int]@
    } else {
        Set::empty()
    }
}

/// The live set as a set, or nothing where none was recorded.
pub open spec fn opt_live(o: Option<Set<LockGuardId>>) -> Set<LockGuardId> {
    match o {
        Some(s) => s,
        None => Set::empty(),
    }
}

impl<'a> DeadlockDetector<'a> {
    /// The printed span of the call at `key`, or an empty text.
    fn site_span(&self, key: &CondvarKey) -> (r: String)
        ensures
            r@ == site_span_text(self.krate(), *key),
    {
        let krate = self.crate_data;
        if key.0 < krate.fun_decls.len() {
            match &krate.fun_decls[key.0] {
                Some(decl) => match &decl.body {
                    Some(body) => {
                        if key.1.block < body.body.len() {
                            return format_span(&body.body[key.1.block].terminator.span);
                        }
                    },
                    None => {},
                },
                None => {},
            }
        }
        let r = String::new();
        assert(r@ =~= site_span_text(self.krate(), *key));
        r
    }

    /// The pairs of a guard live before the wait and one live before the
    /// notify that are guards of the same lock, may deadlock, and whose first
    /// is not the mutex that the wait releases.
    fn misuse_pairs(&self, live1: &Vec<LockGuardId>, live2: &Vec<LockGuardId>, mutex_local: Option<LocalId>) -> (r: Vec<
        (LockGuardId, LockGuardId),
    >)
        requires
            self.wf(),
        ensures
            forall|p: (LockGuardId, LockGuardId)| #[trigger]
                r@.contains(p) <==> misuse_pair(self.guards(), live1@.to_set(), live2@.to_set(), mutex_local, p.0, p.1),
    {
        let ghost lg = self.guards();
        let mut pairs: Vec<(LockGuardId, LockGuardId)> = Vec::new();
        let mut i: usize = 0;
        while i < live1.len()
            invariant
                self.wf(),
                lg == self.guards(),
                i <= live1@.len(),
                forall|p: (LockGuardId, LockGuardId)| #[trigger]
                    pairs@.contains(p) <==> (live1@.subrange(0, i as int).contains(p.0) && misuse_pair(
                        lg,
                        live1@.to_set(),
                        live2@.to_set(),
                        mutex_local,
                        p.0,
                        p.1,
                    )),
            decreases live1@.len() - i,
        {
            let g1 = live1[i];
            let ghost before = pairs@;
            let mut j: usize = 0;
            while j < live2.len()
                invariant
                    self.wf(),
                    lg == self.guards(),
                    i < live1@.len(),
                    g1 == live1@[i as int],
                    j <= live2@.len(),
                    forall|p: (LockGuardId, LockGuardId)| #[trigger]
                        pairs@.contains(p) <==> (before.contains(p) || (p.0 == g1 && live2@.subrange(0, j as int).contains(
                            p.1,
                        ) && misuse_pair(lg, live1@.to_set(), live2@.to_set(), mutex_local, p.0, p.1))),
                decreases live2@.len() - j,
            {
                let g2 = live2[j];
                let ghost pre = live2@.subrange(0, j as int);
                assert(live2@.subrange(0, j + 1) == pre.push(g2));
                assert(live1@.to_set().contains(g1)) by {
                    assert(live1@.contains(g1));
                }
                assert(live2@.to_set().contains(g2)) by {
                    assert(live2@.contains(g2));
                }
                match (self.lockguards.get(&g1), self.lockguards.get(&g2)) {
                    (Some(info1), Some(info2)) => {
                        let alias = match (&info1.receiver_place, &info2.receiver_place) {
                            (Some(r1), Some(r2)) => place_eq(r1, r2),
                            _ => false,
                        };
                        if alias {
                            let (possibility, _) = self.deadlock_possibility(&g1, &g2);
                            if possibility.rank() > 1 {
                                let aliases = match (&info1.receiver_place, mutex_local) {
                                    (Some(rp), Some(ml)) => match &rp.kind {
                                        PlaceKind::Local(l) => *l == ml,
                                        _ => false,
                                    },
                                    _ => false,
                                };
                                if !aliases {
                                    pairs.push((g1, g2));
                                }
                            }
                        }
                    },
                    _ => {},
                }
                j = j + 1;
            }
            proof {
                assert(live2@.subrange(0, live2@.len() as int) =~= live2@);
                assert(live1@.subrange(0, i + 1) == live1@.subrange(0, i as int).push(g1));
                assert forall|p: (LockGuardId, LockGuardId)| #[trigger]
                    pairs@.contains(p) <==> (live1@.subrange(0, i + 1).contains(p.0) && misuse_pair(
                        lg,
                        live1@.to_set(),
                        live2@.to_set(),
                        mutex_local,
                        p.0,
                        p.1,
                    )) by {
                    if misuse_pair(lg, live1@.to_set(), live2@.to_set(), mutex_local, p.0, p.1) && p.0 == g1 {
                        assert(live2@.to_set().contains(p.1));
                        assert(live2@.contains(p.1));
                    }
                }
            }
            i = i + 1;
        }
        proof {
            assert(live1@.subrange(0, live1@.len() as int) =~= live1@);
            assert forall|p: (LockGuardId, LockGuardId)| #[trigger]
                pairs@.contains(p) <==> misuse_pair(lg, live1@.to_set(), live2@.to_set(), mutex_local, p.0, p.1) by {
                if misuse_pair(lg, live1@.to_set(), live2@.to_set(), mutex_local, p.0, p.1) {
                    assert(live1@.to_set().contains(p.0));
                    assert(live1@.contains(p.0));
                }
            }
        }
        pairs
    }

    /// The diagnosis of a wait and a notify: the condvar API of each, the
    /// span of each call, and each pair of guards involved.
    fn diagnose_condvar_deadlock(
        &self,
        wait_key: CondvarKey,
        notify_key: CondvarKey,
        is_std_condvar: bool,
        aliased_pairs: &Vec<(LockGuardId, LockGuardId)>,
    ) -> (r: CondvarDeadlockDiagnosis)
        requires
            self.wf(),
            forall|i: int|
                0 <= i < aliased_pairs@.len() ==> self.guards().has((#[trigger] aliased_pairs@[i]).0) && self.guards().has(
                    aliased_pairs@[i].1,
                ),
        ensures
            r.condvar_wait_type@ == if is_std_condvar {
                "std::sync::Condvar::wait"@
            } else {
                "parking_lot::Condvar::wait"@
            },
            r.condvar_notify_type@ == if is_std_condvar {
                "std::sync::Condvar::notify"@
            } else {
                "parking_lot::Condvar::notify"@
            },
            r.condvar_wait_callsite_span@ == site_span_text(self.krate(), wait_key),
            r.condvar_notify_callsite_span@ == site_span_text(self.krate(), notify_key),
            r.deadlocks@.len() == aliased_pairs@.len(),
            forall|i: int|
                0 <= i < aliased_pairs@.len() ==> describes_pair(
                    self.krate(),
                    self.guards(),
                    #[trigger] r.deadlocks@[i],
                    aliased_pairs@[i],
                ),
    {
        let wait_span = self.site_span(&wait_key);
        let notify_span = self.site_span(&notify_key);
        let mut deadlocks: Vec<WaitNotifyLocks> = Vec::new();
        let mut i: usize = 0;
        while i < aliased_pairs.len()
            invariant
                self.wf(),
                i <= aliased_pairs@.len(),
                deadlocks@.len() == i,
                forall|k: int|
                    0 <= k < aliased_pairs@.len() ==> self.guards().has((#[trigger] aliased_pairs@[k]).0)
                        && self.guards().has(aliased_pairs@[k].1),
                forall|k: int|
                    0 <= k < i ==> describes_pair(self.krate(), self.guards(), #[trigger] deadlocks@[k], aliased_pairs@[k]),
            decreases aliased_pairs@.len() - i,
        {
            let (a, b) = aliased_pairs[i];
            assert(self.guards().has(a) && self.guards().has(b));
            let a_info = self.lockguards.get(&a).unwrap();
            let b_info = self.lockguards.get(&b).unwrap();
            let w = WaitNotifyLocks::new(
                format_guard_ty(self.crate_data, &a_info.lockguard_ty),
                format_span(&a_info.span),
                format_guard_ty(self.crate_data, &b_info.lockguard_ty),
                format_span(&b_info.span),
            );
            deadlocks.push(w);
            i = i + 1;
        }
        if is_std_condvar {
            CondvarDeadlockDiagnosis::new(
                text("std::sync::Condvar::wait"),
                wait_span,
                text("std::sync::Condvar::notify"),
                notify_span,
                deadlocks,
            )
        } else {
            CondvarDeadlockDiagnosis::new(
                text("parking_lot::Condvar::wait"),
                wait_span,
                text("parking_lot::Condvar::notify"),
                notify_span,
                deadlocks,
            )
        }
    }

    /// The misuse report for live sets `live1` and `live2`, if some pair misuses the condvar.
    fn condvar_report(
        &self,
        live1: &Vec<LockGuardId>,
        live2: &Vec<LockGuardId>,
        mutex_guard_place: &Place,
        wait_key: CondvarKey,
        notify_key: CondvarKey,
        is_std_condvar: bool,
    ) -> (r: Option<Report>)
        requires
            self.wf(),
        ensures
            r is Some <==> exists|g1: LockGuardId, g2: LockGuardId|
                #[trigger] misuse_pair(
                    self.guards(),
                    live1@.to_set(),
                    live2@.to_set(),
                    base_local(*mutex_guard_place),
                    g1,
                    g2,
                ),
            r is Some ==> is_condvar_report(r->0),
            r is Some ==> reports_wait_notify(
                self.krate(),
                self.guards(),
                r->0,
                wait_key,
                notify_key,
                is_std_condvar,
                live1@.to_set(),
                live2@.to_set(),
                base_local(*mutex_guard_place),
            ),
    {
        let mutex_local = mutex_guard_place.local_id();
        let pairs = self.misuse_pairs(live1, live2, mutex_local);
        if pairs.len() == 0 {
            proof {
                assert forall|g1: LockGuardId, g2: LockGuardId|
                    !#[trigger] misuse_pair(self.guards(), live1@.to_set(), live2@.to_set(), mutex_local, g1, g2) by {
                    if misuse_pair(self.guards(), live1@.to_set(), live2@.to_set(), mutex_local, g1, g2) {
                        assert(pairs@.contains((g1, g2)));
                    }
                }
            }
            return None;
        }
        proof {
            assert(pairs@.contains(pairs@[0]));
            assert(misuse_pair(self.guards(), live1@.to_set(), live2@.to_set(), mutex_local, pairs@[0].0, pairs@[0].1));
            assert forall|i: int|
                0 <= i < pairs@.len() implies self.guards().has((#[trigger] pairs@[i]).0) && self.guards().has(pairs@[i].1) by {
                assert(pairs@.contains(pairs@[i]));
            }
        }
        let diagnosis = self.diagnose_condvar_deadlock(wait_key, notify_key, is_std_condvar, &pairs);
        let report = Report::CondvarDeadlock(
            ReportContent::new(
                text("CondvarDeadlock"),
                text("Possibly"),
                diagnosis,
                text("The same lock before Condvar::wait and notify"),
            ),
        );
        proof {
            assert(pairs_listed(
                self.krate(),
                self.guards(),
                live1@.to_set(),
                live2@.to_set(),
                mutex_local,
                pairs@,
                report->CondvarDeadlock_0.diagnosis.deadlocks@,
            ));
        }
        Some(report)
    }

    /// The misuse report for a wait and a notify in one function, from the
    /// guards recorded as live at each; none where either was not recorded.
    fn check_condvar_pair(
        &self,
        wait_key: CondvarKey,
        notify_key: CondvarKey,
        mutex_guard_place: &Place,
        is_std_condvar: bool,
    ) -> (r: Option<Report>)
        requires
            self.wf(),
        ensures
            r is Some <==> {
                &&& recorded_state(self.condvar_states(), wait_key) is Some
                &&& recorded_state(self.condvar_states(), notify_key) is Some
                &&& exists|g1: LockGuardId, g2: LockGuardId|
                    #[trigger] misuse_pair(
                        self.guards(),
                        recorded_state(self.condvar_states(), wait_key)->0,
                        recorded_state(self.condvar_states(), notify_key)->0,
                        base_local(*mutex_guard_place),
                        g1,
                        g2,
                    )
            },
            r is Some ==> is_condvar_report(r->0),
            r is Some ==> reports_wait_notify(
                self.krate(),
                self.guards(),
                r->0,
                wait_key,
                notify_key,
                is_std_condvar,
                recorded_state(self.condvar_states(), wait_key)->0,
                recorded_state(self.condvar_states(), notify_key)->0,
                base_local(*mutex_guard_place),
            ),
    {
        let states = self.analyzer.recorded_condvar_states();
        let live1 = match recorded_live(states, &wait_key) {
            Some(v) => v,
            None => return None,
        };
        let live2 = match recorded_live(states, &notify_key) {
            Some(v) => v,
            None => return None,
        };
        let ghost s1 = recorded_state(self.condvar_states(), wait_key)->0;
        let ghost s2 = recorded_state(self.condvar_states(), notify_key)->0;
        assert(states@ == self.condvar_states());
        assert(s1 == live1@.to_set());
        assert(s2 == live2@.to_set());
        let r = self.condvar_report(&live1, &live2, mutex_guard_place, wait_key, notify_key, is_std_condvar);
        proof {
            let ml = base_local(*mutex_guard_place);
            if r is Some {
                let (g1, g2) = choose|g1: LockGuardId, g2: LockGuardId|
                    #[trigger] misuse_pair(self.guards(), live1@.to_set(), live2@.to_set(), ml, g1, g2);
                assert(misuse_pair(self.guards(), s1, s2, ml, g1, g2));
            }
            if exists|g1: LockGuardId, g2: LockGuardId| #[trigger] misuse_pair(self.guards(), s1, s2, ml, g1, g2) {
                let (g1, g2) = choose|g1: LockGuardId, g2: LockGuardId| #[trigger] misuse_pair(self.guards(), s1, s2, ml, g1, g2);
                assert(misuse_pair(self.guards(), live1@.to_set(), live2@.to_set(), ml, g1, g2));
            }
        }
        r
    }

    /// The guards recorded as live at `key`, joined with those live on entry to `fun`.
    fn live_with_context(&self, key: &CondvarKey, fun: FunDeclId) -> (r: Vec<LockGuardId>)
        requires
            forall|f: int| 0 <= f < self.contexts().len() ==> (#[trigger] self.contexts()[f]).wf(),
        ensures
            r@.to_set() == opt_live(recorded_state(self.condvar_states(), *key)).union(ctx_set(self.contexts(), fun)),
    {
        let states = self.analyzer.recorded_condvar_states();
        let mut live = LiveSet::new();
        match recorded_live(states, key) {
            Some(v) => {
                let mut i: usize = 0;
                while i < v.len()
                    invariant
                        i <= v@.len(),
                        live.wf(),
                        live@ == v@.subrange(0, i as int).to_set(),
                    decreases v@.len() - i,
                {
                    live.insert(v[i]);
                    assert(v@.subrange(0, i + 1) == v@.subrange(0, i as int).push(v@[i as int]));
                    i = i + 1;
                }
                assert(v@.subrange(0, v@.len() as int) =~= v@);
            },
            None => {},
        }
        let contexts = self.analyzer.contexts();
        if fun < contexts.len() {
            live.union(&contexts[fun]);
        } else {
            assert(live@.union(Set::<LockGuardId>::empty()) =~= live@);
        }
        live.iter()
    }

    /// The misuse report for a wait and a notify in different functions that
    /// are connected by calls, from the guards recorded as live at each joined
    /// with those live on entry to their functions.
    fn check_condvar_pair_interproc(
        &self,
        wait_key: CondvarKey,
        notify_key: CondvarKey,
        mutex_guard_place: &Place,
        is_std_condvar: bool,
    ) -> (r: Option<Report>)
        requires
            self.wf(),
            forall|f: int| 0 <= f < self.contexts().len() ==> (#[trigger] self.contexts()[f]).wf(),
        ensures
            r is Some <==> exists|g1: LockGuardId, g2: LockGuardId|
                #[trigger] misuse_pair(
                    self.guards(),
                    opt_live(recorded_state(self.condvar_states(), wait_key)).union(ctx_set(self.contexts(), wait_key.0)),
                    opt_live(recorded_state(self.condvar_states(), notify_key)).union(ctx_set(self.contexts(), notify_key.0)),
                    base_local(*mutex_guard_place),
                    g1,
                    g2,
                ),
            r is Some ==> is_condvar_report(r->0),
            r is Some ==> reports_wait_notify(
                self.krate(),
                self.guards(),
                r->0,
                wait_key,
                notify_key,
                is_std_condvar,
                opt_live(recorded_state(self.condvar_states(), wait_key)).union(ctx_set(self.contexts(), wait_key.0)),
                opt_live(recorded_state(self.condvar_states(), notify_key)).union(ctx_set(self.contexts(), notify_key.0)),
                base_local(*mutex_guard_place),
            ),
    {
        let live1 = self.live_with_context(&wait_key, wait_key.0);
        let live2 = self.live_with_context(&notify_key, notify_key.0);
        self.condvar_report(&live1, &live2, mutex_guard_place, wait_key, notify_key, is_std_condvar)
    }
}

/// The place an operand reads, if it copies or moves one.
fn operand_place_of(o: &Operand) -> (r: Option<&Place>)
    ensures
        match r {
            Some(p) => crate::lockbud::ullbc::operand_place(*o) == Some(*p),
            None => crate::lockbud::ullbc::operand_place(*o) is None,
        },
{
    match o {
        Operand::Copy(p) => Some(p),
        Operand::Move(p) => Some(p),
        Operand::Const(_) => None,
    }
}

/// The place an operand moves, if it moves one.
fn moved_place_of(o: &Operand) -> (r: Option<&Place>)
    ensures
        match r {
            Some(p) => *o == Operand::Move(*p),
            None => !(*o is Move),
        },
{
    match o {
        Operand::Move(p) => Some(p),
        _ => None,
    }
}

impl<'a> DeadlockDetector<'a> {
    /// Pairs each condvar wait with each notify on the same condvar (after
    /// following borrows) and reports those where a lock other than the
    /// waited mutex is held at both: in one function from the recorded
    /// states, and across functions connected by calls from the recorded
    /// states joined with the entry contexts.
    fn detect_condvar_misuse(&self) -> (r: Vec<Report>)
        requires
            self.wf(),
            forall|f: int| 0 <= f < self.contexts().len() ==> (#[trigger] self.contexts()[f]).wf(),
        ensures
            forall|i: int| 0 <= i < r@.len() ==> is_condvar_report(#[trigger] r@[i]),
            r@.len() == self.condvar_found(true).len() + self.condvar_found(false).len(),
            forall|i: int|
                0 <= i < self.condvar_found(true).len() ==> self.report_for(#[trigger] self.condvar_found(true)[i], true, r@[i]),
            forall|i: int|
                0 <= i < self.condvar_found(false).len() ==> self.report_for(
                    #[trigger] self.condvar_found(false)[i],
                    false,
                    r@[self.condvar_found(true).len() + i],
                ),
    {
        let mut reports: Vec<Report> = Vec::new();
        let mut std_wait: Vec<(CondvarKey, Place, Place)> = Vec::new();
        let mut std_notify: Vec<(CondvarKey, Place)> = Vec::new();
        let mut pl_wait: Vec<(CondvarKey, Place, Place)> = Vec::new();
        let mut pl_notify: Vec<(CondvarKey, Place)> = Vec::new();
        let krate = self.crate_data;
        let sites = self.condvar_callsites;
        let mut s: usize = 0;
        while s < sites.len()
            invariant
                s <= sites@.len(),
                *krate == self.krate(),
                *sites == self.sites(),
                std_wait@ == waits_of(*krate, sites@, true, s as int),
                pl_wait@ == waits_of(*krate, sites@, false, s as int),
                std_notify@ == notifies_of(*krate, sites@, true, s as int),
                pl_notify@ == notifies_of(*krate, sites@, false, s as int),
            decreases sites@.len() - s,
        {
            let (key, api) = sites[s];
            let ghost k0 = s as int;
            s = s + 1;
            proof {
                assert(sites@[k0] == (key, api));
                if wait_entry(*krate, key, api) is None {
                    assert(waits_of(*krate, sites@, true, s as int) =~= waits_of(*krate, sites@, true, k0));
                    assert(waits_of(*krate, sites@, false, s as int) =~= waits_of(*krate, sites@, false, k0));
                }
                if notify_entry(*krate, key, api) is None {
                    assert(notifies_of(*krate, sites@, true, s as int) =~= notifies_of(*krate, sites@, true, k0));
                    assert(notifies_of(*krate, sites@, false, s as int) =~= notifies_of(*krate, sites@, false, k0));
                }
                if is_wait_api(api) {
                    assert(notify_entry(*krate, key, api) is None);
                } else {
                    assert(wait_entry(*krate, key, api) is None);
                }
            }
            let caller_id = key.0;
            let loc = key.1;
            if caller_id >= krate.fun_decls.len() {
                continue;
            }
            let body = match &krate.fun_decls[caller_id] {
                Some(decl) => match &decl.body {
                    Some(b) => b,
                    None => continue,
                },
                None => continue,
            };
            if loc.block >= body.body.len() {
                continue;
            }
            let call = match &body.body[loc.block].terminator.kind {
                TerminatorKind::Call { call, .. } => call,
                _ => continue,
            };
            let ref_places = self.build_ref_places_for_function(caller_id);
            match api {
                CondvarApi::Std(StdCondvarApi::Wait(_)) | CondvarApi::ParkingLot(ParkingLotCondvarApi::Wait(_)) => {
                    if call.args.len() >= 2 {
                        match (operand_place_of(&call.args[0]), moved_place_of(&call.args[1])) {
                            (Some(cp), Some(mp)) => {
                                let resolved_condvar = resolve_place_through_refs(cp, &ref_places);
                                let resolved_mutex = resolve_place_through_refs(mp, &ref_places);
                                if let CondvarApi::Std(_) = api {
                                    std_wait.push((key, resolved_condvar, resolved_mutex));
                                } else {
                                    pl_wait.push((key, resolved_condvar, resolved_mutex));
                                }
                            },
                            _ => {},
                        }
                    }
                },
                CondvarApi::Std(StdCondvarApi::Notify(_)) | CondvarApi::ParkingLot(ParkingLotCondvarApi::Notify(_)) => {
                    if call.args.len() >= 1 {
                        match operand_place_of(&call.args[0]) {
                            Some(cp) => {
                                let resolved = resolve_place_through_refs(cp, &ref_places);
                                if let CondvarApi::Std(_) = api {
                                    std_notify.push((key, resolved));
                                } else {
                                    pl_notify.push((key, resolved));
                                }
                            },
                            None => {},
                        }
                    }
                },
            }
        }
        self.match_wait_notify(&std_wait, &std_notify, true, &mut reports);
        self.match_wait_notify(&pl_wait, &pl_notify, false, &mut reports);
        reports
    }

    /// The wait and the notify, on the same condvar place, are reported: in one
    /// function where the guards recorded at both calls misuse the condvar; in
    /// functions connected by calls where the guards recorded there or held by
    /// the callers do.
    pub open spec fn wait_notify_found(&self, wait: (CondvarKey, Place, Place), notify: (CondvarKey, Place)) -> bool {
        let g = self.graph().edge_set();
        &&& same_place(wait.1, notify.1)
        &&& if wait.0.0 == notify.0.0 {
            &&& recorded_state(self.condvar_states(), wait.0) is Some
            &&& recorded_state(self.condvar_states(), notify.0) is Some
            &&& exists|g1: LockGuardId, g2: LockGuardId|
                #[trigger] misuse_pair(
                    self.guards(),
                    recorded_state(self.condvar_states(), wait.0)->0,
                    recorded_state(self.condvar_states(), notify.0)->0,
                    base_local(wait.2),
                    g1,
                    g2,
                )
        } else if reaches(g, wait.0.0, notify.0.0) || reaches(g, notify.0.0, wait.0.0) || exists|n: FunDeclId|
            reaches(g, n, wait.0.0) && reaches(g, n, notify.0.0) {
            exists|g1: LockGuardId, g2: LockGuardId|
                #[trigger] misuse_pair(
                    self.guards(),
                    opt_live(recorded_state(self.condvar_states(), wait.0)).union(ctx_set(self.contexts(), wait.0.0)),
                    opt_live(recorded_state(self.condvar_states(), notify.0)).union(ctx_set(self.contexts(), notify.0.0)),
                    base_local(wait.2),
                    g1,
                    g2,
                )
        } else {
            false
        }
    }

    /// The first `n` notifies that are reported with `wait`, each paired with it, in order.
    pub open spec fn found_with(&self, wait: (CondvarKey, Place, Place), notifies: Seq<(CondvarKey, Place)>, n: int) -> Seq<
        ((CondvarKey, Place, Place), (CondvarKey, Place)),
    >
        decreases n,
    {
        if n <= 0 {
            Seq::empty()
        } else {
            self.found_with(wait, notifies, n - 1) + if self.wait_notify_found(wait, notifies[n - 1]) {
                seq![(wait, notifies[n - 1])]
            } else {
                Seq::empty()
            }
        }
    }

    /// The reported pairs of one of the first `w` waits and a notify, by wait and then by notify.
    pub open spec fn found_pairs(&self, waits: Seq<(CondvarKey, Place, Place)>, notifies: Seq<(CondvarKey, Place)>, w: int) -> Seq<
        ((CondvarKey, Place, Place), (CondvarKey, Place)),
    >
        decreases w,
    {
        if w <= 0 {
            Seq::empty()
        } else {
            self.found_pairs(waits, notifies, w - 1) + self.found_with(waits[w - 1], notifies, notifies.len() as int)
        }
    }

    /// The reported pairs of a wait and a notify of the std condvar, or of the
    /// parking_lot one, by wait and then by notify, in the order of the call sites.
    pub open spec fn condvar_found(&self, std: bool) -> Seq<((CondvarKey, Place, Place), (CondvarKey, Place))> {
        let n = self.sites()@.len() as int;
        self.found_pairs(waits_of(self.krate(), self.sites()@, std, n), notifies_of(self.krate(), self.sites()@, std, n), waits_of(self.krate(), self.sites()@, std, n).len() as int)
    }

    /// `r` is the report of the reported pair `p` of a wait and a notify of the
    /// std or the parking_lot condvar: from the recorded live guards in one
    /// function, joined with the entry contexts across functions.
    pub open spec fn report_for(&self, p: ((CondvarKey, Place, Place), (CondvarKey, Place)), std: bool, r: Report) -> bool {
        let wait = p.0;
        let notify = p.1;
        if wait.0.0 == notify.0.0 {
            reports_wait_notify(
                self.krate(),
                self.guards(),
                r,
                wait.0,
                notify.0,
                std,
                recorded_state(self.condvar_states(), wait.0)->0,
                recorded_state(self.condvar_states(), notify.0)->0,
                base_local(wait.2),
            )
        } else {
            reports_wait_notify(
                self.krate(),
                self.guards(),
                r,
                wait.0,
                notify.0,
                std,
                opt_live(recorded_state(self.condvar_states(), wait.0)).union(ctx_set(self.contexts(), wait.0.0)),
                opt_live(recorded_state(self.condvar_states(), notify.0)).union(ctx_set(self.contexts(), notify.0.0)),
                base_local(wait.2),
            )
        }
    }

    /// Checks each wait against each notify on the same condvar place.
    fn match_wait_notify(
        &self,
        waits: &Vec<(CondvarKey, Place, Place)>,
        notifies: &Vec<(CondvarKey, Place)>,
        is_std_condvar: bool,
        reports: &mut Vec<Report>,
    )
        requires
            self.wf(),
            forall|f: int| 0 <= f < self.contexts().len() ==> (#[trigger] self.contexts()[f]).wf(),
            forall|i: int| 0 <= i < old(reports)@.len() ==> is_condvar_report(#[trigger] old(reports)@[i]),
        ensures
            forall|i: int| 0 <= i < final(reports)@.len() ==> is_condvar_report(#[trigger] final(reports)@[i]),
            final(reports)@.len() == old(reports)@.len() + self.found_pairs(waits@, notifies@, waits@.len() as int).len(),
            forall|i: int| 0 <= i < old(reports)@.len() ==> final(reports)@[i] == old(reports)@[i],
            forall|i: int|
                0 <= i < self.found_pairs(waits@, notifies@, waits@.len() as int).len() ==> self.report_for(
                    #[trigger] self.found_pairs(waits@, notifies@, waits@.len() as int)[i],
                    is_std_condvar,
                    final(reports)@[old(reports)@.len() + i],
                ),
    {
        let ghost r0 = reports@;
        let mut w: usize = 0;
        while w < waits.len()
            invariant
                self.wf(),
                forall|f: int| 0 <= f < self.contexts().len() ==> (#[trigger] self.contexts()[f]).wf(),
                w <= waits@.len(),
                forall|i: int| 0 <= i < reports@.len() ==> is_condvar_report(#[trigger] reports@[i]),
                reports@.len() == r0.len() + self.found_pairs(waits@, notifies@, w as int).len(),
                forall|i: int| 0 <= i < r0.len() ==> reports@[i] == r0[i],
                forall|i: int|
                    0 <= i < self.found_pairs(waits@, notifies@, w as int).len() ==> self.report_for(
                        #[trigger] self.found_pairs(waits@, notifies@, w as int)[i],
                        is_std_condvar,
                        reports@[r0.len() + i],
                    ),
            decreases waits@.len() - w,
        {
            let wait = &waits[w];
            let ghost rw = reports@.len();
            let mut n: usize = 0;
            while n < notifies.len()
                invariant
                    self.wf(),
                    forall|f: int| 0 <= f < self.contexts().len() ==> (#[trigger] self.contexts()[f]).wf(),
                    n <= notifies@.len(),
                    forall|i: int| 0 <= i < reports@.len() ==> is_condvar_report(#[trigger] reports@[i]),
                    w < waits@.len(),
                    *wait == waits@[w as int],
                    rw == r0.len() + self.found_pairs(waits@, notifies@, w as int).len(),
                    reports@.len() == rw + self.found_with(*wait, notifies@, n as int).len(),
                    forall|i: int| 0 <= i < r0.len() ==> reports@[i] == r0[i],
                    forall|i: int|
                        0 <= i < (self.found_pairs(waits@, notifies@, w as int) + self.found_with(*wait, notifies@, n as int)).len()
                            ==> self.report_for(
                            #[trigger] (self.found_pairs(waits@, notifies@, w as int) + self.found_with(*wait, notifies@, n as int))[i],
                            is_std_condvar,
                            reports@[r0.len() + i],
                        ),
                decreases notifies@.len() - n,
            {
                let notify = &notifies[n];
                let ghost rb = reports@;
                if place_eq(&wait.1, &notify.1) {
                    let wait_fun = wait.0.0;
                    let notify_fun = notify.0.0;
                    let found = if wait_fun == notify_fun {
                        self.check_condvar_pair(wait.0, notify.0, &wait.2, is_std_condvar)
                    } else if self.callgraph.can_reach(wait_fun, notify_fun) || self.callgraph.can_reach(
                        notify_fun,
                        wait_fun,
                    ) || self.callgraph.share_common_ancestor(wait_fun, notify_fun) {
                        self.check_condvar_pair_interproc(wait.0, notify.0, &wait.2, is_std_condvar)
                    } else {
                        None
                    };
                    proof {
                        assert(found is Some <==> self.wait_notify_found(*wait, notifies@[n as int]));
                    }
                    proof {
                        let pair = (*wait, notifies@[n as int]);
                        if found is Some {
                            if wait_fun == notify_fun {
                                assert(self.report_for(pair, is_std_condvar, found->0));
                            } else {
                                assert(self.report_for(pair, is_std_condvar, found->0));
                            }
                        }
                    }
                    match found {
                        Some(report) => {
                            reports.push(report);
                            proof {
                                assert forall|i: int| 0 <= i < r0.len() implies reports@[i] == r0[i] by {
                                    assert(reports@[i] == rb[i]);
                                }
                            }
                        },
                        None => {},
                    }
                    proof {
                        let a = self.found_pairs(waits@, notifies@, w as int);
                        let b0 = self.found_with(*wait, notifies@, n as int);
                        let b1 = self.found_with(*wait, notifies@, n + 1);
                        assert forall|i: int| 0 <= i < (a + b1).len() implies self.report_for(
                            #[trigger] (a + b1)[i],
                            is_std_condvar,
                            reports@[r0.len() + i],
                        ) by {
                            if i < (a + b0).len() {
                                assert((a + b1)[i] == (a + b0)[i]);
                                assert(reports@[r0.len() + i] == rb[r0.len() + i]);
                            } else {
                                assert((a + b1)[i] == (*wait, notifies@[n as int]));
                            }
                        }
                    }
                } else {
                    proof {
                        assert(!self.wait_notify_found(*wait, notifies@[n as int]));
                        let a = self.found_pairs(waits@, notifies@, w as int);
                        assert(self.found_with(*wait, notifies@, n + 1) == self.found_with(*wait, notifies@, n as int));
                    }
                }
                n = n + 1;
            }
            proof {
                let a = self.found_pairs(waits@, notifies@, w as int);
                let b = self.found_with(*wait, notifies@, notifies@.len() as int);
                assert(self.found_pairs(waits@, notifies@, w + 1) == a + b);
            }
            w = w + 1;
        }
    }

    /// `rest` holds, after the double locks, one conflicting-lock report for
    /// each cycle `cs` of a conflict graph over the conflict relations with
    /// `edges` exactly the likely steps between them, then each condvar report:
    /// those of the std condvar, then those of the parking_lot one.
    pub open spec fn rest_follows(&self, edges: Seq<(usize, usize, DeadlockPossibility)>, cs: Seq<Vec<usize>>, rest: Seq<Report>) -> bool {
        let nodes = conflict_nodes(self.krate(), self.guards(), self.relation_seq());
        let t = self.condvar_found(true);
        let f = self.condvar_found(false);
        &&& forall|a: usize, b: usize|
            #[trigger] has_conflict_edge(edges, a, b) <==> a < nodes.len() && b < nodes.len() && conflict_step(
                self.guards(),
                nodes[a as int],
                nodes[b as int],
            )
        &&& rest.len() == cs.len() + t.len() + f.len()
        &&& reports_follow_cycles(edges, nodes, self.krate(), self.guards(), cs, rest.subrange(0, cs.len() as int))
        &&& forall|i: int| 0 <= i < t.len() ==> self.report_for(#[trigger] t[i], true, rest[cs.len() + i])
        &&& forall|i: int| 0 <= i < f.len() ==> self.report_for(#[trigger] f[i], false, rest[cs.len() + t.len() + i])
    }

    /// What `detect` reports: the double locks of the relations, each with
    /// its possibility and diagnosis; after them only conflicting-lock and
    /// condvar reports, as `rest_follows` fixes them.
    pub open spec fn detect_result(&self, r: Seq<Report>) -> bool {
        &&& ({
                let dl = double_locks(self.krate(), self.guards(), self.relation_seq());
                &&& r.len() >= dl.len()
                &&& forall|i: int|
                    0 <= i < dl.len() ==> {
                        &&& (#[trigger] r[i]) is DoubleLock
                        &&& r[i]->DoubleLock_0.bug_kind@ == "DoubleLock"@
                        &&& r[i]->DoubleLock_0.possibility@ == possibility_text(possibility_of(self.guards(), dl[i].0, dl[i].1).0)
                        &&& diagnoses_relation(self.krate(), self.guards(), r[i]->DoubleLock_0.diagnosis, dl[i])
                    }
                &&& forall|i: int|
                    dl.len() <= i < r.len() ==> {
                        ||| is_condvar_report(#[trigger] r[i])
                        ||| {
                            &&& r[i] is ConflictLock
                            &&& r[i]->ConflictLock_0.bug_kind@ == "ConflictLock"@
                            &&& exists|c: Seq<(LockGuardId, LockGuardId)>|
                                #![trigger is_relation_cycle(self.krate(), self.guards(), self.relation_seq(), c)]
                                is_relation_cycle(self.krate(), self.guards(), self.relation_seq(), c)
                                    && r[i]->ConflictLock_0.diagnosis@.len() == c.len() && forall|j: int|
                                    0 <= j < c.len() ==> diagnoses_relation(
                                        self.krate(),
                                        self.guards(),
                                        #[trigger] r[i]->ConflictLock_0.diagnosis@[j],
                                        c[j],
                                    )
                        }
                    }
            })
        &&& exists|edges: Seq<(usize, usize, DeadlockPossibility)>, cs: Seq<Vec<usize>>|
                #[trigger] self.rest_follows(
                    edges,
                    cs,
                    r.subrange(double_locks(self.krate(), self.guards(), self.relation_seq()).len() as int, r.len() as int),
                )
    }

    /// All reports: a double lock for each relation between user guards that
    /// may deadlock, a conflicting lock for each cycle of the remaining
    /// relations, then each condvar misuse.
    pub fn detect(&self) -> (r: Vec<Report>)
        requires
            self.wf(),
            forall|f: int| 0 <= f < self.contexts().len() ==> (#[trigger] self.contexts()[f]).wf(),
        ensures
            self.detect_result(r@),
    {
        let (mut reports, graph) = self.relation_phase();
        let ghost first = reports@;
        let mut conflicts = self.conflict_reports(&graph);
        let ghost second = conflicts@;
        let mut condvars = self.detect_condvar_misuse();
        let ghost third = condvars@;
        reports.append(&mut conflicts);
        reports.append(&mut condvars);
        proof {
            assert(reports@ == first + second + third);
            let cs = choose|cs: Seq<Vec<usize>>|
                #[trigger] reports_follow_cycles(graph.edges(), graph.nodes(), self.krate(), self.guards(), cs, second);
            let rest = reports@.subrange(first.len() as int, reports@.len() as int);
            assert(rest =~= second + third);
            assert(rest.subrange(0, cs.len() as int) =~= second);
            assert(self.rest_follows(graph.edges(), cs, rest));
            assert forall|i: int| first.len() <= i < reports@.len() implies {
                ||| is_condvar_report(#[trigger] reports@[i])
                ||| {
                    &&& reports@[i] is ConflictLock
                    &&& reports@[i]->ConflictLock_0.bug_kind@ == "ConflictLock"@
                    &&& exists|c: Seq<(LockGuardId, LockGuardId)>|
                        #![trigger is_relation_cycle(self.krate(), self.guards(), self.relation_seq(), c)]
                        is_relation_cycle(self.krate(), self.guards(), self.relation_seq(), c)
                            && reports@[i]->ConflictLock_0.diagnosis@.len() == c.len() && forall|j: int|
                            0 <= j < c.len() ==> diagnoses_relation(
                                self.krate(),
                                self.guards(),
                                #[trigger] reports@[i]->ConflictLock_0.diagnosis@[j],
                                c[j],
                            )
                }
            } by {
                if i < first.len() + second.len() {
                    assert(reports@[i] == second[i - first.len()]);
                } else {
                    assert(reports@[i] == third[i - first.len() - second.len()]);
                }
            }
            assert forall|i: int| 0 <= i < first.len() implies #[trigger] reports@[i] == first[i] by {}
        }
        reports
    }
}

/// Combining the type judgement with the alias judgement keeps the weaker of the two where
/// both say a deadlock is likely, and says unlikely otherwise.
pub proof fn law_combine_weaker(t: DeadlockPossibility, a: DeadlockPossibility)
    ensures
        is_likely(t) && is_likely(a) ==> possibility_rank(combine_possibility(t, a)) == if possibility_rank(t) <= possibility_rank(a) {
            possibility_rank(t)
        } else {
            possibility_rank(a)
        },
        !(is_likely(t) && is_likely(a)) ==> combine_possibility(t, a) == DeadlockPossibility::Unlikely,
        combine_possibility(t, a) == combine_possibility(a, t),
{
}

/// Two lock receivers known to be the same place are probably the same lock; two different
/// plain locals are unlikely to be; where a receiver is unknown, or they are other places,
/// they possibly are.
pub proof fn law_alias_judgement(ra: Option<Place>, rb: Option<Place>)
    ensures
        same_receiver(ra, rb) ==> alias_possibility(ra, rb) == DeadlockPossibility::Probably,
        ra is None || rb is None ==> alias_possibility(ra, rb) == DeadlockPossibility::Possibly,
        ra matches Some(x) && rb matches Some(y) && x.kind is Local && y.kind is Local && x.kind->Local_0 != y.kind->Local_0
            && !same_place(x, y) ==> alias_possibility(ra, rb) == DeadlockPossibility::Unlikely,
        is_likely(alias_possibility(ra, rb)) || alias_possibility(ra, rb) == DeadlockPossibility::Unlikely,
{
}

/// When taking guard `b` while `a` is held is judged a deadlock: never for a guard not in
/// the map, nor for two guards of the same span; probably exactly where their types probably
/// deadlock and their receivers are the same place; never where their types are unlikely
/// to, nor for two read guards of the same receiver where one was taken by a recursive read.
pub proof fn law_possibility_judgement(lg: LockGuardMap, a: LockGuardId, b: LockGuardId)
    ensures
        !lg.has(a) || !lg.has(b) ==> possibility_of(lg, a, b) == (DeadlockPossibility::Unlikely, NotDeadlockReason::UnknownGuard),
        lg.has(a) && lg.has(b) && lg.info(a).span == lg.info(b).span ==> possibility_of(lg, a, b) == (
            DeadlockPossibility::Unlikely,
            NotDeadlockReason::SameSpan,
        ),
        possibility_of(lg, a, b).0 == DeadlockPossibility::Probably <==> lg.has(a) && lg.has(b) && lg.info(a).span != lg.info(b).span
            && deadlock_with_spec(lg.info(a).lockguard_ty, lg.info(b).lockguard_ty) == DeadlockPossibility::Probably && same_receiver(
            lg.info(a).receiver_place,
            lg.info(b).receiver_place,
        ),
        lg.has(a) && lg.has(b) && deadlock_with_spec(lg.info(a).lockguard_ty, lg.info(b).lockguard_ty) == DeadlockPossibility::Unlikely
            ==> !is_likely(possibility_of(lg, a, b).0),
        lg.has(a) && lg.has(b) && both_read(lg.info(a).lockguard_ty, lg.info(b).lockguard_ty) && (lg.info(a).is_recursive_read
            || lg.info(b).is_recursive_read) && same_receiver(lg.info(a).receiver_place, lg.info(b).receiver_place)
            ==> !is_likely(possibility_of(lg, a, b).0),
        possibility_of(lg, a, b).0 != DeadlockPossibility::Unknown,
{
    if lg.has(a) && lg.has(b) {
        let ai = lg.info(a);
        let bi = lg.info(b);
        law_alias_judgement(ai.receiver_place, bi.receiver_place);
        if both_read(ai.lockguard_ty, bi.lockguard_ty) {
            assert(deadlock_with_spec(ai.lockguard_ty, bi.lockguard_ty) != DeadlockPossibility::Probably);
        }
    }
}

/// Each possibility has a text of its own.
pub proof fn law_possibility_texts_differ(p: DeadlockPossibility, q: DeadlockPossibility)
    ensures
        p != q ==> possibility_text(p) != possibility_text(q),
{
    reveal_strlit("Probably");
    reveal_strlit("Possibly");
    reveal_strlit("Unlikely");
    reveal_strlit("Unknown");
    assert("Probably"@[3] != "Possibly"@[3]);
    assert("Probably"@[0] != "Unlikely"@[0]);
    assert("Probably"@.len() != "Unknown"@.len());
    assert("Possibly"@[0] != "Unlikely"@[0]);
    assert("Possibly"@.len() != "Unknown"@.len());
    assert("Unlikely"@.len() != "Unknown"@.len());
}

/// A function under `std`, `core`, `alloc` or the compiler is never the user's.
pub proof fn law_user_fun_by_path(krate: TranslatedCrate, f: FunDeclId)
    ensures
        fun_name(krate, f as int) is None ==> !is_user_fun(krate, f),
        fun_name(krate, f as int) matches Some(n) ==> (is_user_fun(krate, f) <==> !has_prefix(n, "std::"@) && !has_prefix(n, "core::"@)
            && !has_prefix(n, "alloc::"@) && !has_prefix(n, "rustc"@)),
{
}

/// A condvar call waits exactly where it is not a notify.
pub proof fn law_wait_or_notify(api: CondvarApi)
    ensures
        is_wait_api(api) <==> !(api matches CondvarApi::Std(StdCondvarApi::Notify(_)) || api matches CondvarApi::ParkingLot(
            ParkingLotCondvarApi::Notify(_),
        )),
{
}

} // verus!
