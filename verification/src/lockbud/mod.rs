//! Bug detectors that run over the unstructured low-level body of each function.

pub mod analysis;
pub mod atomic;
pub mod callgraph;
pub mod channel;
pub mod collector;
pub mod condvar;
pub mod conflict_graph;
pub mod detector;
pub mod double_lock;
pub mod config;
pub mod debug_print;
pub mod engine;
pub mod fixpoint;
pub mod render;
pub mod memory;
pub mod panic;
pub mod report;
pub mod types;
pub mod ullbc;

use vstd::prelude::*;

use crate::lockbud::analysis::{gen_kill_of_guards, Analyzer, LockGuardRelationBuilder};
use crate::lockbud::atomic::{
    atomic_entries_upto, entries_view, inter_covered, inter_violation, intra_covered, intra_violation, is_atomicity_report,
    sites_valid, AtomicCallSite,
};
use crate::lockbud::channel::{
    channel_deadlocks_upto, channel_sites_upto, channel_sites_valid, ctor_locs, describes_deadlock, describes_orphan,
    endpoint_tables_wf, orphans_upto, ChannelCallSite, ChannelId, EndpointId, EndpointLifetime,
};
use crate::lockbud::callgraph::{calls, CallGraph};
use crate::lockbud::collector::{collected, guard_facts, local_body, LockGuardCollector};
use crate::lockbud::condvar::{condvar_site, CondvarApi, CondvarKey};
use crate::lockbud::engine::{gks, rels_sound, DataflowEngine};
use crate::lockbud::types::LockGuardId;
use crate::lockbud::detector::DeadlockDetector;
use crate::lockbud::memory::{
    describes_invalid_free, described, invalid_frees_upto, is_invalid_free_report, is_use_after_free_report, uafs_upto,
    uninit_sites_upto, uninit_sites_valid, UninitCallSite,
};
use crate::lockbud::report::Report;
use crate::lockbud::types::Location;
use crate::lockbud::ullbc::{FnOperand, FunDeclId, LocalId, TerminatorKind, TranslatedCrate};

verus! {

/// Every call of a declared function names a function of the crate: each
/// function gets an identifier below the number of functions.
pub open spec fn calls_declared(krate: TranslatedCrate) -> bool {
    forall|a: FunDeclId, b: FunDeclId| #[trigger] calls(krate, a, b) ==> b < krate.fun_decls@.len()
}

/// Whether every call of a declared function names a function of the crate.
pub fn check_calls_declared(krate: &TranslatedCrate) -> (r: bool)
    ensures
        r == calls_declared(*krate),
{
    let n = krate.fun_decls.len();
    let mut f: usize = 0;
    while f < n
        invariant
            n == krate.fun_decls@.len(),
            f <= n,
            forall|a: FunDeclId, b: FunDeclId| a < f && #[trigger] calls(*krate, a, b) ==> b < n,
        decreases n - f,
    {
        match &krate.fun_decls[f] {
            Some(d) => match &d.body {
                Some(body) => {
                    let mut k: usize = 0;
                    while k < body.body.len()
                        invariant
                            n == krate.fun_decls@.len(),
                            f < n,
                            krate.body_of(f as int) == Some(*body),
                            k <= body.body@.len(),
                            forall|a: FunDeclId, b: FunDeclId| a < f && #[trigger] calls(*krate, a, b) ==> b < n,
                            forall|j: int|
                                0 <= j < k ==> match #[trigger] crate::lockbud::callgraph::call_target(*krate, f as int, j) {
                                    Some(b) => b < n,
                                    None => true,
                                },
                        decreases body.body@.len() - k,
                    {
                        match &body.body[k].terminator.kind {
                            TerminatorKind::Call { call, .. } => match call.func {
                                FnOperand::Fun(id) => {
                                    if id >= n {
                                        assert(crate::lockbud::callgraph::call_target(*krate, f as int, k as int) == Some(id));
                                        assert(calls(*krate, f, id));
                                        return false;
                                    }
                                },
                                _ => {},
                            },
                            _ => {},
                        }
                        k = k + 1;
                    }
                    proof {
                        assert forall|a: FunDeclId, b: FunDeclId| a < f + 1 && #[trigger] calls(*krate, a, b) implies b < n by {
                            if a == f {
                                let j = choose|j: int| crate::lockbud::callgraph::call_target(*krate, a as int, j) == Some(b);
                                if !(0 <= j < body.body@.len()) {
                                    assert(crate::lockbud::callgraph::call_target(*krate, a as int, j) is None);
                                }
                            }
                        }
                    }
                },
                None => {
                    proof {
                        assert forall|a: FunDeclId, b: FunDeclId| a < f + 1 && #[trigger] calls(*krate, a, b) implies b < n by {
                            if a == f {
                                let j = choose|j: int| crate::lockbud::callgraph::call_target(*krate, a as int, j) == Some(b);
                            }
                        }
                    }
                },
            },
            None => {
                proof {
                    assert forall|a: FunDeclId, b: FunDeclId| a < f + 1 && #[trigger] calls(*krate, a, b) implies b < n by {
                        if a == f {
                            let j = choose|j: int| crate::lockbud::callgraph::call_target(*krate, a as int, j) == Some(b);
                        }
                    }
                }
            },
        }
        f = f + 1;
    }
    proof {
        assert forall|a: FunDeclId, b: FunDeclId| #[trigger] calls(*krate, a, b) implies b < n by {
            if a >= n {
                let j = choose|j: int| crate::lockbud::callgraph::call_target(*krate, a as int, j) == Some(b);
            }
        }
    }
    true
}

/// A report of one of the detectors.
pub open spec fn is_detector_report(krate: TranslatedCrate, r: Report) -> bool {
    ||| r is DoubleLock
    ||| r is ConflictLock
    ||| r is CondvarDeadlock
    ||| is_atomicity_report(r)
    ||| is_invalid_free_report(krate, r)
    ||| is_use_after_free_report(krate, r)
    ||| r is Panic
    ||| r is ChannelDeadlock
    ||| r is OrphanSender
}

/// Runs every detector on the crate: the lock guards and their relations
/// give double locks, conflicting locks and condvar misuse; then atomicity
/// violations, invalid frees, uses after free, panics, rendezvous deadlocks
/// and receives with no send, in that order.
pub fn run(krate: &TranslatedCrate) -> (r: Vec<Report>)
    requires
        krate.wf(),
        calls_declared(*krate),
    ensures
        forall|i: int| 0 <= i < r@.len() ==> is_detector_report(*krate, #[trigger] r@[i]),
        exists|d: Seq<Report>, a: Seq<Report>, iv: Seq<Report>, u: Seq<Report>, p: Seq<Report>, c: Seq<Report>, o: Seq<Report>|
            #[trigger] run_parts(*krate, r@, d, a, iv, u, p, c, o),
{
    // The call graph.
    let callgraph = CallGraph::build(krate);
    proof {
        assert forall|e: (FunDeclId, FunDeclId)| #[trigger] callgraph.edge_set().contains(e) implies e.0
            < krate.fun_decls@.len() && e.1 < krate.fun_decls@.len() by {
            assert(callgraph.edge_set().contains((e.0, e.1)));
            assert(calls(*krate, e.0, e.1));
            let k = choose|k: int| crate::lockbud::callgraph::call_target(*krate, e.0 as int, k) == Some(e.1);
        }
    }
    // The lock guards.
    let mut collector = LockGuardCollector::new(krate);
    let ghost c0 = collector;
    collector.collect();
    let lockguards = collector.into_lockguards();
    proof {
        assert forall|id: LockGuardId| #[trigger] lockguards.has(id) == collected(*krate, id) by {
            if c0.guards().has(id) {
                let k = choose|k: int| 0 <= k < c0.guards().entries@.len() && #[trigger] c0.guards().entries@[k].0 == id;
            }
        }
    }
    // The condvar calls.
    let condvar_callsites = condvar::collect_condvar_callsites(krate);
    // Which guards are live where others are acquired.
    let mut analyzer = Analyzer::new(krate, &callgraph, &lockguards).with_condvar_callsites(&condvar_callsites);
    let ghost e0 = analyzer.engine_spec();
    analyzer.analyze();
    let ghost e1 = analyzer.engine_spec();
    proof {
        assert(e0.rel_set() =~= Set::<(LockGuardId, LockGuardId)>::empty());
        assert forall|f: int| 0 <= f < e1.analysis_seq().len() implies ((#[trigger] gks(e1.analysis_seq())[f]) is Some
            <==> krate.body_of(f) is Some) by {
            assert(gks(e1.analysis_seq())[f] == gks(e0.analysis_seq())[f]);
        }
        assert forall|f: int| 0 <= f < e1.analysis_seq().len() implies #[trigger] gen_kill_of_guards(
            e1.analysis_seq()[f],
            lockguards.entries@,
            f as FunDeclId,
        ) by {
            assert(gks(e1.analysis_seq())[f] == gks(e0.analysis_seq())[f]);
            assert(gen_kill_of_guards(e0.analysis_seq()[f], lockguards.entries@, f as FunDeclId));
        }
    }
    // Deadlocks.
    let deadlock_detector = DeadlockDetector::new(krate, &callgraph, &lockguards, &analyzer, &condvar_callsites);
    let mut reports = deadlock_detector.detect();
    let ghost d = reports@;
    proof {
        assert(detector_inputs(*krate, deadlock_detector, e1));
        assert(deadlock_part(*krate, d));
        assert forall|i: int| 0 <= i < d.len() implies (#[trigger] d[i]) is DoubleLock || d[i] is ConflictLock || d[i] is CondvarDeadlock by {
            if i >= crate::lockbud::detector::double_locks(
                deadlock_detector.krate(),
                deadlock_detector.guards(),
                deadlock_detector.relation_seq(),
            ).len() {
                if crate::lockbud::detector::is_condvar_report(d[i]) {
                }
            }
        }
    }
    let ghost n0 = reports@.len();
    assert forall|i: int| 0 <= i < reports@.len() implies is_detector_report(*krate, #[trigger] reports@[i]) by {
        if i < crate::lockbud::detector::double_locks(
            deadlock_detector.krate(),
            deadlock_detector.guards(),
            deadlock_detector.relation_seq(),
        ).len() {
        } else {
            if crate::lockbud::detector::is_condvar_report(reports@[i]) {
            }
        }
    }
    // Atomicity violations.
    let atomic_callsites = atomic::collect_atomic_callsites(krate);
    let mut more = atomic::detect_atomicity_violations(krate, &atomic_callsites, &callgraph);
    let ghost a = more@;
    proof {
        assert(atomic_inputs(*krate, atomic_callsites@, callgraph));
    }
    append_reports(krate, &mut reports, &mut more);
    // Invalid frees.
    let uninit_callsites = memory::collect_uninit_callsites(krate);
    let mut more = memory::detect_invalid_free(krate, &uninit_callsites);
    let ghost iv = more@;
    proof {
        assert(uninit_inputs(*krate, uninit_callsites@));
    }
    append_reports(krate, &mut reports, &mut more);
    // Uses after free.
    let ghost front = reports@;
    let mut more = memory::detect_use_after_free(krate);
    let ghost u = more@;
    append_reports(krate, &mut reports, &mut more);
    // Panics.
    let mut more = panic::detect_panics(krate);
    let ghost p = more@;
    append_reports(krate, &mut reports, &mut more);
    let ghost mid = reports@;
    // Channels.
    let channel_callsites = channel::collect_channel_callsites(krate);
    let (local_to_endpoint, channels, lifetimes) = channel::build_endpoint_map(krate, &channel_callsites);
    let mut more = channel::detect_channel_deadlocks(krate, &channel_callsites);
    let ghost c = more@;
    append_reports(krate, &mut reports, &mut more);
    let mut more = channel::detect_orphan_senders(krate, &channel_callsites, &local_to_endpoint, &channels, &lifetimes);
    let ghost o = more@;
    append_reports(krate, &mut reports, &mut more);
    proof {
        assert(channel_inputs(*krate, channel_callsites@));
        assert(orphans_follow(*krate, channel_callsites@, local_to_endpoint@, channels@, lifetimes@, o));
        assert(reports@ =~= d + a + iv + u + p + c + o);
        assert(panics_reported(*krate, p));
        assert(described(*krate, uafs_upto(*krate, krate.fun_decls@.len() as int), u));
        assert(run_parts(*krate, reports@, d, a, iv, u, p, c, o));
    }
    reports
}

/// The deadlock detector `dd` reads the crate, its call graph, every lock
/// guard the collector finds with what it records of each, every condvar
/// call, and the relations and entry contexts of the lock-guard analysis
/// `e`: run to its fixpoint over the call graph, every function settled,
/// every relation found sound, over the gen/kill maps of the guards.
pub open spec fn detector_inputs<'a>(krate: TranslatedCrate, dd: DeadlockDetector<'a>, e: DataflowEngine<'a, LockGuardId>) -> bool {
    &&& dd.wf()
    &&& forall|f: int| 0 <= f < dd.contexts().len() ==> (#[trigger] dd.contexts()[f]).wf()
    &&& dd.krate() == krate
    &&& forall|x: FunDeclId, y: FunDeclId|
        #![trigger dd.graph().edge_set().contains((x, y))]
        dd.graph().edge_set().contains((x, y)) <==> calls(krate, x, y)
    &&& forall|id: LockGuardId| #[trigger] dd.guards().has(id) == collected(krate, id)
    &&& forall|id: LockGuardId|
        #[trigger] dd.guards().has(id) ==> guard_facts(krate, local_body(krate, id.fun_id as int)->0, id.local, dd.guards().info(id))
    &&& forall|c: (CondvarKey, CondvarApi)|
        #[trigger] dd.sites()@.contains(c) <==> exists|f: int, b: int| #[trigger] condvar_site(krate, f, b) == Some(c)
    &&& e.wf()
    &&& e.krate() == krate
    &&& e.graph() == dd.graph()
    &&& e.contexts_closed()
    &&& forall|f: int| 0 <= f < e.num_funs() ==> #[trigger] e.fun_settled::<LockGuardRelationBuilder>(f, e.context_seq()[f]@)
    &&& rels_sound::<LockGuardId, LockGuardRelationBuilder>(e.rel_set(), Set::empty(), gks(e.analysis_seq()))
    &&& forall|f: int|
        0 <= f < e.analysis_seq().len() ==> ((#[trigger] gks(e.analysis_seq())[f]) is Some <==> krate.body_of(f) is Some)
    &&& forall|f: int|
        0 <= f < e.analysis_seq().len() ==> #[trigger] gen_kill_of_guards(e.analysis_seq()[f], dd.guards().entries@, f as FunDeclId)
    &&& dd.relation_seq() == e.relation_seq()
    &&& dd.contexts() == e.context_seq()
}

/// `d` is what the deadlock detector reports on the crate.
pub open spec fn deadlock_part<'a>(krate: TranslatedCrate, d: Seq<Report>) -> bool {
    exists|dd: DeadlockDetector<'a>, e: DataflowEngine<'a, LockGuardId>|
        #[trigger] detector_inputs(krate, dd, e) && dd.detect_result(d)
}

/// The atomic call sites of the crate, as collected, and its call graph.
pub open spec fn atomic_inputs(krate: TranslatedCrate, sites: Seq<(FunDeclId, Vec<AtomicCallSite>)>, cg: CallGraph) -> bool {
    &&& entries_view(sites) == atomic_entries_upto(krate, krate.fun_decls@.len() as int)
    &&& sites_valid(krate, sites)
    &&& cg.wf()
    &&& forall|x: FunDeclId, y: FunDeclId| #![trigger cg.edge_set().contains((x, y))] cg.edge_set().contains((x, y)) <==> calls(krate, x, y)
}

/// The uninitialised-memory call sites of the crate, as collected: for local functions with a body, each the list of its sites.
pub open spec fn uninit_inputs(krate: TranslatedCrate, sites: Seq<(FunDeclId, Vec<UninitCallSite>)>) -> bool {
    &&& uninit_sites_valid(krate, sites)
    &&& forall|i: int|
        0 <= i < sites.len() ==> {
            let f = (#[trigger] sites[i]).0 as int;
            &&& sites[i].1@.len() > 0
            &&& krate.fun_decl(f) is Some
            &&& krate.fun_decl(f)->0.is_local
            &&& krate.fun_decl(f)->0.body is Some
            &&& sites[i].1@ == uninit_sites_upto(krate, krate.fun_decl(f)->0.body->0, krate.fun_decl(f)->0.body->0.body@.len() as int)
        }
}

/// The channel call sites of the crate, as collected: for local functions with a body, in order, each the list of its sites.
pub open spec fn channel_inputs(krate: TranslatedCrate, sites: Seq<(FunDeclId, Vec<ChannelCallSite>)>) -> bool {
    &&& channel_sites_valid(krate, sites)
    &&& forall|i: int, j: int| 0 <= i < j < sites.len() ==> sites[i].0 < sites[j].0
    &&& forall|i: int|
        0 <= i < sites.len() ==> {
            let f = (#[trigger] sites[i]).0 as int;
            &&& sites[i].1@.len() > 0
            &&& krate.fun_decl(f) is Some
            &&& krate.fun_decl(f)->0.is_local
            &&& krate.fun_decl(f)->0.body is Some
            &&& sites[i].1@ == channel_sites_upto(krate, krate.fun_decl(f)->0.body->0, krate.fun_decl(f)->0.body->0.body@.len() as int)
        }
}

/// The reports `o` are those of the senders whose channel is never received
/// from, one for each, by the endpoint tables built from the sites.
pub open spec fn orphans_follow(
    krate: TranslatedCrate,
    sites: Seq<(FunDeclId, Vec<ChannelCallSite>)>,
    l2e: Seq<((FunDeclId, LocalId), EndpointId)>,
    chans: Seq<(ChannelId, (EndpointId, EndpointId))>,
    lts: Seq<(EndpointId, EndpointLifetime)>,
    o: Seq<Report>,
) -> bool {
    &&& endpoint_tables_wf(ctor_locs(sites), l2e, chans, lts)
    &&& o.len() == orphans_upto(krate, sites, l2e, chans, lts, sites.len() as int).len()
    &&& forall|x: int|
        0 <= x < o.len() ==> {
            let q = orphans_upto(krate, sites, l2e, chans, lts, sites.len() as int)[x];
            describes_orphan(krate, sites, l2e, chans, lts, q.0, q.1, #[trigger] o[x])
        }
}

/// The reports of a run, in order: `d` exactly what the deadlock detector
/// reports over the crate's guards and analysis (double locks, conflicting
/// locks and condvar misuse); `a` covering every atomicity
/// violation of the collected atomic call sites; `iv` exactly the invalid
/// frees of the collected sites; `u` exactly the uses after free; `p` exactly
/// the panics; `c` exactly the rendezvous deadlocks of the collected channel
/// sites; and `o` exactly the senders no one receives from.
pub open spec fn run_parts(
    krate: TranslatedCrate,
    r: Seq<Report>,
    d: Seq<Report>,
    a: Seq<Report>,
    iv: Seq<Report>,
    u: Seq<Report>,
    p: Seq<Report>,
    c: Seq<Report>,
    o: Seq<Report>,
) -> bool {
    &&& r == d + a + iv + u + p + c + o
    &&& forall|i: int| 0 <= i < d.len() ==> (#[trigger] d[i]) is DoubleLock || d[i] is ConflictLock || d[i] is CondvarDeadlock
    &&& deadlock_part(krate, d)
    &&& exists|sites: Seq<(FunDeclId, Vec<AtomicCallSite>)>, cg: CallGraph|
        #[trigger] atomic_inputs(krate, sites, cg) && (forall|i: int| 0 <= i < a.len() ==> is_atomicity_report(#[trigger] a[i]))
            && (forall|e: int, ri: int, wi: int|
            #[trigger] intra_violation(krate, sites, e, ri, wi) ==> intra_covered(krate, sites[e].0, sites[e].1@[ri], sites[e].1@[wi], a))
            && (forall|e1: int, k1: int, e2: int, k2: int|
            #[trigger] inter_violation(cg, sites, e1, k1, e2, k2) ==> inter_covered(krate, cg, sites[e1].0, sites[e1].1@[k1], sites[e2].0, sites[e2].1@[k2], a))
    &&& exists|us: Seq<(FunDeclId, Vec<UninitCallSite>)>|
        #[trigger] uninit_inputs(krate, us) && iv.len() == invalid_frees_upto(krate, us, us.len() as int).len() && forall|i: int|
            0 <= i < iv.len() ==> describes_invalid_free(krate, us, invalid_frees_upto(krate, us, us.len() as int)[i], #[trigger] iv[i])
    &&& described(krate, uafs_upto(krate, krate.fun_decls@.len() as int), u)
    &&& panics_reported(krate, p)
    &&& exists|cs: Seq<(FunDeclId, Vec<ChannelCallSite>)>|
        #[trigger] channel_inputs(krate, cs) && c.len() == channel_deadlocks_upto(krate, cs, cs.len() as int).len() && (forall|x: int|
            0 <= x < c.len() ==> {
                let q = channel_deadlocks_upto(krate, cs, cs.len() as int)[x];
                describes_deadlock(krate, cs, q.0, q.1, q.2, #[trigger] c[x])
            }) && exists|l2e: Seq<((FunDeclId, LocalId), EndpointId)>, chans: Seq<(ChannelId, (EndpointId, EndpointId))>, lts: Seq<(EndpointId, EndpointLifetime)>|
            #[trigger] orphans_follow(krate, cs, l2e, chans, lts, o)
}

/// The reports are those of the panic calls of the crate, one each, in order.
pub open spec fn panics_reported(krate: TranslatedCrate, rs: Seq<Report>) -> bool {
    &&& rs.len() == panic::panics_upto(krate, krate.fun_decls@.len() as int).len()
    &&& forall|i: int|
        0 <= i < rs.len() ==> {
            &&& (#[trigger] rs[i]) is Panic
            &&& rs[i]->Panic_0.bug_kind@ == "Panic"@
            &&& rs[i]->Panic_0.possibility@ == "Possibly"@
            &&& panic::report_facts(rs[i]) == panic::panics_upto(krate, krate.fun_decls@.len() as int)[i]
        }
}

/// Moves the reports of `more` to the end of `reports`.
fn append_reports(krate: &TranslatedCrate, reports: &mut Vec<Report>, more: &mut Vec<Report>)
    requires
        forall|i: int| 0 <= i < old(reports)@.len() ==> is_detector_report(*krate, #[trigger] old(reports)@[i]),
        forall|i: int| 0 <= i < old(more)@.len() ==> is_detector_report(*krate, #[trigger] old(more)@[i]),
    ensures
        final(reports)@ == old(reports)@ + old(more)@,
        forall|i: int| 0 <= i < final(reports)@.len() ==> is_detector_report(*krate, #[trigger] final(reports)@[i]),
{
    let ghost a = reports@;
    let ghost b = more@;
    reports.append(more);
    assert forall|i: int| 0 <= i < reports@.len() implies is_detector_report(*krate, #[trigger] reports@[i]) by {
        if i < a.len() {
            assert(reports@[i] == a[i]);
        } else {
            assert(reports@[i] == b[i - a.len()]);
        }
    }
}

/// How many reports there are of each kind.
#[derive(Clone, Copy, Debug, PartialEq, Eq, Structural)]
pub struct ReportCounts {
    pub doublelock: usize,
    pub conflictlock: usize,
    pub condvar_deadlock: usize,
    pub atomicity: usize,
    pub invalid_free: usize,
    pub use_after_free: usize,
    pub panic: usize,
    pub channel_deadlock: usize,
    pub orphan_sender: usize,
    pub missing_send: usize,
}

/// The number of reports that satisfy `p`.
pub open spec fn count_where(rs: Seq<Report>, p: spec_fn(Report) -> bool) -> nat
    decreases rs.len(),
{
    if rs.len() == 0 {
        0
    } else {
        count_where(rs.drop_last(), p) + if p(rs.last()) {
            1nat
        } else {
            0nat
        }
    }
}

pub open spec fn counts_of(rs: Seq<Report>) -> ReportCounts {
    ReportCounts {
        doublelock: count_where(rs, |r: Report| r is DoubleLock) as usize,
        conflictlock: count_where(rs, |r: Report| r is ConflictLock) as usize,
        condvar_deadlock: count_where(rs, |r: Report| r is CondvarDeadlock) as usize,
        atomicity: count_where(rs, |r: Report| r is AtomicityViolation) as usize,
        invalid_free: count_where(rs, |r: Report| r is InvalidFree) as usize,
        use_after_free: count_where(rs, |r: Report| r is UseAfterFree) as usize,
        panic: count_where(rs, |r: Report| r is Panic) as usize,
        channel_deadlock: count_where(rs, |r: Report| r is ChannelDeadlock) as usize,
        orphan_sender: count_where(rs, |r: Report| r is OrphanSender) as usize,
        missing_send: count_where(rs, |r: Report| r is MissingSend) as usize,
    }
}

proof fn lemma_count_le(rs: Seq<Report>, p: spec_fn(Report) -> bool)
    ensures
        count_where(rs, p) <= rs.len(),
    decreases rs.len(),
{
    if rs.len() > 0 {
        lemma_count_le(rs.drop_last(), p);
    }
}

/// The number of reports of each kind.
pub fn report_counts(reports: &Vec<Report>) -> (r: ReportCounts)
    ensures
        r == counts_of(reports@),
{
    let mut c = ReportCounts {
        doublelock: 0,
        conflictlock: 0,
        condvar_deadlock: 0,
        atomicity: 0,
        invalid_free: 0,
        use_after_free: 0,
        panic: 0,
        channel_deadlock: 0,
        orphan_sender: 0,
        missing_send: 0,
    };
    let mut i: usize = 0;
    while i < reports.len()
        invariant
            i <= reports@.len(),
            c == counts_of(reports@.take(i as int)),
        decreases reports@.len() - i,
    {
        proof {
            let t = reports@.take(i + 1);
            assert(t.drop_last() =~= reports@.take(i as int));
            assert(t.last() == reports@[i as int]);
            lemma_count_le(reports@.take(i as int), |r: Report| r is DoubleLock);
            lemma_count_le(reports@.take(i as int), |r: Report| r is ConflictLock);
            lemma_count_le(reports@.take(i as int), |r: Report| r is CondvarDeadlock);
            lemma_count_le(reports@.take(i as int), |r: Report| r is AtomicityViolation);
            lemma_count_le(reports@.take(i as int), |r: Report| r is InvalidFree);
            lemma_count_le(reports@.take(i as int), |r: Report| r is UseAfterFree);
            lemma_count_le(reports@.take(i as int), |r: Report| r is Panic);
            lemma_count_le(reports@.take(i as int), |r: Report| r is ChannelDeadlock);
            lemma_count_le(reports@.take(i as int), |r: Report| r is OrphanSender);
            lemma_count_le(reports@.take(i as int), |r: Report| r is MissingSend);
        }
        match &reports[i] {
            Report::DoubleLock(_) => c.doublelock = c.doublelock + 1,
            Report::ConflictLock(_) => c.conflictlock = c.conflictlock + 1,
            Report::CondvarDeadlock(_) => c.condvar_deadlock = c.condvar_deadlock + 1,
            Report::AtomicityViolation(_) => c.atomicity = c.atomicity + 1,
            Report::InvalidFree(_) => c.invalid_free = c.invalid_free + 1,
            Report::UseAfterFree(_) => c.use_after_free = c.use_after_free + 1,
            Report::Panic(_) => c.panic = c.panic + 1,
            Report::ChannelDeadlock(_) => c.channel_deadlock = c.channel_deadlock + 1,
            Report::OrphanSender(_) => c.orphan_sender = c.orphan_sender + 1,
            Report::MissingSend(_) => c.missing_send = c.missing_send + 1,
        }
        i = i + 1;
    }
    assert(reports@.take(reports@.len() as int) =~= reports@);
    c
}

} // verus!
