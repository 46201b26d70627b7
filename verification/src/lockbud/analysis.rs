//! The lock-guard instance of the dataflow engine: guards are generated where
//! they are acquired and killed where they are released.

use vstd::prelude::*;

use crate::lockbud::callgraph::CallGraph;
use crate::lockbud::condvar::{condvar_api_at, CondvarApi, CondvarCallSites, CondvarKey};
use crate::lockbud::engine::{
    add_at, gks, map_wf, rels_sound, set_at, CallsiteHook, DataflowEngine, FunctionAnalysis, GenKillMaps, LiveSet,
    RelationBuilder,
};
use crate::lockbud::types::{LockGuardId, LockGuardInfo, LockGuardMap, Location};
use crate::lockbud::ullbc::{FunDeclId, TranslatedCrate};

verus! {

broadcast use {vstd::seq_lib::lemma_seq_contains_after_push, vstd::seq::Seq::lemma_push_to_set_commute};

/// Relates each live guard to each guard acquired while it is live, other than itself.
pub struct LockGuardRelationBuilder;

impl RelationBuilder<LockGuardId> for LockGuardRelationBuilder {
    open spec fn relates(live: LockGuardId, generated: LockGuardId) -> bool {
        live != generated
    }

    fn build_relations(&mut self, state: &LiveSet<LockGuardId>, gen_set: &LiveSet<LockGuardId>) -> (r: Vec<
        (LockGuardId, LockGuardId),
    >) {
        let mut relations: Vec<(LockGuardId, LockGuardId)> = Vec::new();
        let mut i: usize = 0;
        while i < state.0.len()
            invariant
                i <= state.0@.len(),
                forall|p: (LockGuardId, LockGuardId)| #[trigger]
                    relations@.contains(p) <==> (state.0@.subrange(0, i as int).contains(p.0) && gen_set@.contains(p.1)
                        && p.0 != p.1),
            decreases state.0@.len() - i,
        {
            let s = state.0[i];
            let ghost before = relations@;
            let mut j: usize = 0;
            while j < gen_set.0.len()
                invariant
                    i < state.0@.len(),
                    s == state.0@[i as int],
                    j <= gen_set.0@.len(),
                    forall|p: (LockGuardId, LockGuardId)| #[trigger]
                        relations@.contains(p) <==> (before.contains(p) || (p.0 == s && gen_set.0@.subrange(
                            0,
                            j as int,
                        ).contains(p.1) && p.0 != p.1)),
                decreases gen_set.0@.len() - j,
            {
                let g = gen_set.0[j];
                if s != g {
                    relations.push((s, g));
                }
                proof {
                    assert(gen_set.0@.subrange(0, j + 1) == gen_set.0@.subrange(0, j as int).push(g));
                }
                j = j + 1;
            }
            proof {
                assert(gen_set.0@.subrange(0, gen_set.0@.len() as int) =~= gen_set.0@);
                assert(state.0@.subrange(0, i + 1) == state.0@.subrange(0, i as int).push(s));
            }
            i = i + 1;
        }
        proof {
            assert(state.0@.subrange(0, state.0@.len() as int) =~= state.0@);
        }
        relations
    }
}

/// Records the live guards before each condvar call of `condvar_callsites`.
pub struct LockGuardCallsiteHook<'a> {
    pub condvar_callsites: Option<&'a CondvarCallSites>,
    /// The live guards after each condvar call site, by site; each site once.
    pub condvar_callsite_states: Vec<(CondvarKey, LiveSet<LockGuardId>)>,
}

/// The state recorded for `key`, where there is one.
pub open spec fn state_at(m: Seq<(CondvarKey, LiveSet<LockGuardId>)>, key: CondvarKey) -> Option<Set<LockGuardId>>
    decreases m.len(),
{
    if m.len() == 0 {
        None
    } else if m.last().0 == key {
        Some(m.last().1@)
    } else {
        state_at(m.drop_last(), key)
    }
}

/// Records `state` for `key`, replacing what was recorded for it.
fn record_state(m: &mut Vec<(CondvarKey, LiveSet<LockGuardId>)>, key: CondvarKey, state: &LiveSet<LockGuardId>)
    requires
        state.wf(),
        forall|i: int| 0 <= i < old(m)@.len() ==> (#[trigger] old(m)@[i]).1.wf(),
    ensures
        forall|i: int| 0 <= i < final(m)@.len() ==> (#[trigger] final(m)@[i]).1.wf(),
        forall|k: CondvarKey| #[trigger]
            state_at(final(m)@, k) == if k == key {
                Some(state@)
            } else {
                state_at(old(m)@, k)
            },
{
    let ghost before = m@;
    m.push((key, state.copy()));
    proof {
        assert(m@.drop_last() =~= before);
        assert forall|k: CondvarKey| #[trigger] state_at(m@, k) == if k == key {
            Some(state@)
        } else {
            state_at(before, k)
        } by {}
    }
}

impl<'a> CallsiteHook<LockGuardId> for LockGuardCallsiteHook<'a> {
    fn on_callsite(&mut self, caller: FunDeclId, callee: FunDeclId, loc: Location, state: &LiveSet<LockGuardId>)
        ensures
            final(self).condvar_callsites == old(self).condvar_callsites,
            ({
                let key = (caller, loc, callee);
                let is_condvar = match old(self).condvar_callsites {
                    Some(cv) => exists|api: CondvarApi| #[trigger] cv@.contains((key, api)),
                    None => false,
                };
                &&& is_condvar ==> final(self).condvar_callsite_states@.len() == old(self).condvar_callsite_states@.len() + 1
                    && final(self).condvar_callsite_states@.drop_last() == old(self).condvar_callsite_states@
                    && final(self).condvar_callsite_states@.last().0 == key
                    && final(self).condvar_callsite_states@.last().1@ == state@
                &&& !is_condvar ==> final(self).condvar_callsite_states@ == old(self).condvar_callsite_states@
            }),
    {
        match self.condvar_callsites {
            Some(cv) => {
                let key = (caller, loc, callee);
                if condvar_api_at(cv, &key).is_some() {
                    let ghost before = self.condvar_callsite_states@;
                    self.condvar_callsite_states.push((key, state.copy()));
                    assert(self.condvar_callsite_states@.drop_last() =~= before);
                }
            },
            None => {},
        }
    }
}

/// The guards of function `f` that the map lists as acquired at `loc`.
pub open spec fn guards_acquired(entries: Seq<(LockGuardId, LockGuardInfo)>, f: FunDeclId, loc: Location) -> Set<
    LockGuardId,
> {
    Set::new(
        |g: LockGuardId|
            g.fun_id == f && exists|j: int|
                0 <= j < entries.len() && (#[trigger] entries[j]).0 == g && entries[j].1.gen_locs@.contains(loc),
    )
}

/// The guards of function `f` that the map lists as released at `loc`.
pub open spec fn guards_released(entries: Seq<(LockGuardId, LockGuardInfo)>, f: FunDeclId, loc: Location) -> Set<
    LockGuardId,
> {
    Set::new(
        |g: LockGuardId|
            g.fun_id == f && exists|j: int|
                0 <= j < entries.len() && (#[trigger] entries[j]).0 == g && entries[j].1.kill_locs@.contains(loc),
    )
}

/// Adds `id` at each location of `locs`.
fn add_all_at(m: &mut Vec<(Location, LiveSet<LockGuardId>)>, locs: &Vec<Location>, id: LockGuardId)
    requires
        map_wf(old(m)@),
    ensures
        map_wf(final(m)@),
        forall|l: Location| #[trigger]
            set_at(final(m)@, l) == if locs@.contains(l) {
                set_at(old(m)@, l).insert(id)
            } else {
                set_at(old(m)@, l)
            },
{
    let ghost start = m@;
    let mut k: usize = 0;
    while k < locs.len()
        invariant
            k <= locs@.len(),
            map_wf(m@),
            forall|l: Location| #[trigger]
                set_at(m@, l) == if locs@.subrange(0, k as int).contains(l) {
                    set_at(start, l).insert(id)
                } else {
                    set_at(start, l)
                },
        decreases locs@.len() - k,
    {
        let ghost before = m@;
        add_at(m, locs[k], id);
        proof {
            assert(locs@.subrange(0, k + 1) == locs@.subrange(0, k as int).push(locs@[k as int]));
            assert forall|l: Location| #[trigger] set_at(m@, l) == if locs@.subrange(0, k + 1).contains(l) {
                set_at(start, l).insert(id)
            } else {
                set_at(start, l)
            } by {
                assert(set_at(m@, l) == if l == locs@[k as int] {
                    set_at(before, l).insert(id)
                } else {
                    set_at(before, l)
                });
                if l == locs@[k as int] && locs@.subrange(0, k as int).contains(l) {
                    assert(set_at(start, l).insert(id).insert(id) =~= set_at(start, l).insert(id));
                }
            }
        }
        k = k + 1;
    }
    assert(locs@.subrange(0, locs@.len() as int) =~= locs@);
}

/// The gen and kill maps of function `f`: each of its guards is generated
/// where it is acquired and killed where it is released.
fn guard_gen_kill(lockguards: &LockGuardMap, f: FunDeclId) -> (r: GenKillMaps<LockGuardId>)
    ensures
        r.wf(),
        forall|l: Location| #[trigger] set_at(r.gen_map@, l) == guards_acquired(lockguards.entries@, f, l),
        forall|l: Location| #[trigger] set_at(r.kill_map@, l) == guards_released(lockguards.entries@, f, l),
{
    let mut gen_kill = GenKillMaps::new();
    let ghost es = lockguards.entries@;
    proof {
        assert forall|l: Location| #[trigger] set_at(gen_kill.gen_map@, l) == guards_acquired(es.subrange(0, 0), f, l) by {
            assert(guards_acquired(es.subrange(0, 0), f, l) =~= Set::<LockGuardId>::empty());
        }
        assert forall|l: Location| #[trigger] set_at(gen_kill.kill_map@, l) == guards_released(es.subrange(0, 0), f, l) by {
            assert(guards_released(es.subrange(0, 0), f, l) =~= Set::<LockGuardId>::empty());
        }
    }
    let mut i: usize = 0;
    while i < lockguards.entries.len()
        invariant
            i <= es.len(),
            es == lockguards.entries@,
            gen_kill.wf(),
            forall|l: Location| #[trigger] set_at(gen_kill.gen_map@, l) == guards_acquired(es.subrange(0, i as int), f, l),
            forall|l: Location| #[trigger] set_at(gen_kill.kill_map@, l) == guards_released(es.subrange(0, i as int), f, l),
        decreases es.len() - i,
    {
        let entry = &lockguards.entries[i];
        let id = entry.0;
        let ghost g_before = gen_kill.gen_map@;
        let ghost k_before = gen_kill.kill_map@;
        if id.fun_id == f {
            add_all_at(&mut gen_kill.gen_map, &entry.1.gen_locs, id);
            add_all_at(&mut gen_kill.kill_map, &entry.1.kill_locs, id);
        }
        proof {
            let pre = es.subrange(0, i as int);
            let post = es.subrange(0, i + 1);
            assert(post == pre.push(es[i as int]));
            assert forall|l: Location| #[trigger] set_at(gen_kill.gen_map@, l) == guards_acquired(post, f, l) by {
                assert forall|g: LockGuardId| guards_acquired(post, f, l).contains(g) <==> #[trigger] set_at(
                    gen_kill.gen_map@,
                    l,
                ).contains(g) by {
                    if guards_acquired(post, f, l).contains(g) {
                        let j = choose|j: int| 0 <= j < post.len() && (#[trigger] post[j]).0 == g && post[j].1.gen_locs@.contains(l);
                        if j < i {
                            assert(pre[j] == post[j]);
                            assert(guards_acquired(pre, f, l).contains(g));
                        }
                    }
                    if set_at(gen_kill.gen_map@, l).contains(g) && !set_at(g_before, l).contains(g) {
                        assert(post[i as int].0 == g);
                    }
                    if set_at(g_before, l).contains(g) {
                        let j = choose|j: int| 0 <= j < pre.len() && (#[trigger] pre[j]).0 == g && pre[j].1.gen_locs@.contains(l);
                        assert(post[j] == pre[j]);
                    }
                }
                assert(guards_acquired(post, f, l) =~= set_at(gen_kill.gen_map@, l));
            }
            assert forall|l: Location| #[trigger] set_at(gen_kill.kill_map@, l) == guards_released(post, f, l) by {
                assert forall|g: LockGuardId| guards_released(post, f, l).contains(g) <==> #[trigger] set_at(
                    gen_kill.kill_map@,
                    l,
                ).contains(g) by {
                    if guards_released(post, f, l).contains(g) {
                        let j = choose|j: int| 0 <= j < post.len() && (#[trigger] post[j]).0 == g && post[j].1.kill_locs@.contains(l);
                        if j < i {
                            assert(pre[j] == post[j]);
                            assert(guards_released(pre, f, l).contains(g));
                        }
                    }
                    if set_at(gen_kill.kill_map@, l).contains(g) && !set_at(k_before, l).contains(g) {
                        assert(post[i as int].0 == g);
                    }
                    if set_at(k_before, l).contains(g) {
                        let j = choose|j: int| 0 <= j < pre.len() && (#[trigger] pre[j]).0 == g && pre[j].1.kill_locs@.contains(l);
                        assert(post[j] == pre[j]);
                    }
                }
                assert(guards_released(post, f, l) =~= set_at(gen_kill.kill_map@, l));
            }
        }
        i = i + 1;
    }
    proof {
        assert(es.subrange(0, es.len() as int) =~= es);
    }
    gen_kill
}

/// Where function `f` has an analysis, its gen and kill maps are those of its guards.
pub open spec fn gen_kill_of_guards(
    a: Option<FunctionAnalysis<LockGuardId>>,
    entries: Seq<(LockGuardId, LockGuardInfo)>,
    f: FunDeclId,
) -> bool {
    a is Some ==> forall|l: Location|
        #![trigger set_at(a->0.gen_kill.gen_map@, l)]
        #![trigger set_at(a->0.gen_kill.kill_map@, l)]
        set_at(a->0.gen_kill.gen_map@, l) == guards_acquired(entries, f, l) && set_at(a->0.gen_kill.kill_map@, l)
            == guards_released(entries, f, l)
}

/// The lock-guard analysis: a dataflow engine over lock guards.
pub struct Analyzer<'a> {
    engine: DataflowEngine<'a, LockGuardId>,
    /// The live guards after each condvar call site, by site.
    pub condvar_callsite_states: Vec<(CondvarKey, LiveSet<LockGuardId>)>,
    condvar_callsites: Option<&'a CondvarCallSites>,
}

impl<'a> Analyzer<'a> {
    /// The engine that the analyzer runs.
    pub closed spec fn engine_spec(&self) -> DataflowEngine<'a, LockGuardId> {
        self.engine
    }

    /// The live guards recorded at condvar call sites.
    pub closed spec fn condvar_states(&self) -> Seq<(CondvarKey, LiveSet<LockGuardId>)> {
        self.condvar_callsite_states@
    }

    /// The condvar call sites the analyzer records states for, if any.
    pub closed spec fn condvar_sites(&self) -> Option<CondvarCallSites> {
        match self.condvar_callsites {
            Some(c) => Some(*c),
            None => None,
        }
    }

    /// An analyzer whose engine has, for each function with a body, the
    /// gen/kill maps of its guards, and nothing for the others.
    pub fn new(crate_data: &'a TranslatedCrate, callgraph: &'a CallGraph, lockguards: &'a LockGuardMap) -> (r: Self)
        requires
            crate_data.wf(),
            callgraph.wf(),
            forall|e: (FunDeclId, FunDeclId)| #[trigger]
                callgraph.edge_set().contains(e) ==> e.0 < crate_data.fun_decls@.len() && e.1 < crate_data.fun_decls@.len(),
        ensures
            r.engine_spec().wf(),
            r.engine_spec().krate() == *crate_data,
            r.engine_spec().graph() == *callgraph,
            r.engine_spec().context_seq().len() == 0,
            r.engine_spec().relation_seq().len() == 0,
            forall|f: int|
                0 <= f < r.engine_spec().analysis_seq().len() ==> ((#[trigger] r.engine_spec().analysis_seq()[f]) is Some
                    <==> crate_data.body_of(f) is Some),
            forall|f: int|
                0 <= f < r.engine_spec().analysis_seq().len() ==> #[trigger] gen_kill_of_guards(
                    r.engine_spec().analysis_seq()[f],
                    lockguards.entries@,
                    f as FunDeclId,
                ),
            r.condvar_states().len() == 0,
            r.condvar_sites() is None,
    {
        let mut engine = DataflowEngine::new(crate_data, callgraph);
        let n = crate_data.fun_decls.len();
        let mut f: usize = 0;
        while f < n
            invariant
                f <= n,
                n == crate_data.fun_decls@.len(),
                engine.wf(),
                engine.krate() == *crate_data,
                engine.graph() == *callgraph,
                engine.context_seq().len() == 0,
                engine.relation_seq().len() == 0,
                engine.analysis_seq().len() == n,
                forall|g: int| f <= g < n ==> (#[trigger] engine.analysis_seq()[g]) is None,
                forall|g: int| 0 <= g < f ==> ((#[trigger] engine.analysis_seq()[g]) is Some <==> crate_data.body_of(g) is Some),
                forall|g: int|
                    0 <= g < f ==> #[trigger] gen_kill_of_guards(engine.analysis_seq()[g], lockguards.entries@, g as FunDeclId),
            decreases n - f,
        {
            let has_body = match &crate_data.fun_decls[f] {
                Some(decl) => decl.body.is_some(),
                None => false,
            };
            let ghost prev = engine.analysis_seq();
            if has_body {
                let gen_kill = guard_gen_kill(lockguards, f);
                let ghost gk = gen_kill;
                engine.add_function_gen_kill(f, gen_kill);
                proof {
                    assert(engine.analysis_seq()[f as int]->0.gen_kill == gk);
                    assert forall|g: int| 0 <= g < n && g != f implies #[trigger] engine.analysis_seq()[g] == prev[g] by {}
                    assert(gen_kill_of_guards(engine.analysis_seq()[f as int], lockguards.entries@, f));
                }
            }
            proof {
                assert(crate_data.body_of(f as int) is Some == has_body);
                assert forall|g: int| 0 <= g < f + 1 implies #[trigger] gen_kill_of_guards(
                    engine.analysis_seq()[g],
                    lockguards.entries@,
                    g as FunDeclId,
                ) by {
                    if g < f {
                        assert(engine.analysis_seq()[g] == prev[g]);
                        assert(gen_kill_of_guards(prev[g], lockguards.entries@, g as FunDeclId));
                    } else if !has_body {
                        assert(engine.analysis_seq()[g] == prev[g]);
                    }
                }
            }
            f = f + 1;
        }
        Analyzer { engine, condvar_callsite_states: Vec::new(), condvar_callsites: None }
    }

    /// The analyzer, recording the live guards at the condvar call sites `condvar_callsites`.
    pub fn with_condvar_callsites(self, condvar_callsites: &'a CondvarCallSites) -> (r: Self)
        ensures
            r.engine_spec() == self.engine_spec(),
            r.condvar_states() == self.condvar_states(),
            r.condvar_sites() == Some(*condvar_callsites),
    {
        Analyzer {
            engine: self.engine,
            condvar_callsite_states: self.condvar_callsite_states,
            condvar_callsites: Some(condvar_callsites),
        }
    }

    /// Runs the analysis: contexts reach their fixpoint over the call graph,
    /// every function settles from its context, and each pair of a guard live
    /// when another is acquired is recorded as a relation.
    pub fn analyze(&mut self)
        requires
            old(self).engine_spec().wf(),
        ensures
            final(self).engine_spec().wf(),
            final(self).engine_spec().krate() == old(self).engine_spec().krate(),
            final(self).engine_spec().graph() == old(self).engine_spec().graph(),
            gks(final(self).engine_spec().analysis_seq()) == gks(old(self).engine_spec().analysis_seq()),
            final(self).engine_spec().contexts_closed(),
            forall|f: int|
                0 <= f < final(self).engine_spec().num_funs() ==> #[trigger] final(self).engine_spec().fun_settled::<
                    LockGuardRelationBuilder,
                >(f, final(self).engine_spec().context_seq()[f]@),
            old(self).engine_spec().rel_set().subset_of(final(self).engine_spec().rel_set()),
            rels_sound::<LockGuardId, LockGuardRelationBuilder>(
                final(self).engine_spec().rel_set(),
                old(self).engine_spec().rel_set(),
                gks(old(self).engine_spec().analysis_seq()),
            ),
    {
        let mut relation_builder = LockGuardRelationBuilder;
        let mut states: Vec<(CondvarKey, LiveSet<LockGuardId>)> = Vec::new();
        std::mem::swap(&mut states, &mut self.condvar_callsite_states);
        let mut callsite_hook = LockGuardCallsiteHook {
            condvar_callsites: self.condvar_callsites,
            condvar_callsite_states: states,
        };
        self.engine.analyze(&mut relation_builder, &mut callsite_hook);
        self.condvar_callsite_states = callsite_hook.condvar_callsite_states;
    }

    /// The live guards recorded after each condvar call site, in the order recorded.
    pub fn recorded_condvar_states(&self) -> (r: &Vec<(CondvarKey, LiveSet<LockGuardId>)>)
        ensures
            r@ == self.condvar_states(),
    {
        &self.condvar_callsite_states
    }

    /// The relations found: `(a, b)` means guard `a` is live when `b` is acquired.
    pub fn relations(&self) -> (r: &Vec<(LockGuardId, LockGuardId)>)
        ensures
            r@ == self.engine_spec().relation_seq(),
    {
        &self.engine.relations
    }

    /// The live guards at the entry of each function, by its identifier.
    pub fn contexts(&self) -> (r: &Vec<LiveSet<LockGuardId>>)
        ensures
            r@ == self.engine_spec().context_seq(),
    {
        &self.engine.contexts
    }

    /// The analysis of each function, by its identifier.
    pub fn analyses(&self) -> (r: &Vec<Option<FunctionAnalysis<LockGuardId>>>)
        ensures
            r@ == self.engine_spec().analysis_seq(),
    {
        &self.engine.analyses
    }
}

} // verus!
