//! A generic inter-procedural gen/kill dataflow engine, parameterised by the
//! entity it tracks.

use vstd::prelude::*;

use crate::lockbud::callgraph::CallGraph;
use crate::lockbud::fixpoint::{
    below, body_exit, entry_views, flows_into, is_least_fixpoint, is_post_fixpoint, lemma_least_is_chosen,
    lemma_ctx_potential_nonneg, lemma_ctx_potential_update, lemma_potential_nonneg, lemma_potential_update, lemma_run_block_mono, lemma_strict_subset_len,
    ctx_potential, potential, return_union, weight,
};
use crate::lockbud::types::Location;
use crate::lockbud::ullbc::{
    successors, terminator_successors, BlockId, ExprBody, FnOperand, FunDeclId, TerminatorKind, TranslatedCrate,
    START_BLOCK_ID,
};

verus! {

broadcast use {vstd::seq_lib::lemma_seq_contains_after_push, vstd::seq::Seq::lemma_push_to_set_commute};

/// An entity that the dataflow engine can track.
pub trait DataflowEntity: Copy + Sized {
    /// Whether two entities are the same entity.
    fn same_entity(&self, other: &Self) -> (r: bool)
        ensures
            r == (*self == *other),
    ;
}

/// A set of live entities at a program point.
#[derive(Debug)]
pub struct LiveSet<T: DataflowEntity>(pub Vec<T>);

impl<T: DataflowEntity> View for LiveSet<T> {
    type V = Set<T>;

    open spec fn view(&self) -> Set<T> {
        self.0@.to_set()
    }
}

impl<T: DataflowEntity> LiveSet<T> {
    /// No entity is held twice.
    pub open spec fn wf(&self) -> bool {
        self.0@.no_duplicates()
    }

    pub fn new() -> (r: Self)
        ensures
            r.wf(),
            r@ == Set::<T>::empty(),
    {
        let r = LiveSet(Vec::new());
        assert(r@ =~= Set::<T>::empty());
        r
    }

    /// Whether `id` is in the set.
    pub fn contains(&self, id: &T) -> (r: bool)
        ensures
            r == self@.contains(*id),
    {
        let mut i: usize = 0;
        while i < self.0.len()
            invariant
                i <= self.0@.len(),
                forall|k: int| 0 <= k < i ==> self.0@[k] != *id,
            decreases self.0@.len() - i,
        {
            if self.0[i].same_entity(id) {
                assert(self.0@.contains(*id));
                return true;
            }
            i = i + 1;
        }
        false
    }

    /// Adds `id`; tells whether it was new.
    pub fn insert(&mut self, id: T) -> (r: bool)
        requires
            old(self).wf(),
        ensures
            final(self).wf(),
            final(self)@ == old(self)@.insert(id),
            r == !old(self)@.contains(id),
    {
        if self.contains(&id) {
            assert(self@ =~= old(self)@.insert(id));
            false
        } else {
            let ghost before = self.0@;
            self.0.push(id);
            proof {
                assert(self.0@ == before.push(id));
                assert forall|a: int, b: int| 0 <= a < b < self.0@.len() implies self.0@[a] != self.0@[b] by {
                    if b == before.len() {
                        assert(before.contains(before[a]));
                    }
                }
                assert(self@ =~= old(self)@.insert(id)) by {
                    assert forall|x: T| self.0@.contains(x) <==> (before.contains(x) || x == id) by {
                        if self.0@.contains(x) {
                            let k = choose|k: int| 0 <= k < self.0@.len() && self.0@[k] == x;
                            if k < before.len() {
                                assert(before[k] == x);
                            }
                        }
                        if before.contains(x) {
                            let k = choose|k: int| 0 <= k < before.len() && before[k] == x;
                            assert(self.0@[k] == x);
                        }
                        if x == id {
                            assert(self.0@[before.len() as int] == x);
                        }
                    }
                }
            }
            true
        }
    }

    /// Removes `id`; tells whether it was present.
    pub fn remove(&mut self, id: &T) -> (r: bool)
        requires
            old(self).wf(),
        ensures
            final(self).wf(),
            final(self)@ == old(self)@.remove(*id),
            r == old(self)@.contains(*id),
    {
        let ghost before = self.0@;
        let mut kept: Vec<T> = Vec::new();
        let mut found = false;
        let mut i: usize = 0;
        while i < self.0.len()
            invariant
                self.0@ == before,
                before.no_duplicates(),
                i <= before.len(),
                kept@.no_duplicates(),
                found == before.subrange(0, i as int).contains(*id),
                forall|x: T| kept@.contains(x) <==> (before.subrange(0, i as int).contains(x) && x != *id),
            decreases before.len() - i,
        {
            let x = self.0[i];
            let ghost pre = before.subrange(0, i as int);
            assert(before.subrange(0, i + 1) == pre.push(x));
            if x.same_entity(id) {
                found = true;
            } else {
                proof {
                    assert(!pre.contains(x)) by {
                        if pre.contains(x) {
                            let k = choose|k: int| 0 <= k < pre.len() && pre[k] == x;
                            assert(before[k] == before[i as int]);
                        }
                    }
                }
                let ghost kb = kept@;
                kept.push(x);
                proof {
                    assert forall|a: int, b: int| 0 <= a < b < kept@.len() implies kept@[a] != kept@[b] by {
                        if b == kb.len() {
                            assert(kb.contains(kb[a]));
                        }
                    }
                }
            }
            i = i + 1;
        }
        assert(before.subrange(0, before.len() as int) =~= before);
        self.0 = kept;
        assert(self@ =~= old(self)@.remove(*id));
        found
    }

    /// Adds every entity of `other`; tells whether the set grew.
    pub fn union(&mut self, other: &Self) -> (r: bool)
        requires
            old(self).wf(),
        ensures
            final(self).wf(),
            final(self)@ == old(self)@.union(other@),
            r == !other@.subset_of(old(self)@),
    {
        let ghost start = self@;
        let mut changed = false;
        let mut i: usize = 0;
        while i < other.0.len()
            invariant
                self.wf(),
                i <= other.0@.len(),
                self@ == start.union(other.0@.subrange(0, i as int).to_set()),
                changed == !other.0@.subrange(0, i as int).to_set().subset_of(start),
            decreases other.0@.len() - i,
        {
            let x = other.0[i];
            let ghost pre = other.0@.subrange(0, i as int);
            assert(other.0@.subrange(0, i + 1) == pre.push(x));
            assert(pre.push(x).to_set() =~= pre.to_set().insert(x));
            let added = self.insert(x);
            if added {
                changed = true;
            }
            assert(self@ =~= start.union(pre.push(x).to_set()));
            i = i + 1;
        }
        assert(other.0@.subrange(0, other.0@.len() as int) =~= other.0@);
        changed
    }

    /// Removes every entity of `other`; tells whether the set shrank.
    pub fn difference(&mut self, other: &Self) -> (r: bool)
        requires
            old(self).wf(),
        ensures
            final(self).wf(),
            final(self)@ == old(self)@.difference(other@),
            r == !old(self)@.disjoint(other@),
    {
        let ghost start = self@;
        let mut changed = false;
        let mut i: usize = 0;
        while i < other.0.len()
            invariant
                self.wf(),
                i <= other.0@.len(),
                self@ == start.difference(other.0@.subrange(0, i as int).to_set()),
                changed == !start.disjoint(other.0@.subrange(0, i as int).to_set()),
            decreases other.0@.len() - i,
        {
            let x = other.0[i];
            let ghost pre = other.0@.subrange(0, i as int);
            assert(other.0@.subrange(0, i + 1) == pre.push(x));
            assert(pre.push(x).to_set() =~= pre.to_set().insert(x));
            let removed = self.remove(&x);
            if removed {
                changed = true;
            }
            proof {
                assert(self@ =~= start.difference(pre.push(x).to_set()));
                if !changed {
                    assert(start.disjoint(pre.push(x).to_set())) by {
                        assert(!start.contains(x));
                    }
                }
                if removed {
                    assert(start.contains(x));
                    assert(pre.push(x).to_set().contains(x));
                }
            }
            i = i + 1;
        }
        assert(other.0@.subrange(0, other.0@.len() as int) =~= other.0@);
        changed
    }

    /// Whether the set holds no entity.
    pub fn is_empty(&self) -> (r: bool)
        ensures
            r == (self@ == Set::<T>::empty()),
    {
        if self.0.len() == 0 {
            assert(self@ =~= Set::<T>::empty());
            true
        } else {
            assert(self@.contains(self.0@[0]));
            false
        }
    }

    /// The entities of the set, each once.
    pub fn iter(&self) -> (r: Vec<T>)
        ensures
            r@ == self.0@,
    {
        self.copy().0
    }

    /// A copy of the set.
    pub fn copy(&self) -> (r: Self)
        ensures
            r.0@ == self.0@,
            r@ == self@,
    {
        let mut v: Vec<T> = Vec::new();
        let mut i: usize = 0;
        while i < self.0.len()
            invariant
                i <= self.0@.len(),
                v@ == self.0@.subrange(0, i as int),
            decreases self.0@.len() - i,
        {
            v.push(self.0[i]);
            i = i + 1;
            assert(v@ =~= self.0@.subrange(0, i as int));
        }
        assert(v@ =~= self.0@);
        LiveSet(v)
    }
}


// ---------------------------------------------------------------------------
// Gen and kill maps
// ---------------------------------------------------------------------------

/// The entities that map `m` lists at `loc`, from entry `i` on: those of the first entry for `loc`.
pub open spec fn set_from<T: DataflowEntity>(m: Seq<(Location, LiveSet<T>)>, loc: Location, i: int) -> Set<T>
    decreases m.len() - i,
{
    if i < 0 || i >= m.len() {
        Set::empty()
    } else if m[i].0 == loc {
        m[i].1@
    } else {
        set_from(m, loc, i + 1)
    }
}

/// The entities that map `m` lists at `loc`, none where it lists nothing.
pub open spec fn set_at<T: DataflowEntity>(m: Seq<(Location, LiveSet<T>)>, loc: Location) -> Set<T> {
    set_from(m, loc, 0)
}

/// Every set of the map is free of repeats.
pub open spec fn map_wf<T: DataflowEntity>(m: Seq<(Location, LiveSet<T>)>) -> bool {
    forall|i: int| 0 <= i < m.len() ==> (#[trigger] m[i]).1.wf()
}

/// The entities generated and killed at each location of one function.
#[derive(Debug)]
pub struct GenKillMaps<T: DataflowEntity> {
    pub gen_map: Vec<(Location, LiveSet<T>)>,
    pub kill_map: Vec<(Location, LiveSet<T>)>,
}

/// The entities a function's gen map mentions anywhere.
pub open spec fn gen_union<T: DataflowEntity>(m: Seq<(Location, LiveSet<T>)>) -> Set<T>
    decreases m.len(),
{
    if m.len() == 0 {
        Set::empty()
    } else {
        gen_union(m.drop_last()).union(m.last().1@)
    }
}

proof fn lemma_gen_union_finite<T: DataflowEntity>(m: Seq<(Location, LiveSet<T>)>)
    ensures
        gen_union(m).finite(),
    decreases m.len(),
{
    broadcast use vstd::set_lib::lemma_set_union_finite_iff;
    if m.len() > 0 {
        lemma_gen_union_finite(m.drop_last());
        vstd::seq_lib::seq_to_set_is_finite(m.last().1.0@);
    }
}

proof fn lemma_set_from_in_union<T: DataflowEntity>(m: Seq<(Location, LiveSet<T>)>, loc: Location, i: int)
    requires
        0 <= i,
    ensures
        set_from(m, loc, i).subset_of(gen_union(m)),
    decreases m.len() - i,
{
    if i < m.len() {
        if m[i].0 == loc {
            lemma_entry_in_union(m, i);
        } else {
            lemma_set_from_in_union(m, loc, i + 1);
        }
    }
}

proof fn lemma_entry_in_union<T: DataflowEntity>(m: Seq<(Location, LiveSet<T>)>, i: int)
    requires
        0 <= i < m.len(),
    ensures
        m[i].1@.subset_of(gen_union(m)),
    decreases m.len(),
{
    if i < m.len() - 1 {
        lemma_entry_in_union(m.drop_last(), i);
        assert(m.drop_last()[i] == m[i]);
    }
}

/// The state after location `loc`: the killed entities removed, then the generated added.
pub open spec fn step_state<T: DataflowEntity>(gk: GenKillMaps<T>, s: Set<T>, loc: Location) -> Set<T> {
    s.difference(set_at(gk.kill_map@, loc)).union(set_at(gk.gen_map@, loc))
}

/// The state after the first `k` locations of block `b` (statements, then the terminator).
pub open spec fn run_block<T: DataflowEntity>(gk: GenKillMaps<T>, s: Set<T>, b: BlockId, k: nat) -> Set<T>
    decreases k,
{
    if k == 0 {
        s
    } else {
        step_state(gk, run_block(gk, s, b, (k - 1) as nat), Location { block: b, statement_index: (k - 1) as usize })
    }
}

/// The state at the exit of block `b` of `body`, entered with `s`.
pub open spec fn block_out<T: DataflowEntity>(gk: GenKillMaps<T>, body: ExprBody, s: Set<T>, b: BlockId) -> Set<T> {
    run_block(gk, s, b, (body.body@[b as int].statements@.len() + 1) as nat)
}

proof fn lemma_run_block_bound<T: DataflowEntity>(gk: GenKillMaps<T>, s: Set<T>, b: BlockId, k: nat, u: Set<T>)
    requires
        s.subset_of(u),
        gen_union(gk.gen_map@).subset_of(u),
    ensures
        run_block(gk, s, b, k).subset_of(u),
    decreases k,
{
    if k > 0 {
        lemma_run_block_bound(gk, s, b, (k - 1) as nat, u);
        lemma_set_from_in_union(gk.gen_map@, Location { block: b, statement_index: (k - 1) as usize }, 0);
    }
}

impl<T: DataflowEntity> GenKillMaps<T> {
    /// Every set of both maps is free of repeats.
    pub open spec fn wf(&self) -> bool {
        map_wf(self.gen_map@) && map_wf(self.kill_map@)
    }

    /// Nothing generated or killed anywhere.
    pub fn new() -> (r: Self)
        ensures
            r.wf(),
            r.gen_map@.len() == 0,
            r.kill_map@.len() == 0,
    {
        GenKillMaps { gen_map: Vec::new(), kill_map: Vec::new() }
    }
}

/// The set listed at `loc`, where one is.
fn lookup<'a, T: DataflowEntity>(m: &'a Vec<(Location, LiveSet<T>)>, loc: &Location) -> (r: Option<&'a LiveSet<T>>)
    requires
        map_wf(m@),
    ensures
        match r {
            Some(s) => s@ == set_at(m@, *loc) && s.wf(),
            None => set_at(m@, *loc) == Set::<T>::empty(),
        },
{
    let mut i: usize = 0;
    while i < m.len()
        invariant
            i <= m@.len(),
            map_wf(m@),
            set_at(m@, *loc) == set_from(m@, *loc, i as int),
        decreases m@.len() - i,
    {
        if m[i].0 == *loc {
            return Some(&m[i].1);
        }
        i = i + 1;
    }
    None
}

/// Adds `id` to the set listed at `loc`, listing one there where there is none.
pub fn add_at<T: DataflowEntity>(m: &mut Vec<(Location, LiveSet<T>)>, loc: Location, id: T)
    requires
        map_wf(old(m)@),
    ensures
        map_wf(final(m)@),
        forall|l: Location| #[trigger] set_at(final(m)@, l) == if l == loc {
            set_at(old(m)@, l).insert(id)
        } else {
            set_at(old(m)@, l)
        },
        gen_union(final(m)@) == gen_union(old(m)@).insert(id),
{
    let mut i: usize = 0;
    while i < m.len()
        invariant
            i <= m@.len(),
            m@ == old(m)@,
            map_wf(m@),
            forall|k: int| 0 <= k < i ==> (#[trigger] m@[k]).0 != loc,
        decreases m@.len() - i,
    {
        if m[i].0 == loc {
            let ghost before = m@;
            let (l, mut set) = m.remove(i);
            set.insert(id);
            m.insert(i, (l, set));
            proof {
                lemma_set_from_update(before, m@, i as int, loc, id, 0);
                lemma_gen_union_update(before, m@, i as int, id);
            }
            return;
        }
        i = i + 1;
    }
    let ghost before = m@;
    let mut set = LiveSet::new();
    set.insert(id);
    m.push((loc, set));
    proof {
        lemma_set_from_push(before, loc, set, 0);
        lemma_set_from_absent(before, loc, 0);
        assert(m@.drop_last() =~= before);
        assert(set@ =~= Set::<T>::empty().insert(id));
        assert(gen_union(m@) =~= gen_union(before).insert(id));
    }
}

proof fn lemma_set_from_update<T: DataflowEntity>(
    a: Seq<(Location, LiveSet<T>)>,
    b: Seq<(Location, LiveSet<T>)>,
    i: int,
    loc: Location,
    id: T,
    j: int,
)
    requires
        0 <= i < a.len(),
        a.len() == b.len(),
        0 <= j <= i,
        a[i].0 == loc,
        b[i].0 == loc,
        b[i].1@ == a[i].1@.insert(id),
        forall|k: int| 0 <= k < a.len() && k != i ==> b[k] == a[k],
        forall|k: int| 0 <= k < i ==> (#[trigger] a[k]).0 != loc,
    ensures
        forall|l: Location| #[trigger] set_from(b, l, j) == if l == loc {
            set_from(a, l, j).insert(id)
        } else {
            set_from(a, l, j)
        },
    decreases i - j,
{
    assert forall|l: Location| #[trigger] set_from(b, l, j) == if l == loc {
        set_from(a, l, j).insert(id)
    } else {
        set_from(a, l, j)
    } by {
        lemma_set_from_update_one(a, b, i, loc, id, j, l);
    }
}

proof fn lemma_set_from_update_one<T: DataflowEntity>(
    a: Seq<(Location, LiveSet<T>)>,
    b: Seq<(Location, LiveSet<T>)>,
    i: int,
    loc: Location,
    id: T,
    j: int,
    l: Location,
)
    requires
        0 <= i < a.len(),
        a.len() == b.len(),
        0 <= j,
        a[i].0 == loc,
        b[i].0 == loc,
        b[i].1@ == a[i].1@.insert(id),
        forall|k: int| 0 <= k < a.len() && k != i ==> b[k] == a[k],
        forall|k: int| 0 <= k < i ==> (#[trigger] a[k]).0 != loc,
    ensures
        set_from(b, l, j) == if l == loc && j <= i {
            set_from(a, l, j).insert(id)
        } else {
            set_from(a, l, j)
        },
    decreases a.len() - j,
{
    if j < a.len() {
        if j == i {
            if l != loc {
                lemma_set_from_update_one(a, b, i, loc, id, j + 1, l);
            }
        } else {
            assert(b[j] == a[j]);
            if j < i {
                assert(a[j].0 != loc);
            }
            lemma_set_from_update_one(a, b, i, loc, id, j + 1, l);
        }
    }
}

proof fn lemma_gen_union_update<T: DataflowEntity>(a: Seq<(Location, LiveSet<T>)>, b: Seq<(Location, LiveSet<T>)>, i: int, id: T)
    requires
        0 <= i < a.len(),
        a.len() == b.len(),
        b[i].1@ == a[i].1@.insert(id),
        forall|k: int| 0 <= k < a.len() && k != i ==> b[k] == a[k],
    ensures
        gen_union(b) == gen_union(a).insert(id),
    decreases a.len(),
{
    if i == a.len() - 1 {
        assert(a.drop_last() =~= b.drop_last());
        assert(gen_union(b) =~= gen_union(a).insert(id));
    } else {
        lemma_gen_union_update(a.drop_last(), b.drop_last(), i, id);
        assert(b.last() == a.last());
        assert(gen_union(b) =~= gen_union(a).insert(id));
    }
}

proof fn lemma_set_from_push<T: DataflowEntity>(a: Seq<(Location, LiveSet<T>)>, loc: Location, set: LiveSet<T>, j: int)
    requires
        0 <= j <= a.len(),
        forall|k: int| 0 <= k < a.len() ==> (#[trigger] a[k]).0 != loc,
    ensures
        forall|l: Location| #[trigger] set_from(a.push((loc, set)), l, j) == if l == loc {
            set@
        } else {
            set_from(a, l, j)
        },
{
    assert forall|l: Location| #[trigger] set_from(a.push((loc, set)), l, j) == if l == loc {
        set@
    } else {
        set_from(a, l, j)
    } by {
        lemma_set_from_push_one(a, loc, set, j, l);
    }
}

proof fn lemma_set_from_absent<T: DataflowEntity>(a: Seq<(Location, LiveSet<T>)>, loc: Location, j: int)
    requires
        0 <= j,
        forall|k: int| 0 <= k < a.len() ==> (#[trigger] a[k]).0 != loc,
    ensures
        set_from(a, loc, j) == Set::<T>::empty(),
    decreases a.len() - j,
{
    if j < a.len() {
        assert(a[j].0 != loc);
        lemma_set_from_absent(a, loc, j + 1);
    }
}

proof fn lemma_set_from_push_one<T: DataflowEntity>(
    a: Seq<(Location, LiveSet<T>)>,
    loc: Location,
    set: LiveSet<T>,
    j: int,
    l: Location,
)
    requires
        0 <= j <= a.len(),
        forall|k: int| 0 <= k < a.len() ==> (#[trigger] a[k]).0 != loc,
    ensures
        set_from(a.push((loc, set)), l, j) == if l == loc {
            set@
        } else {
            set_from(a, l, j)
        },
    decreases a.len() - j,
{
    let b = a.push((loc, set));
    if j < a.len() {
        assert(b[j] == a[j]);
        lemma_set_from_push_one(a, loc, set, j + 1, l);
    } else {
        assert(b[j] == (loc, set));
        if l != loc {
            assert(set_from(b, l, j + 1) == Set::<T>::empty());
        }
    }
}

// ---------------------------------------------------------------------------
// Relations and callsite hooks
// ---------------------------------------------------------------------------

/// Records pairs of entities when some are generated while others are live.
pub trait RelationBuilder<T: DataflowEntity> {
    /// Whether the builder records the pair of a live entity and a generated one.
    spec fn relates(live: T, generated: T) -> bool;

    /// The pairs of an entity of `state` and one of `gen_set` that the builder relates.
    fn build_relations(&mut self, state: &LiveSet<T>, gen_set: &LiveSet<T>) -> (r: Vec<(T, T)>)
        requires
            state.wf(),
            gen_set.wf(),
        ensures
            forall|p: (T, T)| #[trigger]
                r@.contains(p) <==> (state@.contains(p.0) && gen_set@.contains(p.1) && Self::relates(p.0, p.1)),
    ;
}

/// Told of the live state after each block that calls a declared function.
pub trait CallsiteHook<T: DataflowEntity> {
    fn on_callsite(&mut self, caller: FunDeclId, callee: FunDeclId, loc: Location, state: &LiveSet<T>)
        requires
            state.wf(),
    ;
}

/// A relation builder that records nothing.
pub struct NoOpRelationBuilder;

impl<T: DataflowEntity> RelationBuilder<T> for NoOpRelationBuilder {
    open spec fn relates(live: T, generated: T) -> bool {
        false
    }

    fn build_relations(&mut self, state: &LiveSet<T>, gen_set: &LiveSet<T>) -> (r: Vec<(T, T)>) {
        Vec::new()
    }
}

/// A callsite hook that does nothing.
pub struct NoOpCallsiteHook;

impl<T: DataflowEntity> CallsiteHook<T> for NoOpCallsiteHook {
    fn on_callsite(&mut self, caller: FunDeclId, callee: FunDeclId, loc: Location, state: &LiveSet<T>) {
    }
}

/// The set of a set that may be missing; empty where it is.
pub open spec fn opt_set<T: DataflowEntity>(o: Option<&LiveSet<T>>) -> Set<T> {
    match o {
        Some(s) => s@,
        None => Set::empty(),
    }
}

/// The pairs that builder `R` records at `loc` when the state before it is `s`.
pub open spec fn rel_at<T: DataflowEntity, R: RelationBuilder<T>>(gk: GenKillMaps<T>, s: Set<T>, loc: Location) -> Set<(T, T)> {
    Set::new(
        |p: (T, T)|
            s.difference(set_at(gk.kill_map@, loc)).contains(p.0) && set_at(gk.gen_map@, loc).contains(p.1)
                && R::relates(p.0, p.1),
    )
}

/// The pairs recorded over the first `k` locations of block `b`, entered with `s`.
pub open spec fn block_rels<T: DataflowEntity, R: RelationBuilder<T>>(
    gk: GenKillMaps<T>,
    s: Set<T>,
    b: BlockId,
    k: nat,
) -> Set<(T, T)>
    decreases k,
{
    if k == 0 {
        Set::empty()
    } else {
        block_rels::<T, R>(gk, s, b, (k - 1) as nat).union(
            rel_at::<T, R>(gk, run_block(gk, s, b, (k - 1) as nat), Location { block: b, statement_index: (k - 1) as usize }),
        )
    }
}

/// The number of locations of block `b`: its statements and its terminator.
pub open spec fn nlocs(body: ExprBody, b: int) -> nat {
    (body.body@[b].statements@.len() + 1) as nat
}

/// The declared function that block `b` calls, if it calls one.
pub open spec fn called_fun(body: ExprBody, b: int) -> Option<FunDeclId> {
    match body.body@[b].terminator.kind {
        TerminatorKind::Call { call, .. } => match call.func {
            FnOperand::Fun(id) => Some(id),
            _ => None,
        },
        _ => None,
    }
}

/// Each block that `e` reaches has its relations recorded in `rels`.
pub open spec fn rels_complete<T: DataflowEntity, R: RelationBuilder<T>>(
    gk: GenKillMaps<T>,
    body: ExprBody,
    e: Seq<Option<Set<T>>>,
    rels: Set<(T, T)>,
) -> bool {
    forall|b: int|
        0 <= b < e.len() && (#[trigger] e[b]) is Some ==> block_rels::<T, R>(gk, e[b]->0, b as BlockId, nlocs(body, b)).subset_of(
            rels,
        )
}

/// The state after each reached block that calls a declared function, and nothing for other blocks.
pub open spec fn callsites_exact<T: DataflowEntity>(
    gk: GenKillMaps<T>,
    body: ExprBody,
    e: Seq<Option<Set<T>>>,
    c: Seq<Option<LiveSet<T>>>,
) -> bool {
    &&& c.len() == e.len()
    &&& forall|b: int|
        0 <= b < c.len() ==> {
            &&& ((#[trigger] c[b]) is Some <==> (e[b] is Some && called_fun(body, b) is Some))
            &&& (c[b] is Some ==> c[b]->0.wf() && c[b]->0@ == block_out(gk, body, e[b]->0, b as BlockId))
        }
}

/// Every entry state present is free of repeats.
pub open spec fn entries_wf<T: DataflowEntity>(e: Seq<Option<LiveSet<T>>>) -> bool {
    forall|b: int| 0 <= b < e.len() && (#[trigger] e[b]) is Some ==> e[b]->0.wf()
}

/// Adds the pair `p` to `rels` unless it is there.
fn add_pair<T: DataflowEntity>(rels: &mut Vec<(T, T)>, p: (T, T))
    requires
        old(rels)@.no_duplicates(),
    ensures
        final(rels)@.no_duplicates(),
        final(rels)@.to_set() == old(rels)@.to_set().insert(p),
{
    let mut i: usize = 0;
    while i < rels.len()
        invariant
            i <= rels@.len(),
            rels@.no_duplicates(),
            forall|k: int| 0 <= k < i ==> rels@[k] != p,
        decreases rels@.len() - i,
    {
        let q = rels[i];
        if q.0.same_entity(&p.0) && q.1.same_entity(&p.1) {
            assert(rels@[i as int] == p);
            assert(rels@.to_set() =~= rels@.to_set().insert(p));
            return;
        }
        i = i + 1;
    }
    let ghost before = rels@;
    proof {
        crate::seqs::lemma_push_nodup(before, p);
    }
    rels.push(p);
    assert(rels@.to_set() =~= before.to_set().insert(p));
}

/// Adds every pair of `ps` to `rels`.
fn add_pairs<T: DataflowEntity>(rels: &mut Vec<(T, T)>, ps: &Vec<(T, T)>)
    requires
        old(rels)@.no_duplicates(),
    ensures
        final(rels)@.no_duplicates(),
        final(rels)@.to_set() == old(rels)@.to_set().union(ps@.to_set()),
{
    let ghost start = rels@.to_set();
    let mut i: usize = 0;
    while i < ps.len()
        invariant
            i <= ps@.len(),
            rels@.no_duplicates(),
            rels@.to_set() == start.union(ps@.subrange(0, i as int).to_set()),
        decreases ps@.len() - i,
    {
        let ghost pre = ps@.subrange(0, i as int);
        assert(ps@.subrange(0, i + 1) == pre.push(ps@[i as int]));
        add_pair(rels, ps[i]);
        assert(rels@.to_set() =~= start.union(pre.push(ps@[i as int]).to_set()));
        i = i + 1;
    }
    assert(ps@.subrange(0, ps@.len() as int) =~= ps@);
}

/// Applies the kill set, then the gen set, at one location; returns the
/// relations built between the surviving state and the generated entities.
fn apply_gen_kill<T: DataflowEntity, R: RelationBuilder<T>>(
    state: &mut LiveSet<T>,
    gen_set: Option<&LiveSet<T>>,
    kill: Option<&LiveSet<T>>,
    relation_builder: &mut R,
) -> (r: Vec<(T, T)>)
    requires
        old(state).wf(),
        gen_set matches Some(g) ==> g.wf(),
    ensures
        final(state).wf(),
        final(state)@ == old(state)@.difference(opt_set(kill)).union(opt_set(gen_set)),
        forall|p: (T, T)| #[trigger]
            r@.contains(p) <==> (old(state)@.difference(opt_set(kill)).contains(p.0) && opt_set(gen_set).contains(p.1)
                && R::relates(p.0, p.1)),
{
    match kill {
        Some(k) => {
            state.difference(k);
        },
        None => {
            assert(state@.difference(Set::<T>::empty()) =~= state@);
        },
    }
    let mut relations: Vec<(T, T)> = Vec::new();
    match gen_set {
        Some(g) => {
            relations = relation_builder.build_relations(state, g);
            state.union(g);
        },
        None => {
            assert(state@.union(Set::<T>::empty()) =~= state@);
        },
    }
    relations
}

// ---------------------------------------------------------------------------
// The analysis of one body
// ---------------------------------------------------------------------------

/// Block `b` needs no more work: its exit flows into its successors, its
/// relations are recorded, and its callsite state is complete.
pub open spec fn block_done<T: DataflowEntity, R: RelationBuilder<T>>(
    gk: GenKillMaps<T>,
    body: ExprBody,
    e: Seq<Option<Set<T>>>,
    c: Seq<Option<LiveSet<T>>>,
    rels: Set<(T, T)>,
    b: int,
) -> bool {
    &&& flows_into(gk, body, e, b)
    &&& (e[b] is Some ==> block_rels::<T, R>(gk, e[b]->0, b as BlockId, nlocs(body, b)).subset_of(rels))
    &&& ((e[b] is Some && called_fun(body, b) is Some) ==> c[b] is Some && block_out(
        gk,
        body,
        e[b]->0,
        b as BlockId,
    ).subset_of(c[b]->0@))
}

/// The callsite states hold no more than the state after their block.
pub open spec fn callsites_bounded<T: DataflowEntity>(
    gk: GenKillMaps<T>,
    body: ExprBody,
    e: Seq<Option<Set<T>>>,
    c: Seq<Option<LiveSet<T>>>,
) -> bool {
    &&& c.len() == e.len()
    &&& forall|b: int|
        0 <= b < c.len() && (#[trigger] c[b]) is Some ==> {
            &&& e[b] is Some
            &&& called_fun(body, b) is Some
            &&& c[b]->0.wf()
            &&& c[b]->0@.subset_of(block_out(gk, body, e[b]->0, b as BlockId))
        }
}

/// A set joined into a state that may be missing.
pub open spec fn opt_union<T>(o: Option<Set<T>>, s: Set<T>) -> Set<T> {
    match o {
        Some(a) => a.union(s),
        None => s,
    }
}

/// `e2` is `e1` with `s` joined into the entry of every successor of block `b`.
pub open spec fn joined_into_successors<T>(
    body: ExprBody,
    b: int,
    e1: Seq<Option<Set<T>>>,
    e2: Seq<Option<Set<T>>>,
    s: Set<T>,
) -> bool {
    &&& e2.len() == e1.len()
    &&& forall|x: int|
        0 <= x < e1.len() ==> #[trigger] e2[x] == if successors(body.body@[b].terminator.kind).contains(x as BlockId) {
            Some(opt_union(e1[x], s))
        } else {
            e1[x]
        }
}

/// The pairs of `block_rels` are related by `R`, and their second entity is generated somewhere.
proof fn lemma_block_rels_sound<T: DataflowEntity, R: RelationBuilder<T>>(
    gk: GenKillMaps<T>,
    s: Set<T>,
    b: BlockId,
    k: nat,
    p: (T, T),
)
    requires
        block_rels::<T, R>(gk, s, b, k).contains(p),
    ensures
        R::relates(p.0, p.1),
        gen_union(gk.gen_map@).contains(p.1),
    decreases k,
{
    if k > 0 {
        let loc = Location { block: b, statement_index: (k - 1) as usize };
        if block_rels::<T, R>(gk, s, b, (k - 1) as nat).contains(p) {
            lemma_block_rels_sound::<T, R>(gk, s, b, (k - 1) as nat, p);
        } else {
            lemma_set_from_in_union(gk.gen_map@, loc, 0);
        }
    }
}

/// Runs the statements and the terminator of block `b` from `entry`, recording relations.
fn transfer_block<T: DataflowEntity, R: RelationBuilder<T>>(
    body: &ExprBody,
    gk: &GenKillMaps<T>,
    b: BlockId,
    entry: &LiveSet<T>,
    relations: &mut Vec<(T, T)>,
    relation_builder: &mut R,
) -> (state: LiveSet<T>)
    requires
        b < body.body@.len(),
        gk.wf(),
        entry.wf(),
        old(relations)@.no_duplicates(),
    ensures
        state.wf(),
        state@ == block_out(*gk, *body, entry@, b),
        final(relations)@.no_duplicates(),
        final(relations)@.to_set() == old(relations)@.to_set().union(
            block_rels::<T, R>(*gk, entry@, b, nlocs(*body, b as int)),
        ),
{
    let block = &body.body[b];
    let nst = block.statements.len();
    let mut state = entry.copy();
    let ghost start = relations@.to_set();
    let mut k: usize = 0;
    loop
        invariant_except_break
            state@ == run_block(*gk, entry@, b, k as nat),
            relations@.to_set() == start.union(block_rels::<T, R>(*gk, entry@, b, k as nat)),
        invariant
            gk.wf(),
            k <= nst,
            nst == body.body@[b as int].statements@.len(),
            state.wf(),
            relations@.no_duplicates(),
        ensures
            state@ == run_block(*gk, entry@, b, (nst + 1) as nat),
            relations@.to_set() == start.union(block_rels::<T, R>(*gk, entry@, b, (nst + 1) as nat)),
        decreases nst + 1 - k,
    {
        let loc = Location::new(b, k);
        let g = lookup(&gk.gen_map, &loc);
        let kl = lookup(&gk.kill_map, &loc);
        let ghost before = state@;
        let rel = apply_gen_kill(&mut state, g, kl, relation_builder);
        add_pairs(relations, &rel);
        proof {
            assert(opt_set(g) == set_at(gk.gen_map@, loc));
            assert(opt_set(kl) == set_at(gk.kill_map@, loc));
            assert(rel@.to_set() =~= rel_at::<T, R>(*gk, before, loc));
            assert(relations@.to_set() =~= start.union(block_rels::<T, R>(*gk, entry@, b, (k + 1) as nat)));
        }
        if k == nst {
            break;
        }
        k = k + 1;
    }
    state
}

/// Joins `state` into the entry of each successor of block `b`, queueing each
/// successor whose entry is new or grew.
fn propagate<T: DataflowEntity>(
    body: &ExprBody,
    b: BlockId,
    state: &LiveSet<T>,
    entries: &mut Vec<Option<LiveSet<T>>>,
    worklist: &mut std::collections::VecDeque<BlockId>,
    Ghost(u): Ghost<Set<T>>,
)
    requires
        body.wf(),
        b < body.body@.len(),
        state.wf(),
        old(entries)@.len() == body.body@.len(),
        entries_wf(old(entries)@),
        u.finite(),
        state@.subset_of(u),
        forall|x: int|
            0 <= x < old(entries)@.len() && (#[trigger] entry_views(old(entries)@)[x]) is Some
                ==> entry_views(old(entries)@)[x]->0.subset_of(u),
    ensures
        final(entries)@.len() == old(entries)@.len(),
        entries_wf(final(entries)@),
        joined_into_successors(*body, b as int, entry_views(old(entries)@), entry_views(final(entries)@), state@),
        forall|x: int|
            0 <= x < old(entries)@.len() && entry_views(final(entries)@)[x] != entry_views(old(entries)@)[x]
                ==> #[trigger] final(worklist)@.contains(x as BlockId),
        forall|x: BlockId| #[trigger] old(worklist)@.contains(x) ==> final(worklist)@.contains(x),
        forall|i: int|
            0 <= i < final(worklist)@.len() ==> old(worklist)@.contains(#[trigger] final(worklist)@[i]) || (
            final(worklist)@[i] < old(entries)@.len() && entry_views(final(entries)@)[final(worklist)@[i] as int] is Some),
        final(worklist)@.len() >= old(worklist)@.len(),
        potential(entry_views(final(entries)@), u) <= potential(entry_views(old(entries)@), u),
        final(worklist)@.len() > old(worklist)@.len() ==> potential(entry_views(final(entries)@), u) < potential(
            entry_views(old(entries)@),
            u,
        ),
{
    let ghost e1 = entry_views(entries@);
    let ghost w1 = worklist@;
    let nb_exec = entries.len();
    let ghost nb = entries@.len();
    let succs = terminator_successors(&body.body[b].terminator.kind);
    let ghost ss = successors(body.body@[b as int].terminator.kind);
    let mut j: usize = 0;
    while j < succs.len()
        invariant
            body.wf(),
            b < body.body@.len(),
            nb == body.body@.len(),
            nb == nb_exec,
            succs@ == ss,
            ss == successors(body.body@[b as int].terminator.kind),
            j <= succs@.len(),
            state.wf(),
            u.finite(),
            state@.subset_of(u),
            entries@.len() == nb,
            entries_wf(entries@),
            e1.len() == nb,
            forall|x: int|
                0 <= x < nb && (#[trigger] e1[x]) is Some ==> e1[x]->0.subset_of(u),
            forall|x: int|
                0 <= x < nb ==> #[trigger] entry_views(entries@)[x] == if ss.subrange(0, j as int).contains(x as BlockId) {
                    Some(opt_union(e1[x], state@))
                } else {
                    e1[x]
                },
            forall|x: int|
                0 <= x < nb && entry_views(entries@)[x] != e1[x] ==> #[trigger] worklist@.contains(x as BlockId),
            forall|x: BlockId| #[trigger] w1.contains(x) ==> worklist@.contains(x),
            forall|i: int|
                0 <= i < worklist@.len() ==> w1.contains(#[trigger] worklist@[i]) || (worklist@[i] < nb
                    && entry_views(entries@)[worklist@[i] as int] is Some),
            worklist@.len() >= w1.len(),
            potential(entry_views(entries@), u) <= potential(e1, u),
            worklist@.len() > w1.len() ==> potential(entry_views(entries@), u) < potential(e1, u),
        decreases succs@.len() - j,
    {
        let x = succs[j];
        proof {
            assert(ss[j as int] == x);
            assert(x < nb);
        }
        let ghost ev = entry_views(entries@);
        let ghost before_entries = entries@;
        let ghost old_x = ev[x as int];
        let mut slot: Option<LiveSet<T>> = None;
        entries.set_and_swap(x, &mut slot);
        let ghost mid = entries@;
        let mut push = true;
        let merged = match slot {
            Some(mut cur) => {
                assert(old_x == Some(cur@));
                let changed = cur.union(state);
                push = changed;
                cur
            },
            None => {
                assert(old_x is None);
                let mut cur = LiveSet::new();
                cur.union(state);
                assert(cur@ =~= state@);
                cur
            },
        };
        assert(merged@ == opt_union(old_x, state@));
        entries.set(x, Some(merged));
        if push {
            worklist.push_back(x);
        }
        proof {
            let ev2 = entry_views(entries@);
            let newset = opt_union(ev[x as int], state@);
            assert forall|y: int| 0 <= y < nb implies #[trigger] ev2[y] == ev.update(x as int, Some(newset))[y] by {
                if y != x {
                    assert(entries@[y] == before_entries[y]);
                }
            }
            assert(ev2 =~= ev.update(x as int, Some(newset)));
            assert(ss.subrange(0, j + 1) == ss.subrange(0, j as int).push(x));
            // the old entry of `x`, and the joined one, lie within `u`
            if ev[x as int] is Some {
                let cur = ev[x as int]->0;
                if ss.subrange(0, j as int).contains(x) {
                    assert(cur == opt_union(e1[x as int], state@));
                } else {
                    assert(cur == e1[x as int]->0);
                }
                assert(cur.subset_of(u));
            }
            assert(newset.subset_of(u));
            vstd::set_lib::lemma_len_subset(newset, u);
            lemma_potential_update(ev, x as int, Some(newset), u);
            if ev[x as int] is Some {
                let cur = ev[x as int]->0;
                vstd::set_lib::lemma_len_subset(cur, newset);
                if push {
                    assert(newset != cur) by {
                        assert(!state@.subset_of(cur));
                        if newset == cur {
                            assert(state@.subset_of(newset));
                        }
                    }
                    lemma_strict_subset_len(cur, newset);
                } else {
                    assert(newset =~= cur);
                }
            }
            assert forall|y: int| 0 <= y < nb implies #[trigger] ev2[y] == if ss.subrange(0, j + 1).contains(y as BlockId) {
                Some(opt_union(e1[y], state@))
            } else {
                e1[y]
            } by {
                if y == x {
                    if ss.subrange(0, j as int).contains(x) {
                        assert(opt_union(e1[y], state@).union(state@) =~= opt_union(e1[y], state@));
                    }
                    assert(ss.subrange(0, j + 1).contains(x)) by {
                        assert(ss.subrange(0, j + 1)[j as int] == x);
                    }
                } else {
                    assert((y as BlockId) as int == y);
                    assert(ss.subrange(0, j + 1).contains(y as BlockId) == ss.subrange(0, j as int).contains(y as BlockId));
                }
            }
            assert forall|i: int| 0 <= i < worklist@.len() implies w1.contains(#[trigger] worklist@[i]) || (worklist@[i] < nb
                && entry_views(entries@)[worklist@[i] as int] is Some) by {
                if worklist@[i] != x && !w1.contains(worklist@[i]) {
                    assert(ev2[worklist@[i] as int] == ev[worklist@[i] as int]);
                }
            }
            assert forall|y: int| 0 <= y < nb && entry_views(entries@)[y] != e1[y] implies #[trigger] worklist@.contains(y as BlockId) by {
                if y != x {
                    assert(ev2[y] == ev[y]);
                }
            }
            assert(entries_wf(entries@)) by {
                assert forall|y: int| 0 <= y < entries@.len() && (#[trigger] entries@[y]) is Some implies entries@[y]->0.wf() by {
                    if y != x {
                        assert(entries@[y] == mid[y]);
                    }
                }
            }
        }
        j = j + 1;
    }
    proof {
        assert(ss.subrange(0, ss.len() as int) =~= ss);
    }
}

/// Joining the exit of block `b` into its successors keeps the entries under every post-fixpoint.
proof fn lemma_propagate_below<T: DataflowEntity>(
    gk: GenKillMaps<T>,
    body: ExprBody,
    ctx: Set<T>,
    p: Seq<Option<Set<T>>>,
    e1: Seq<Option<Set<T>>>,
    e2: Seq<Option<Set<T>>>,
    b: int,
    s0: Set<T>,
)
    requires
        body.wf(),
        body.body@.len() <= usize::MAX,
        0 <= b < body.body@.len(),
        is_post_fixpoint(gk, body, ctx, p),
        e1.len() == body.body@.len(),
        below(e1, p),
        p[b] is Some,
        s0.subset_of(p[b]->0),
        joined_into_successors(body, b, e1, e2, block_out(gk, body, s0, b as BlockId)),
    ensures
        below(e2, p),
{
    assert(flows_into(gk, body, p, b));
    lemma_run_block_mono(gk, s0, p[b]->0, b as BlockId, nlocs(body, b));
    let ss = successors(body.body@[b].terminator.kind);
    assert forall|x: int| 0 <= x < e2.len() && (#[trigger] e2[x]) is Some implies p[x] is Some && e2[x]->0.subset_of(
        p[x]->0,
    ) by {
        assert((x as BlockId) as int == x);
        if ss.contains(x as BlockId) {
            let k = choose|k: int| 0 <= k < ss.len() && ss[k] == x as BlockId;
            assert(successors(body.body@[b].terminator.kind)[k] == x as BlockId);
            if e1[x] is Some {
                assert(e1[x]->0.subset_of(p[x]->0));
            }
        } else {
            assert(e2[x] == e1[x]);
        }
    }
}

/// Joining only adds: every entry grows, and the successors of `b` are reached.
proof fn lemma_joined_grows<T>(body: ExprBody, b: int, e1: Seq<Option<Set<T>>>, e2: Seq<Option<Set<T>>>, out: Set<T>)
    requires
        body.body@.len() <= usize::MAX,
        e1.len() == body.body@.len(),
        joined_into_successors(body, b, e1, e2, out),
    ensures
        below(e1, e2),
        forall|x: int| 0 <= x < e2.len() && (#[trigger] e2[x]) is Some ==> e1[x] is Some || out.subset_of(e2[x]->0),
        forall|x: int|
            0 <= x < e2.len() && (#[trigger] e2[x]) is Some && e1[x] is Some ==> e2[x]->0 == e1[x]->0 || e2[x]->0 == e1[
                x
            ]->0.union(out),
{
    assert forall|x: int| 0 <= x < e1.len() && (#[trigger] e1[x]) is Some implies e2[x] is Some && e1[x]->0.subset_of(
        e2[x]->0,
    ) by {
        assert(e2[x] == if successors(body.body@[b].terminator.kind).contains(x as BlockId) {
            Some(opt_union(e1[x], out))
        } else {
            e1[x]
        });
    }
    assert forall|x: int| 0 <= x < e2.len() && (#[trigger] e2[x]) is Some implies e1[x] is Some || out.subset_of(
        e2[x]->0,
    ) by {
        assert(e2[x] == if successors(body.body@[b].terminator.kind).contains(x as BlockId) {
            Some(opt_union(e1[x], out))
        } else {
            e1[x]
        });
    }
    assert forall|x: int| 0 <= x < e2.len() && (#[trigger] e2[x]) is Some && e1[x] is Some implies e2[x]->0 == e1[x]->0
        || e2[x]->0 == e1[x]->0.union(out) by {
        assert(e2[x] == if successors(body.body@[b].terminator.kind).contains(x as BlockId) {
            Some(opt_union(e1[x], out))
        } else {
            e1[x]
        });
    }
}

/// A finished block stays finished while the other entries, the callsite
/// states and the recorded relations only grow.
proof fn lemma_done_grows<T: DataflowEntity, R: RelationBuilder<T>>(
    gk: GenKillMaps<T>,
    body: ExprBody,
    e1: Seq<Option<Set<T>>>,
    e2: Seq<Option<Set<T>>>,
    c1: Seq<Option<LiveSet<T>>>,
    c2: Seq<Option<LiveSet<T>>>,
    r1: Set<(T, T)>,
    r2: Set<(T, T)>,
    x: int,
)
    requires
        body.wf(),
        e1.len() == body.body@.len(),
        e2.len() == e1.len(),
        0 <= x < e1.len(),
        block_done::<T, R>(gk, body, e1, c1, r1, x),
        below(e1, e2),
        e1[x] == e2[x],
        c1[x] == c2[x],
        r1.subset_of(r2),
    ensures
        block_done::<T, R>(gk, body, e2, c2, r2, x),
{
    if e2[x] is Some {
        let ss = successors(body.body@[x].terminator.kind);
        assert forall|k: int| 0 <= k < ss.len() implies e2[#[trigger] ss[k] as int] is Some && block_out(
            gk,
            body,
            e2[x]->0,
            x as BlockId,
        ).subset_of(e2[ss[k] as int]->0) by {
            assert(successors(body.body@[x].terminator.kind)[k] == ss[k]);
            assert(e1[ss[k] as int] is Some);
        }
    }
}

/// Runs the analysis of one body from `context` to its least fixpoint.
/// Returns the union of the states at its returns, the entry state of each
/// block, and the state after each block that calls a declared function.
fn run_body<T: DataflowEntity, R: RelationBuilder<T>, H: CallsiteHook<T>>(
    fun_id: FunDeclId,
    body: &ExprBody,
    gk: &GenKillMaps<T>,
    context: &LiveSet<T>,
    relations: &mut Vec<(T, T)>,
    relation_builder: &mut R,
    callsite_hook: &mut H,
) -> (r: (LiveSet<T>, Vec<Option<LiveSet<T>>>, Vec<Option<LiveSet<T>>>))
    requires
        body.wf(),
        gk.wf(),
        context.wf(),
        old(relations)@.no_duplicates(),
    ensures
        r.0.wf(),
        entries_wf(r.1@),
        is_least_fixpoint(*gk, *body, context@, entry_views(r.1@)),
        r.0@ == return_union(*body, entry_views(r.1@), body.body@.len() as int),
        r.0@.subset_of(context@.union(gen_union(gk.gen_map@))),
        callsites_exact(*gk, *body, entry_views(r.1@), r.2@),
        final(relations)@.no_duplicates(),
        old(relations)@.to_set().subset_of(final(relations)@.to_set()),
        rels_complete::<T, R>(*gk, *body, entry_views(r.1@), final(relations)@.to_set()),
        forall|p: (T, T)| #[trigger]
            final(relations)@.to_set().contains(p) ==> old(relations)@.to_set().contains(p) || (R::relates(p.0, p.1)
                && gen_union(gk.gen_map@).contains(p.1)),
{
    let nb = body.body.len();
    let ghost u = context@.union(gen_union(gk.gen_map@));
    proof {
        lemma_gen_union_finite(gk.gen_map@);
        vstd::seq_lib::seq_to_set_is_finite(context.0@);
    }
    let mut entries: Vec<Option<LiveSet<T>>> = Vec::new();
    let mut callsites: Vec<Option<LiveSet<T>>> = Vec::new();
    let mut i: usize = 0;
    while i < nb
        invariant
            i <= nb,
            entries@.len() == i,
            callsites@.len() == i,
            forall|k: int| 0 <= k < i ==> (#[trigger] entries@[k]) is None && callsites@[k] is None,
        decreases nb - i,
    {
        entries.push(None);
        callsites.push(None);
        i = i + 1;
    }
    assert forall|y: int| 0 <= y < callsites@.len() implies (#[trigger] callsites@[y]) is None by {
        assert(entries@[y] is None);
    }
    entries.set(0, Some(context.copy()));
    let mut worklist: std::collections::VecDeque<BlockId> = std::collections::VecDeque::new();
    worklist.push_back(0);
    let ghost start_rels = relations@.to_set();
    proof {
        let ev = entry_views(entries@);
        assert(ev[0] == Some(context@));
        assert forall|x: int| 0 < x < nb implies #[trigger] ev[x] is None by {
            assert(entries@[x] is None);
        }
        assert forall|p: Seq<Option<Set<T>>>| #[trigger] is_post_fixpoint(*gk, *body, context@, p) implies below(ev, p) by {
            assert forall|x: int| 0 <= x < ev.len() && (#[trigger] ev[x]) is Some implies p[x] is Some && ev[x]->0.subset_of(p[x]->0) by {
                if x > 0 {
                    assert(ev[x] is None);
                }
            }
        }
        assert forall|x: int| 0 <= x < nb implies worklist@.contains(x as BlockId) || #[trigger] block_done::<T, R>(
            *gk,
            *body,
            ev,
            callsites@,
            relations@.to_set(),
            x,
        ) by {
            if x == 0 {
                assert(worklist@[0] == 0);
            } else {
                assert(ev[x] is None);
            }
        }
        assert(entries_wf(entries@)) by {
            assert forall|y: int| 0 <= y < entries@.len() && (#[trigger] entries@[y]) is Some implies entries@[y]->0.wf() by {
                if y > 0 {
                    assert(entries@[y] is None);
                }
            }
        }
    }
    while worklist.len() > 0
        invariant
            body.wf(),
            gk.wf(),
            context.wf(),
            nb == body.body@.len(),
            u == context@.union(gen_union(gk.gen_map@)),
            u.finite(),
            entries@.len() == nb,
            entries_wf(entries@),
            entry_views(entries@)[0] is Some,
            context@.subset_of(entry_views(entries@)[0]->0),
            forall|x: int|
                0 <= x < nb && (#[trigger] entry_views(entries@)[x]) is Some ==> entry_views(entries@)[x]->0.subset_of(u),
            forall|p: Seq<Option<Set<T>>>| #[trigger]
                is_post_fixpoint(*gk, *body, context@, p) ==> below(entry_views(entries@), p),
            forall|i: int|
                0 <= i < worklist@.len() ==> (#[trigger] worklist@[i]) < nb && entry_views(entries@)[worklist@[i] as int] is Some,
            forall|x: int|
                0 <= x < nb ==> worklist@.contains(x as BlockId) || #[trigger] block_done::<T, R>(
                    *gk,
                    *body,
                    entry_views(entries@),
                    callsites@,
                    relations@.to_set(),
                    x,
                ),
            callsites_bounded(*gk, *body, entry_views(entries@), callsites@),
            relations@.no_duplicates(),
            start_rels.subset_of(relations@.to_set()),
            forall|p: (T, T)| #[trigger]
                relations@.to_set().contains(p) ==> start_rels.contains(p) || (R::relates(p.0, p.1) && gen_union(
                    gk.gen_map@,
                ).contains(p.1)),
        decreases potential(entry_views(entries@), u), worklist@.len(),
    {
        proof {
            lemma_potential_nonneg(entry_views(entries@), u);
        }
        let ghost wl_old = worklist@;
        let b = worklist.pop_front().unwrap();
        let ghost e0 = entry_views(entries@);
        let ghost c0 = callsites@;
        let ghost r0 = relations@.to_set();
        let ghost wl_rest = worklist@;
        let ghost p0 = potential(e0, u);
        proof {
            assert(b < nb);
            assert(e0[b as int] is Some);
        }
        let entry = match &entries[b] {
            Some(s) => s.copy(),
            None => LiveSet::new(),
        };
        let ghost s0 = entry@;
        assert(s0 == e0[b as int]->0);
        let state = transfer_block(body, gk, b, &entry, relations, relation_builder);
        let ghost out = state@;
        match &body.body[b].terminator.kind {
            TerminatorKind::Call { call, .. } => match &call.func {
                FnOperand::Fun(callee) => {
                    let mut slot: Option<LiveSet<T>> = None;
                    callsites.set_and_swap(b, &mut slot);
                    let ghost prev: Set<T> = if slot is Some {
                        slot->0@
                    } else {
                        Set::empty()
                    };
                    let merged = match slot {
                        Some(mut c) => {
                            c.union(&state);
                            c
                        },
                        None => {
                            let m = state.copy();
                            assert(m@ =~= prev.union(out));
                            m
                        },
                    };
                    assert(merged@ == prev.union(out));
                    assert(c0[b as int] is Some ==> prev == c0[b as int]->0@);
                    assert(c0[b as int] is None ==> prev == Set::<T>::empty());
                    callsites.set(b, Some(merged));
                    assert(callsites@ =~= c0.update(b as int, callsites@[b as int]));
                    callsite_hook.on_callsite(fun_id, *callee, Location::new(b, body.body[b].statements.len()), &state);
                },
                _ => {},
            },
            _ => {},
        }
        let ghost c1 = callsites@;
        proof {
            if called_fun(*body, b as int) is Some {
                assert(c1 == c0.update(b as int, c1[b as int]));
                assert(c1[b as int] is Some && c1[b as int]->0.wf());
                assert(c0[b as int] is Some ==> c1[b as int]->0@ == c0[b as int]->0@.union(out));
                assert(c0[b as int] is None ==> c1[b as int]->0@ == out);
            } else {
                assert(c1 == c0);
            }
            lemma_run_block_bound(*gk, s0, b, nlocs(*body, b as int), u);
            assert(out.subset_of(u));
            assert forall|x: int| 0 <= x < nb && (#[trigger] e0[x]) is Some implies e0[x]->0.subset_of(u) by {}
        }
        propagate(body, b, &state, &mut entries, &mut worklist, Ghost(u));
        proof {
            let e2 = entry_views(entries@);
            let r2 = relations@.to_set();
            lemma_joined_grows(*body, b as int, e0, e2, out);
            // every post-fixpoint still bounds the entries
            assert forall|p: Seq<Option<Set<T>>>| #[trigger] is_post_fixpoint(*gk, *body, context@, p) implies below(e2, p) by {
                assert(below(e0, p));
                assert(e0[b as int] is Some);
                lemma_propagate_below(*gk, *body, context@, p, e0, e2, b as int, s0);
            }
            // the entries stay within the universe
            assert forall|x: int| 0 <= x < nb && (#[trigger] e2[x]) is Some implies e2[x]->0.subset_of(u) by {
                if e0[x] is Some {
                    assert(e0[x]->0.subset_of(u));
                }
            }
            assert(e0[0] is Some);
            // relations
            assert forall|p: (T, T)| #[trigger] r2.contains(p) implies start_rels.contains(p) || (R::relates(p.0, p.1)
                && gen_union(gk.gen_map@).contains(p.1)) by {
                if !r0.contains(p) {
                    lemma_block_rels_sound::<T, R>(*gk, s0, b, nlocs(*body, b as int), p);
                }
            }
            // the queue holds reached blocks
            assert forall|i: int| 0 <= i < worklist@.len() implies (#[trigger] worklist@[i]) < nb && e2[worklist@[i] as int] is Some by {
                if wl_rest.contains(worklist@[i]) {
                    let k = choose|k: int| 0 <= k < wl_rest.len() && wl_rest[k] == worklist@[i];
                    assert(wl_rest[k] == wl_old[k + 1]);
                }
            }
            // the callsite states stay bounded
            assert forall|x: int| 0 <= x < nb && (#[trigger] c1[x]) is Some implies {
                &&& e2[x] is Some
                &&& called_fun(*body, x) is Some
                &&& c1[x]->0.wf()
                &&& c1[x]->0@.subset_of(block_out(*gk, *body, e2[x]->0, x as BlockId))
            } by {
                assert((x as BlockId) as int == x);
                if x == b && called_fun(*body, b as int) is Some {
                    assert(e2[x] is Some);
                    lemma_run_block_mono(*gk, s0, e2[x]->0, b, nlocs(*body, x));
                    if c0[x] is Some {
                        assert(c0[x]->0@.subset_of(block_out(*gk, *body, e0[x]->0, x as BlockId)));
                    }
                } else {
                    assert(c1[x] == c0[x]);
                    assert(e0[x] is Some);
                    lemma_run_block_mono(*gk, e0[x]->0, e2[x]->0, x as BlockId, nlocs(*body, x));
                }
            }
            // every block is finished or queued
            assert forall|x: int| 0 <= x < nb implies worklist@.contains(x as BlockId) || #[trigger] block_done::<T, R>(
                *gk,
                *body,
                e2,
                c1,
                r2,
                x,
            ) by {
                assert((x as BlockId) as int == x);
                if !worklist@.contains(x as BlockId) {
                    assert(e2[x] == e0[x]);
                    if x == b {
                        let ss = successors(body.body@[x].terminator.kind);
                        assert forall|k: int| 0 <= k < ss.len() implies e2[#[trigger] ss[k] as int] is Some && block_out(
                            *gk,
                            *body,
                            e2[x]->0,
                            x as BlockId,
                        ).subset_of(e2[ss[k] as int]->0) by {
                            assert(successors(body.body@[x].terminator.kind)[k] == ss[k]);
                            assert(ss.contains(ss[k]));
                            assert(ss[k] < nb);
                            assert(e2[ss[k] as int] == Some(opt_union(e0[ss[k] as int], out)));
                        }
                        assert(flows_into(*gk, *body, e2, x));
                    } else {
                        assert(!wl_rest.contains(x as BlockId));
                        assert(!wl_old.contains(x as BlockId)) by {
                            if wl_old.contains(x as BlockId) {
                                let k = choose|k: int| 0 <= k < wl_old.len() && wl_old[k] == x as BlockId;
                                assert(k != 0);
                                assert(wl_rest[k - 1] == wl_old[k]);
                            }
                        }
                        assert(block_done::<T, R>(*gk, *body, e0, c0, r0, x));
                        assert(c1[x] == c0[x]);
                        lemma_done_grows::<T, R>(*gk, *body, e0, e2, c0, c1, r0, r2, x);
                    }
                }
            }
            lemma_potential_nonneg(e2, u);
        }
    }
    proof {
        let e = entry_views(entries@);
        let rs = relations@.to_set();
        assert forall|x: int| 0 <= x < nb implies #[trigger] block_done::<T, R>(*gk, *body, e, callsites@, rs, x) by {
            assert(!worklist@.contains(x as BlockId));
        }
        assert(is_post_fixpoint(*gk, *body, context@, e)) by {
            assert forall|x: int| 0 <= x < e.len() implies #[trigger] flows_into(*gk, *body, e, x) by {
                assert(block_done::<T, R>(*gk, *body, e, callsites@, rs, x));
            }
        }
        assert(rels_complete::<T, R>(*gk, *body, e, rs)) by {
            assert forall|x: int| 0 <= x < e.len() && (#[trigger] e[x]) is Some implies block_rels::<T, R>(
                *gk,
                e[x]->0,
                x as BlockId,
                nlocs(*body, x),
            ).subset_of(rs) by {
                assert(block_done::<T, R>(*gk, *body, e, callsites@, rs, x));
            }
        }
        assert(callsites_exact(*gk, *body, e, callsites@)) by {
            assert forall|x: int| 0 <= x < callsites@.len() implies {
                &&& ((#[trigger] callsites@[x]) is Some <==> (e[x] is Some && called_fun(*body, x) is Some))
                &&& (callsites@[x] is Some ==> callsites@[x]->0.wf() && callsites@[x]->0@ == block_out(
                    *gk,
                    *body,
                    e[x]->0,
                    x as BlockId,
                ))
            } by {
                assert(block_done::<T, R>(*gk, *body, e, callsites@, rs, x));
                if callsites@[x] is Some {
                    assert(callsites@[x]->0@ =~= block_out(*gk, *body, e[x]->0, x as BlockId));
                }
            }
        }
    }
    let mut exit = LiveSet::new();
    let mut bi: usize = 0;
    while bi < nb
        invariant
            bi <= nb,
            nb == body.body@.len(),
            entries@.len() == nb,
            entries_wf(entries@),
            exit.wf(),
            exit@ == return_union(*body, entry_views(entries@), bi as int),
            exit@.subset_of(u),
            forall|x: int|
                0 <= x < nb && (#[trigger] entry_views(entries@)[x]) is Some ==> entry_views(entries@)[x]->0.subset_of(u),
        decreases nb - bi,
    {
        match &body.body[bi].terminator.kind {
            TerminatorKind::Return => match &entries[bi] {
                Some(s) => {
                    exit.union(s);
                },
                None => {},
            },
            _ => {},
        }
        bi = bi + 1;
    }
    (exit, entries, callsites)
}

// ---------------------------------------------------------------------------
// The engine
// ---------------------------------------------------------------------------

/// The analysis of one function: its gen/kill maps and what the runs found.
#[derive(Debug)]
pub struct FunctionAnalysis<T: DataflowEntity> {
    pub gen_kill: GenKillMaps<T>,
    /// The live entities at the entry of each block, as the last run left
    /// them; `None` for a block that run did not reach.
    pub exit_states: Vec<Option<LiveSet<T>>>,
    /// The live entities after each block that calls a declared function,
    /// joined over all runs.
    pub callsite_states: Vec<Option<LiveSet<T>>>,
}

impl<T: DataflowEntity> FunctionAnalysis<T> {
    /// Every set held is free of repeats.
    pub open spec fn wf(&self) -> bool {
        &&& self.gen_kill.wf()
        &&& entries_wf(self.exit_states@)
        &&& entries_wf(self.callsite_states@)
    }
}

/// The gen/kill maps of an analysis, where there is one.
pub open spec fn gk_of<T: DataflowEntity>(a: Option<FunctionAnalysis<T>>) -> Option<GenKillMaps<T>> {
    match a {
        Some(x) => Some(x.gen_kill),
        None => None,
    }
}

/// The gen/kill maps of every function.
pub open spec fn gks<T: DataflowEntity>(a: Seq<Option<FunctionAnalysis<T>>>) -> Seq<Option<GenKillMaps<T>>> {
    Seq::new(a.len(), |i: int| gk_of(a[i]))
}

/// Every entity that some function generates.
pub open spec fn all_gens<T: DataflowEntity>(g: Seq<Option<GenKillMaps<T>>>) -> Set<T>
    decreases g.len(),
{
    if g.len() == 0 {
        Set::empty()
    } else {
        all_gens(g.drop_last()).union(
            match g.last() {
                Some(gk) => gen_union(gk.gen_map@),
                None => Set::empty(),
            },
        )
    }
}

proof fn lemma_all_gens<T: DataflowEntity>(g: Seq<Option<GenKillMaps<T>>>, f: int)
    requires
        0 <= f < g.len(),
        g[f] is Some,
    ensures
        gen_union(g[f]->0.gen_map@).subset_of(all_gens(g)),
    decreases g.len(),
{
    if f < g.len() - 1 {
        lemma_all_gens(g.drop_last(), f);
        assert(g.drop_last()[f] == g[f]);
    }
}

proof fn lemma_all_gens_finite<T: DataflowEntity>(g: Seq<Option<GenKillMaps<T>>>)
    ensures
        all_gens(g).finite(),
    decreases g.len(),
{
    broadcast use vstd::set_lib::lemma_set_union_finite_iff;

    if g.len() > 0 {
        lemma_all_gens_finite(g.drop_last());
        if g.last() is Some {
            lemma_gen_union_finite(g.last()->0.gen_map@);
        }
    }
}

/// Function `f` has gen or kill entries.
pub open spec fn has_entities<T: DataflowEntity>(g: Seq<Option<GenKillMaps<T>>>, f: int) -> bool {
    0 <= f < g.len() && g[f] is Some && (g[f]->0.gen_map@.len() > 0 || g[f]->0.kill_map@.len() > 0)
}

/// What function `f`, entered with `ctx`, hands back: the states at its
/// returns where it has a body and an analysis, and nothing otherwise.
pub open spec fn fun_exit<T: DataflowEntity>(
    krate: TranslatedCrate,
    g: Seq<Option<GenKillMaps<T>>>,
    f: int,
    ctx: Set<T>,
) -> Set<T> {
    match krate.body_of(f) {
        Some(body) => if 0 <= f < g.len() && g[f] is Some {
            body_exit(g[f]->0, body, ctx)
        } else {
            Set::empty()
        },
        None => Set::empty(),
    }
}

/// What function `f` passes on to its callees from `ctx`: its exit where it
/// has entities or a live context, and its context otherwise.
pub open spec fn fun_out<T: DataflowEntity>(
    krate: TranslatedCrate,
    g: Seq<Option<GenKillMaps<T>>>,
    f: int,
    ctx: Set<T>,
) -> Set<T> {
    if has_entities(g, f) || ctx != Set::<T>::empty() {
        fun_exit(krate, g, f, ctx)
    } else {
        ctx
    }
}

/// Every pair of `rels` was there before, or relates a live entity to one
/// that some function generates.
pub open spec fn rels_sound<T: DataflowEntity, R: RelationBuilder<T>>(
    rels: Set<(T, T)>,
    before: Set<(T, T)>,
    g: Seq<Option<GenKillMaps<T>>>,
) -> bool {
    forall|p: (T, T)| #[trigger]
        rels.contains(p) ==> before.contains(p) || (R::relates(p.0, p.1) && all_gens(g).contains(p.1))
}

/// A generic inter-procedural gen/kill dataflow engine.
pub struct DataflowEngine<'a, T: DataflowEntity> {
    pub crate_data: &'a TranslatedCrate,
    pub callgraph: &'a CallGraph,
    /// The analysis of each function, by its identifier.
    pub analyses: Vec<Option<FunctionAnalysis<T>>>,
    /// The live entities at the entry of each function, by its identifier.
    pub contexts: Vec<LiveSet<T>>,
    /// The relations found, each once.
    pub relations: Vec<(T, T)>,
}

impl<'a, T: DataflowEntity> DataflowEngine<'a, T> {
    /// The crate that the engine analyses.
    pub open spec fn krate(&self) -> TranslatedCrate {
        *self.crate_data
    }

    /// The call graph that the engine follows.
    pub open spec fn graph(&self) -> CallGraph {
        *self.callgraph
    }

    /// The analysis slot of each function.
    pub open spec fn analysis_seq(&self) -> Seq<Option<FunctionAnalysis<T>>> {
        self.analyses@
    }

    /// The entry context of each function.
    pub open spec fn context_seq(&self) -> Seq<LiveSet<T>> {
        self.contexts@
    }

    /// The relations found, in the order found.
    pub open spec fn relation_seq(&self) -> Seq<(T, T)> {
        self.relations@
    }

    /// The number of functions of the crate.
    pub open spec fn num_funs(&self) -> nat {
        self.krate().fun_decls@.len()
    }

    /// The crate is well formed, the graph's edges join functions of the
    /// crate, there is one analysis slot per function, and every set held is
    /// free of repeats.
    pub open spec fn wf(&self) -> bool {
        &&& self.krate().wf()
        &&& self.graph().wf()
        &&& forall|e: (FunDeclId, FunDeclId)| #[trigger]
            self.graph().edge_set().contains(e) ==> e.0 < self.num_funs() && e.1 < self.num_funs()
        &&& self.analysis_seq().len() == self.num_funs()
        &&& forall|f: int| 0 <= f < self.analysis_seq().len() && (#[trigger] self.analysis_seq()[f]) is Some ==> self.analysis_seq()[f]->0.wf()
        &&& forall|f: int| 0 <= f < self.context_seq().len() ==> (#[trigger] self.context_seq()[f]).wf()
        &&& self.relation_seq().no_duplicates()
    }

    /// The contexts as sets.
    pub open spec fn ctx_views(&self) -> Seq<Set<T>> {
        Seq::new(self.context_seq().len(), |i: int| self.context_seq()[i]@)
    }

    /// The relations as a set.
    pub open spec fn rel_set(&self) -> Set<(T, T)> {
        self.relation_seq().to_set()
    }

    /// Every call edge carries the caller's output into the callee's context.
    pub open spec fn contexts_closed(&self) -> bool {
        &&& self.context_seq().len() == self.num_funs()
        &&& forall|e: (FunDeclId, FunDeclId)| #[trigger]
            self.graph().edge_set().contains(e) ==> fun_out(
                self.krate(),
                gks(self.analysis_seq()),
                e.0 as int,
                self.context_seq()[e.0 as int]@,
            ).subset_of(self.context_seq()[e.1 as int]@)
    }

    /// The last run of function `f` reached its least fixpoint from `ctx`, and
    /// its relations and callsite states are recorded.
    pub open spec fn fun_settled<R: RelationBuilder<T>>(&self, f: int, ctx: Set<T>) -> bool {
        match self.krate().body_of(f) {
            Some(body) => match self.analysis_seq()[f] {
                Some(a) => {
                    &&& is_least_fixpoint(a.gen_kill, body, ctx, entry_views(a.exit_states@))
                    &&& rels_complete::<T, R>(a.gen_kill, body, entry_views(a.exit_states@), self.rel_set())
                    &&& a.callsite_states@.len() == body.body@.len()
                    &&& forall|b: int|
                        0 <= b < body.body@.len() && #[trigger] entry_views(a.exit_states@)[b] is Some
                            && called_fun(body, b) is Some ==> a.callsite_states@[b] is Some && block_out(
                            a.gen_kill,
                            body,
                            entry_views(a.exit_states@)[b]->0,
                            b as BlockId,
                        ).subset_of(a.callsite_states@[b]->0@)
                },
                None => true,
            },
            None => true,
        }
    }

    /// An engine over `crate_data` and `callgraph`, with no analysis yet.
    pub fn new(crate_data: &'a TranslatedCrate, callgraph: &'a CallGraph) -> (r: Self)
        requires
            crate_data.wf(),
            callgraph.wf(),
            forall|e: (FunDeclId, FunDeclId)| #[trigger]
                callgraph.edge_set().contains(e) ==> e.0 < crate_data.fun_decls@.len() && e.1 < crate_data.fun_decls@.len(),
        ensures
            r.wf(),
            r.krate() == *crate_data,
            r.graph() == *callgraph,
            forall|f: int| 0 <= f < r.analysis_seq().len() ==> (#[trigger] r.analysis_seq()[f]) is None,
            r.context_seq().len() == 0,
            r.relation_seq().len() == 0,
    {
        let n = crate_data.fun_decls.len();
        let mut analyses: Vec<Option<FunctionAnalysis<T>>> = Vec::new();
        let mut i: usize = 0;
        while i < n
            invariant
                i <= n,
                analyses@.len() == i,
                forall|f: int| 0 <= f < i ==> (#[trigger] analyses@[f]) is None,
            decreases n - i,
        {
            analyses.push(None);
            i = i + 1;
        }
        DataflowEngine { crate_data, callgraph, analyses, contexts: Vec::new(), relations: Vec::new() }
    }

    /// Registers the gen/kill maps of function `fun_id`, dropping what an
    /// earlier run found for it; an identifier outside the crate is ignored.
    pub fn add_function_gen_kill(&mut self, fun_id: FunDeclId, gen_kill: GenKillMaps<T>)
        requires
            old(self).wf(),
            gen_kill.wf(),
        ensures
            final(self).wf(),
            final(self).krate() == old(self).krate(),
            final(self).graph() == old(self).graph(),
            final(self).context_seq() == old(self).context_seq(),
            final(self).relation_seq() == old(self).relation_seq(),
            final(self).analysis_seq().len() == old(self).analysis_seq().len(),
            forall|f: int|
                0 <= f < old(self).analysis_seq().len() && f != fun_id ==> #[trigger] final(self).analysis_seq()[f]
                    == old(self).analysis_seq()[f],
            fun_id < old(self).num_funs() ==> {
                &&& final(self).analysis_seq()[fun_id as int] is Some
                &&& final(self).analysis_seq()[fun_id as int]->0.gen_kill == gen_kill
                &&& final(self).analysis_seq()[fun_id as int]->0.exit_states@.len() == 0
                &&& final(self).analysis_seq()[fun_id as int]->0.callsite_states@.len() == 0
            },
    {
        if fun_id < self.analyses.len() {
            let a = FunctionAnalysis { gen_kill, exit_states: Vec::new(), callsite_states: Vec::new() };
            proof {
                assert(entries_wf(a.exit_states@));
                assert(entries_wf(a.callsite_states@));
            }
            let ghost before = self.analyses@;
            self.analyses.set(fun_id, Some(a));
            assert forall|f: int| 0 <= f < self.analyses@.len() && (#[trigger] self.analyses@[f]) is Some implies self.analyses@[f]->0.wf() by {
                if f != fun_id {
                    assert(self.analyses@[f] == before[f]);
                }
            }
        }
        assert(self.contexts == old(self).contexts);
        assert(self.context_seq() == old(self).context_seq());
    }
}

/// Joins each callsite state of `new` into `acc`; where their lengths differ, `acc` becomes `new`.
fn merge_callsites<T: DataflowEntity>(acc: &mut Vec<Option<LiveSet<T>>>, new: Vec<Option<LiveSet<T>>>)
    requires
        entries_wf(old(acc)@),
        entries_wf(new@),
    ensures
        entries_wf(final(acc)@),
        final(acc)@.len() == new@.len(),
        forall|b: int|
            0 <= b < new@.len() && (#[trigger] new@[b]) is Some ==> final(acc)@[b] is Some && new@[b]->0@.subset_of(
                final(acc)@[b]->0@,
            ),
{
    if acc.len() != new.len() {
        *acc = new;
        return;
    }
    let n = new.len();
    let mut b: usize = 0;
    while b < n
        invariant
            b <= n,
            n == new@.len(),
            acc@.len() == n,
            entries_wf(acc@),
            entries_wf(new@),
            forall|k: int|
                0 <= k < b && (#[trigger] new@[k]) is Some ==> acc@[k] is Some && new@[k]->0@.subset_of(acc@[k]->0@),
        decreases n - b,
    {
        match &new[b] {
            Some(ns) => {
                let ghost before = acc@;
                let mut slot: Option<LiveSet<T>> = None;
                acc.set_and_swap(b, &mut slot);
                let merged = match slot {
                    Some(mut cur) => {
                        cur.union(ns);
                        cur
                    },
                    None => ns.copy(),
                };
                assert(ns@.subset_of(merged@));
                acc.set(b, Some(merged));
                proof {
                    assert forall|k: int| 0 <= k < acc@.len() && (#[trigger] acc@[k]) is Some implies acc@[k]->0.wf() by {
                        if k != b {
                            assert(acc@[k] == before[k]);
                        }
                    }
                    assert forall|k: int|
                        0 <= k < b + 1 && (#[trigger] new@[k]) is Some implies acc@[k] is Some && new@[k]->0@.subset_of(
                            acc@[k]->0@,
                        ) by {
                        if k != b {
                            assert(acc@[k] == before[k]);
                        }
                    }
                }
            },
            None => {},
        }
        b = b + 1;
    }
}

impl<'a, T: DataflowEntity> DataflowEngine<'a, T> {
    /// Runs function `fun_id` from `context` to its least fixpoint, records
    /// what it found in its analysis, and returns its exit state: the union of
    /// the states at its returns, or nothing where it has no body or no analysis.
    fn compute_function_state<R: RelationBuilder<T>, H: CallsiteHook<T>>(
        &mut self,
        fun_id: FunDeclId,
        context: &LiveSet<T>,
        relation_builder: &mut R,
        callsite_hook: &mut H,
    ) -> (r: LiveSet<T>)
        requires
            old(self).wf(),
            context.wf(),
        ensures
            final(self).wf(),
            final(self).krate() == old(self).krate(),
            final(self).graph() == old(self).graph(),
            final(self).context_seq() == old(self).context_seq(),
            gks(final(self).analysis_seq()) == gks(old(self).analysis_seq()),
            final(self).analysis_seq().len() == old(self).analysis_seq().len(),
            forall|f: int|
                0 <= f < old(self).analysis_seq().len() && f != fun_id ==> #[trigger] final(self).analysis_seq()[f]
                    == old(self).analysis_seq()[f],
            r.wf(),
            r@ == fun_exit(old(self).krate(), gks(old(self).analysis_seq()), fun_id as int, context@),
            r@.subset_of(context@.union(all_gens(gks(old(self).analysis_seq())))),
            old(self).rel_set().subset_of(final(self).rel_set()),
            rels_sound::<T, R>(final(self).rel_set(), old(self).rel_set(), gks(old(self).analysis_seq())),
            final(self).fun_settled::<R>(fun_id as int, context@),
    {
        let ghost g0 = gks(self.analyses@);
        let krate: &'a TranslatedCrate = self.crate_data;
        if fun_id >= krate.fun_decls.len() {
            let r = LiveSet::new();
            assert(r@.subset_of(context@.union(all_gens(g0))));
            return r;
        }
        let body = match &krate.fun_decls[fun_id] {
            Some(decl) => match &decl.body {
                Some(b) => b,
                None => {
                    let r = LiveSet::new();
                    assert(r@.subset_of(context@.union(all_gens(g0))));
                    return r;
                },
            },
            None => {
                let r = LiveSet::new();
                assert(r@.subset_of(context@.union(all_gens(g0))));
                return r;
            },
        };
        assert(krate.body_of(fun_id as int) == Some(*body));
        assert(krate.fun_decls@[fun_id as int] is Some);
        assert(body.wf());
        let ghost before = self.analyses@;
        let mut slot: Option<FunctionAnalysis<T>> = None;
        self.analyses.set_and_swap(fun_id, &mut slot);
        match slot {
            None => {
                assert(self.analyses@ =~= before);
                assert(self.contexts == old(self).contexts);
                assert(self.context_seq() == old(self).context_seq());
                let r = LiveSet::new();
                assert(r@.subset_of(context@.union(all_gens(g0))));
                assert(g0[fun_id as int] is None);
                r
            },
            Some(mut a) => {
                assert(before[fun_id as int] == Some(a));
                assert(a.wf());
                let ghost rels0 = self.relations@.to_set();
                let (exit, entries, calls) = run_body(
                    fun_id,
                    body,
                    &a.gen_kill,
                    context,
                    &mut self.relations,
                    relation_builder,
                    callsite_hook,
                );
                let ghost gk = a.gen_kill;
                a.exit_states = entries;
                proof {
                    assert(entries_wf(calls@)) by {
                        assert forall|b: int| 0 <= b < calls@.len() && (#[trigger] calls@[b]) is Some implies calls@[b]->0.wf() by {
                        }
                    }
                }
                let ghost calls_v = calls@;
                merge_callsites(&mut a.callsite_states, calls);
                self.analyses.set(fun_id, Some(a));
                proof {
                    assert(g0[fun_id as int] == Some(gk));
                    lemma_least_is_chosen(gk, *body, context@, entry_views(a.exit_states@));
                    lemma_all_gens(g0, fun_id as int);
                    assert(gks(self.analyses@) =~= g0) by {
                        assert forall|f: int| 0 <= f < g0.len() implies #[trigger] gks(self.analyses@)[f] == g0[f] by {
                            if f != fun_id {
                                assert(self.analyses@[f] == before[f]);
                            }
                        }
                    }
                    assert forall|f: int| 0 <= f < self.analyses@.len() && (#[trigger] self.analyses@[f]) is Some implies self.analyses@[f]->0.wf() by {
                        if f != fun_id {
                            assert(self.analyses@[f] == before[f]);
                        }
                    }
                    assert(self.contexts == old(self).contexts);
                    assert(self.context_seq() == old(self).context_seq());
                    assert forall|p: (T, T)| #[trigger] self.relations@.to_set().contains(p) implies rels0.contains(p) || (
                    R::relates(p.0, p.1) && all_gens(g0).contains(p.1)) by {}
                    assert forall|b: int|
                        0 <= b < body.body@.len() && #[trigger] entry_views(a.exit_states@)[b] is Some && called_fun(*body, b) is Some
                            implies a.callsite_states@[b] is Some && block_out(
                            gk,
                            *body,
                            entry_views(a.exit_states@)[b]->0,
                            b as BlockId,
                        ).subset_of(a.callsite_states@[b]->0@) by {
                        assert(calls_v[b] is Some);
                    }
                }
                exit
            },
        }
    }
}

/// A function that stayed settled: its analysis did not change and the relations only grew.
proof fn lemma_settled_keep<'a, T: DataflowEntity, R: RelationBuilder<T>>(
    e1: DataflowEngine<'a, T>,
    e2: DataflowEngine<'a, T>,
    f: int,
    c: Set<T>,
)
    requires
        e1.fun_settled::<R>(f, c),
        e1.krate() == e2.krate(),
        0 <= f < e1.analysis_seq().len(),
        e2.analysis_seq().len() == e1.analysis_seq().len(),
        e2.analysis_seq()[f] == e1.analysis_seq()[f],
        e1.rel_set().subset_of(e2.rel_set()),
    ensures
        e2.fun_settled::<R>(f, c),
{
    match e1.krate().body_of(f) {
        Some(body) => match e1.analysis_seq()[f] {
            Some(a) => {
                let e = entry_views(a.exit_states@);
                assert forall|b: int| 0 <= b < e.len() && (#[trigger] e[b]) is Some implies block_rels::<T, R>(
                    a.gen_kill,
                    e[b]->0,
                    b as BlockId,
                    nlocs(body, b),
                ).subset_of(e2.rel_set()) by {
                    assert(block_rels::<T, R>(a.gen_kill, e[b]->0, b as BlockId, nlocs(body, b)).subset_of(e1.rel_set()));
                }
            },
            None => {},
        },
        None => {},
    }
}

impl<'a, T: DataflowEntity> DataflowEngine<'a, T> {
    /// Every callee of `f` has at least what `f` passes on in its context.
    pub open spec fn ctx_done(&self, f: int) -> bool {
        forall|h: FunDeclId| #[trigger]
            self.graph().edge_set().contains((f as FunDeclId, h)) ==> fun_out(
                self.krate(),
                gks(self.analysis_seq()),
                f,
                self.context_seq()[f]@,
            ).subset_of(self.context_seq()[h as int]@)
    }

    /// Whether function `f` has gen or kill entries.
    fn body_has_entities(&self, f: FunDeclId) -> (r: bool)
        requires
            self.wf(),
            f < self.num_funs(),
        ensures
            r == has_entities(gks(self.analysis_seq()), f as int),
    {
        match &self.analyses[f] {
            Some(a) => a.gen_kill.gen_map.len() > 0 || a.gen_kill.kill_map.len() > 0,
            None => false,
        }
    }

    /// Propagates contexts along the call graph until every call edge carries
    /// the caller's output into the callee's context.
    fn interproc_propagation<R: RelationBuilder<T>, H: CallsiteHook<T>>(
        &mut self,
        relation_builder: &mut R,
        callsite_hook: &mut H,
    )
        requires
            old(self).wf(),
        ensures
            final(self).wf(),
            final(self).krate() == old(self).krate(),
            final(self).graph() == old(self).graph(),
            final(self).analysis_seq().len() == old(self).analysis_seq().len(),
            gks(final(self).analysis_seq()) == gks(old(self).analysis_seq()),
            final(self).contexts_closed(),
            old(self).rel_set().subset_of(final(self).rel_set()),
            rels_sound::<T, R>(final(self).rel_set(), old(self).rel_set(), gks(old(self).analysis_seq())),
    {
        let ghost g0 = gks(self.analyses@);
        let ghost ug = all_gens(g0);
        let ghost rels_start = self.relations@.to_set();
        let n = self.crate_data.fun_decls.len();
        let mut contexts: Vec<LiveSet<T>> = Vec::new();
        let mut worklist: std::collections::VecDeque<FunDeclId> = std::collections::VecDeque::new();
        let mut i: usize = 0;
        while i < n
            invariant
                i <= n,
                contexts@.len() == i,
                worklist@.len() == i,
                forall|k: int| 0 <= k < i ==> (#[trigger] contexts@[k]).wf() && contexts@[k]@ == Set::<T>::empty(),
                forall|k: int| 0 <= k < i ==> (#[trigger] worklist@[k]) == k,
            decreases n - i,
        {
            contexts.push(LiveSet::new());
            worklist.push_back(i);
            i = i + 1;
        }
        self.contexts = contexts;
        proof {
            lemma_all_gens_finite(g0);
            assert forall|f: int| 0 <= f < n implies #[trigger] worklist@.contains(f as FunDeclId) by {
                assert(worklist@[f] == f);
            }
        }
        while worklist.len() > 0
            invariant
                self.wf(),
                self.krate() == old(self).krate(),
                self.graph() == old(self).graph(),
                n == self.num_funs(),
                self.analysis_seq().len() == n,
                gks(self.analysis_seq()) == g0,
                g0 == gks(old(self).analysis_seq()),
                self.contexts@.len() == n,
                ug == all_gens(g0),
                ug.finite(),
                forall|f: int| 0 <= f < n ==> (#[trigger] self.contexts@[f])@.subset_of(ug),
                forall|k: int| 0 <= k < worklist@.len() ==> (#[trigger] worklist@[k]) < n,
                forall|f: int| 0 <= f < n ==> worklist@.contains(f as FunDeclId) || #[trigger] self.ctx_done(f),
                rels_start == old(self).rel_set(),
                rels_start.subset_of(self.rel_set()),
                rels_sound::<T, R>(self.rel_set(), rels_start, g0),
            decreases ctx_potential(self.ctx_views(), ug), worklist@.len(),
        {
            proof {
                lemma_ctx_potential_nonneg(self.ctx_views(), ug);
            }
            let ghost wl_old = worklist@;
            let f = worklist.pop_front().unwrap();
            let ghost wl_rest = worklist@;
            let ghost c0 = self.ctx_views();
            let ghost p0 = ctx_potential(c0, ug);
            let ghost e0 = *self;
            proof {
                assert(wl_old[0] == f);
                assert(f < n);
            }
            let context = self.contexts[f].copy();
            let active = self.body_has_entities(f) || !context.is_empty();
            let out = if active {
                self.compute_function_state(f, &context, relation_builder, callsite_hook)
            } else {
                context.copy()
            };
            proof {
                assert(self.context_seq() == e0.context_seq());
                assert(self.contexts@ == e0.contexts@);
                assert(self.ctx_views() =~= c0);
                assert(out@ == fun_out(self.krate(), g0, f as int, c0[f as int]));
                if active {
                    assert(out@.subset_of(c0[f as int].union(ug)));
                }
                assert(out@.subset_of(ug));
            }
            let ghost e1 = *self;
            let callees = self.callgraph.callees(f);
            let mut j: usize = 0;
            while j < callees.len()
                invariant
                    self.wf(),
                    self.krate() == e1.krate(),
                    self.graph() == e1.graph(),
                    self.analyses == e1.analyses,
                    self.relations == e1.relations,
                    n == self.num_funs(),
                    self.contexts@.len() == n,
                    j <= callees@.len(),
                    forall|x: FunDeclId| #[trigger] callees@.contains(x) <==> self.graph().edge_set().contains((f, x)),
                    out.wf(),
                    out@.subset_of(ug),
                    ug.finite(),
                    c0.len() == n,
                    forall|x: int| 0 <= x < n ==> (#[trigger] c0[x]).subset_of(ug),
                    forall|x: int| 0 <= x < n ==> #[trigger] c0[x].subset_of(self.ctx_views()[x]),
                    forall|x: int| 0 <= x < n ==> (#[trigger] self.contexts@[x])@.subset_of(ug),
                    forall|jj: int| 0 <= jj < j ==> out@.subset_of(self.ctx_views()[#[trigger] callees@[jj] as int]),
                    forall|x: int| 0 <= x < n && self.ctx_views()[x] != c0[x] ==> #[trigger] worklist@.contains(x as FunDeclId),
                    forall|x: FunDeclId| #[trigger] wl_rest.contains(x) ==> worklist@.contains(x),
                    forall|k: int| 0 <= k < worklist@.len() ==> (#[trigger] worklist@[k]) < n,
                    worklist@.len() >= wl_rest.len(),
                    ctx_potential(self.ctx_views(), ug) <= p0,
                    worklist@.len() > wl_rest.len() ==> ctx_potential(self.ctx_views(), ug) < p0,
                decreases callees@.len() - j,
            {
                let h = callees[j];
                proof {
                    assert(callees@.contains(h));
                    assert(h < n);
                }
                let ghost cv = self.ctx_views();
                let ghost ctxs = self.contexts@;
                let mut slot: LiveSet<T> = LiveSet::new();
                self.contexts.set_and_swap(h, &mut slot);
                assert(slot == ctxs[h as int]);
                let changed = slot.union(&out);
                let ghost newset = slot@;
                self.contexts.set(h, slot);
                if changed {
                    worklist.push_back(h);
                }
                proof {
                    let cv2 = self.ctx_views();
                    assert(cv2 =~= cv.update(h as int, newset)) by {
                        assert forall|x: int| 0 <= x < n implies #[trigger] cv2[x] == cv.update(h as int, newset)[x] by {
                            if x != h {
                                assert(self.contexts@[x] == ctxs[x]);
                            }
                        }
                    }
                    assert(cv[h as int].subset_of(ug));
                    assert(newset.subset_of(ug));
                    lemma_ctx_potential_update(cv, h as int, newset, ug);
                    vstd::set_lib::lemma_len_subset(cv[h as int], newset);
                    vstd::set_lib::lemma_len_subset(newset, ug);
                    if changed {
                        assert(newset != cv[h as int]) by {
                            if newset == cv[h as int] {
                                assert(out@.subset_of(newset));
                            }
                        }
                        lemma_strict_subset_len(cv[h as int], newset);
                    } else {
                        assert(newset =~= cv[h as int]);
                    }
                    assert forall|x: int| 0 <= x < self.contexts@.len() implies (#[trigger] self.contexts@[x]).wf() by {
                        if x != h {
                            assert(self.contexts@[x] == ctxs[x]);
                        }
                    }
                    assert forall|x: int| 0 <= x < n implies (#[trigger] self.contexts@[x])@.subset_of(ug) by {
                        if x != h {
                            assert(self.contexts@[x] == ctxs[x]);
                        }
                    }
                    assert forall|jj: int| 0 <= jj < j + 1 implies out@.subset_of(cv2[#[trigger] callees@[jj] as int]) by {
                        assert(callees@.contains(callees@[jj]));
                        assert(callees@[jj] < n);
                        if callees@[jj] != h {
                            assert(cv2[callees@[jj] as int] == cv[callees@[jj] as int]);
                        }
                    }
                    assert forall|x: int| 0 <= x < n && cv2[x] != c0[x] implies #[trigger] worklist@.contains(x as FunDeclId) by {
                        assert((x as FunDeclId) as int == x);
                        if x != h {
                            assert(cv2[x] == cv[x]);
                        }
                    }
                    assert forall|x: int| 0 <= x < n implies #[trigger] c0[x].subset_of(cv2[x]) by {
                        assert(c0[x].subset_of(cv[x]));
                        if x != h {
                            assert(cv2[x] == cv[x]);
                        }
                    }
                    assert(self.context_seq() == self.contexts@);
                    assert(self.analysis_seq() == e1.analysis_seq());
                }
                j = j + 1;
            }
            proof {
                let cv2 = self.ctx_views();
                assert(gks(self.analysis_seq()) == g0);
                assert forall|x: int| 0 <= x < n implies worklist@.contains(x as FunDeclId) || #[trigger] self.ctx_done(x) by {
                    assert((x as FunDeclId) as int == x);
                    if !worklist@.contains(x as FunDeclId) {
                        assert(cv2[x] == c0[x]);
                        assert forall|h: FunDeclId| #[trigger] self.graph().edge_set().contains((x as FunDeclId, h)) implies fun_out(
                            self.krate(),
                            gks(self.analysis_seq()),
                            x,
                            self.context_seq()[x]@,
                        ).subset_of(self.context_seq()[h as int]@) by {
                            assert(self.context_seq()[x]@ == cv2[x]);
                            assert(h < n);
                            assert(self.context_seq()[h as int]@ == cv2[h as int]);
                            if x == f {
                                assert(callees@.contains(h));
                                let jj = choose|jj: int| 0 <= jj < callees@.len() && callees@[jj] == h;
                                assert(out@.subset_of(cv2[callees@[jj] as int]));
                            } else {
                                assert(!wl_rest.contains(x as FunDeclId));
                                assert(!wl_old.contains(x as FunDeclId)) by {
                                    if wl_old.contains(x as FunDeclId) {
                                        let k = choose|k: int| 0 <= k < wl_old.len() && wl_old[k] == x as FunDeclId;
                                        assert(k != 0);
                                        assert(wl_rest[k - 1] == wl_old[k]);
                                    }
                                }
                                assert(e0.ctx_done(x));
                                assert(e0.graph().edge_set().contains((x as FunDeclId, h)));
                                assert(e0.context_seq()[x]@ == c0[x]);
                                assert(e0.context_seq()[h as int]@ == c0[h as int]);
                                assert(gks(e0.analysis_seq()) == g0);
                                assert(c0[h as int].subset_of(cv2[h as int]));
                            }
                        }
                    }
                }
                assert forall|k: int| 0 <= k < worklist@.len() implies (#[trigger] worklist@[k]) < n by {}
                lemma_ctx_potential_nonneg(cv2, ug);
            }
        }
        proof {
            assert forall|e: (FunDeclId, FunDeclId)| #[trigger] self.graph().edge_set().contains(e) implies fun_out(
                self.krate(),
                gks(self.analysis_seq()),
                e.0 as int,
                self.context_seq()[e.0 as int]@,
            ).subset_of(self.context_seq()[e.1 as int]@) by {
                assert(e.0 < n);
                assert(self.ctx_done(e.0 as int));
                assert((e.0 as int) as FunDeclId == e.0);
                assert(e == (e.0, e.1));
                assert(self.graph().edge_set().contains(((e.0 as int) as FunDeclId, e.1)));
            }
        }
    }
}

impl<'a, T: DataflowEntity> DataflowEngine<'a, T> {
    /// Runs every function of the crate once more from its final context, so
    /// that its entry states, callsite states and relations are those of its fixpoint.
    fn intraprocedural_analysis<R: RelationBuilder<T>, H: CallsiteHook<T>>(
        &mut self,
        relation_builder: &mut R,
        callsite_hook: &mut H,
    )
        requires
            old(self).wf(),
            old(self).context_seq().len() == old(self).num_funs(),
        ensures
            final(self).wf(),
            final(self).krate() == old(self).krate(),
            final(self).graph() == old(self).graph(),
            final(self).context_seq() == old(self).context_seq(),
            final(self).analysis_seq().len() == old(self).analysis_seq().len(),
            gks(final(self).analysis_seq()) == gks(old(self).analysis_seq()),
            old(self).rel_set().subset_of(final(self).rel_set()),
            rels_sound::<T, R>(final(self).rel_set(), old(self).rel_set(), gks(old(self).analysis_seq())),
            forall|f: int|
                0 <= f < final(self).num_funs() ==> #[trigger] final(self).fun_settled::<R>(f, final(self).context_seq()[f]@),
    {
        let ghost g0 = gks(self.analyses@);
        let ghost rels_start = self.relations@.to_set();
        let n = self.crate_data.fun_decls.len();
        let mut f: usize = 0;
        while f < n
            invariant
                f <= n,
                self.wf(),
                self.krate() == old(self).krate(),
                self.graph() == old(self).graph(),
                self.context_seq() == old(self).context_seq(),
                n == self.num_funs(),
                self.contexts@.len() == n,
                self.analysis_seq().len() == n,
                gks(self.analysis_seq()) == g0,
                g0 == gks(old(self).analysis_seq()),
                rels_start == old(self).rel_set(),
                rels_start.subset_of(self.rel_set()),
                rels_sound::<T, R>(self.rel_set(), rels_start, g0),
                forall|g: int| 0 <= g < f ==> #[trigger] self.fun_settled::<R>(g, self.context_seq()[g]@),
            decreases n - f,
        {
            let ghost prev = *self;
            let context = self.contexts[f].copy();
            self.compute_function_state(f, &context, relation_builder, callsite_hook);
            proof {
                assert forall|g: int| 0 <= g < f + 1 implies #[trigger] self.fun_settled::<R>(g, self.context_seq()[g]@) by {
                    if g < f {
                        assert(prev.fun_settled::<R>(g, prev.context_seq()[g]@));
                        lemma_settled_keep::<T, R>(prev, *self, g, self.context_seq()[g]@);
                    } else {
                        assert(context@ == self.context_seq()[g]@);
                    }
                }
                assert forall|p: (T, T)| #[trigger] self.rel_set().contains(p) implies rels_start.contains(p) || (R::relates(
                    p.0,
                    p.1,
                ) && all_gens(g0).contains(p.1)) by {
                    if prev.rel_set().contains(p) {
                    }
                }
            }
            f = f + 1;
        }
    }

    /// Runs the whole analysis: propagates contexts along the call graph to
    /// a fixpoint, then runs every function from its context.
    pub fn analyze<R: RelationBuilder<T>, H: CallsiteHook<T>>(&mut self, relation_builder: &mut R, callsite_hook: &mut H)
        requires
            old(self).wf(),
        ensures
            final(self).wf(),
            final(self).krate() == old(self).krate(),
            final(self).graph() == old(self).graph(),
            final(self).analysis_seq().len() == old(self).analysis_seq().len(),
            gks(final(self).analysis_seq()) == gks(old(self).analysis_seq()),
            final(self).contexts_closed(),
            forall|f: int|
                0 <= f < final(self).num_funs() ==> #[trigger] final(self).fun_settled::<R>(f, final(self).context_seq()[f]@),
            old(self).rel_set().subset_of(final(self).rel_set()),
            rels_sound::<T, R>(final(self).rel_set(), old(self).rel_set(), gks(old(self).analysis_seq())),
    {
        let ghost g0 = gks(self.analyses@);
        self.interproc_propagation(relation_builder, callsite_hook);
        let ghost mid = *self;
        self.intraprocedural_analysis(relation_builder, callsite_hook);
        proof {
            assert(mid.contexts_closed());
            assert forall|e: (FunDeclId, FunDeclId)| #[trigger] self.graph().edge_set().contains(e) implies fun_out(
                self.krate(),
                gks(self.analysis_seq()),
                e.0 as int,
                self.context_seq()[e.0 as int]@,
            ).subset_of(self.context_seq()[e.1 as int]@) by {
                assert(mid.graph().edge_set().contains(e));
            }
            assert forall|p: (T, T)| #[trigger] self.rel_set().contains(p) implies old(self).rel_set().contains(p) || (
            R::relates(p.0, p.1) && all_gens(g0).contains(p.1)) by {
                if mid.rel_set().contains(p) {
                }
            }
        }
    }

    /// Runs the whole analysis with builders that record nothing.
    pub fn analyze_no_hooks(&mut self)
        requires
            old(self).wf(),
        ensures
            final(self).wf(),
            final(self).krate() == old(self).krate(),
            final(self).graph() == old(self).graph(),
            final(self).analysis_seq().len() == old(self).analysis_seq().len(),
            gks(final(self).analysis_seq()) == gks(old(self).analysis_seq()),
            final(self).contexts_closed(),
            forall|f: int|
                0 <= f < final(self).num_funs() ==> #[trigger] final(self).fun_settled::<NoOpRelationBuilder>(
                    f,
                    final(self).context_seq()[f]@,
                ),
            final(self).rel_set() == old(self).rel_set(),
    {
        let mut rb = NoOpRelationBuilder;
        let mut ch = NoOpCallsiteHook;
        self.analyze(&mut rb, &mut ch);
        proof {
            assert forall|p: (T, T)| #[trigger] self.rel_set().contains(p) implies old(self).rel_set().contains(p) by {
                assert(!<NoOpRelationBuilder as RelationBuilder<T>>::relates(p.0, p.1));
            }
            assert(self.rel_set() =~= old(self).rel_set());
        }
    }
}

} // verus!
