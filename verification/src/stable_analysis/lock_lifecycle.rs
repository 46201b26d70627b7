//! Where each lock guard of a body is acquired, moved and released, and which blocks it guards.

use vstd::prelude::*;

use crate::seqs::{push_unique, vec_contains};
use crate::stable_analysis::lock_identity::instance_name;
use crate::stable_analysis::lock_types::{copy_instance, LockGuardId, LockGuardInfo, LockGuardTy, MirLocation};
use crate::stable_mir::mir::terminator::successors_spec;
use crate::stable_mir::mir::{BasicBlock, BasicBlockIdx, Body, Instance, Local, Operand, Rvalue, Statement, StatementKind, TerminatorKind};
use crate::stable_mir::ty::TyTable;

verus! {

broadcast use {vstd::seq_lib::lemma_seq_contains_after_push, vstd::seq::Seq::lemma_push_to_set_commute};

/// The statement index given to a block's terminator.
pub const TERMINATOR_INDEX: usize = 999;

/// The locals that hold guards, in a map from guards to what is known of them.
pub open spec fn guard_locals(guards: Seq<(LockGuardId, LockGuardInfo)>) -> Set<Local> {
    Set::new(|l: Local| exists|i: int| 0 <= i < guards.len() && (#[trigger] guards[i]).0.local == l)
}

/// A statement acquires guard `g`: it assigns `g` from another guard, or from anything but
/// a plain use of a value.
pub open spec fn stmt_gens(s: Statement, g: Local, guards: Set<Local>) -> bool {
    match s.kind {
        StatementKind::Assign(p, rv) => p.local == g && match rv {
            Rvalue::Use(op) => match op {
                Operand::Move(src) | Operand::Copy(src) => guards.contains(src.local),
                _ => false,
            },
            _ => true,
        },
        _ => false,
    }
}

/// A statement moves another guard into guard `g`.
pub open spec fn stmt_moves(s: Statement, g: Local, guards: Set<Local>) -> bool {
    match s.kind {
        StatementKind::Assign(p, rv) => p.local == g && match rv {
            Rvalue::Use(op) => match op {
                Operand::Move(src) | Operand::Copy(src) => guards.contains(src.local),
                _ => false,
            },
            _ => false,
        },
        _ => false,
    }
}

/// The locations among statements `stmts` of block `b` where `pred` holds, in order.
pub open spec fn stmt_locs(b: BasicBlockIdx, stmts: Seq<Statement>, pred: spec_fn(Statement) -> bool) -> Seq<MirLocation>
    decreases stmts.len(),
{
    if stmts.len() == 0 {
        Seq::empty()
    } else {
        let rest = stmt_locs(b, stmts.drop_last(), pred);
        if pred(stmts.last()) {
            rest.push(MirLocation { block: b, statement_index: (stmts.len() - 1) as usize })
        } else {
            rest
        }
    }
}

/// The locations in blocks `blocks` (the first blocks of a body) where guard `g` is
/// acquired (`kind` 0), moved into (`kind` 1) or released (`kind` 2), in order.
pub open spec fn event_locs(blocks: Seq<BasicBlock>, g: Local, guards: Set<Local>, kind: int) -> Seq<MirLocation>
    decreases blocks.len(),
{
    if blocks.len() == 0 {
        Seq::empty()
    } else {
        let b = (blocks.len() - 1) as usize;
        let bb = blocks.last();
        let stmts = if kind == 0 {
            stmt_locs(b, bb.statements@, |s: Statement| stmt_gens(s, g, guards))
        } else if kind == 1 {
            stmt_locs(b, bb.statements@, |s: Statement| stmt_moves(s, g, guards))
        } else {
            Seq::empty()
        };
        let term_hit = if kind == 0 {
            bb.terminator.kind matches TerminatorKind::Call { destination, .. } && destination.local == g
        } else if kind == 2 {
            bb.terminator.kind matches TerminatorKind::Drop { place, .. } && place.local == g
        } else {
            false
        };
        let here = if term_hit {
            stmts.push(MirLocation { block: b, statement_index: TERMINATOR_INDEX })
        } else {
            stmts
        };
        event_locs(blocks.drop_last(), g, guards, kind) + here
    }
}

/// Guard `j` is the first one held in its local.
pub open spec fn first_of_local(gs: Seq<(LockGuardId, LockGuardInfo)>, j: int) -> bool {
    forall|k: int| 0 <= k < j ==> (#[trigger] gs[k]).0.local != gs[j].0.local
}

/// `a` is `b` with `loc` added to the locations where `when` holds.
pub open spec fn adds_loc(a: Seq<MirLocation>, b: Seq<MirLocation>, loc: MirLocation, when: bool) -> bool {
    a == if when {
        b.push(loc)
    } else {
        b
    }
}

/// `cur` is `g0` with, for each guard that is the first held in its local,
/// the events of the first `b` blocks of `blocks` and of the first `k`
/// statements of block `b` recorded.
pub open spec fn recorded_through(
    g0: Seq<(LockGuardId, LockGuardInfo)>,
    cur: Seq<(LockGuardId, LockGuardInfo)>,
    blocks: Seq<BasicBlock>,
    b: int,
    k: int,
) -> bool {
    &&& cur.len() == g0.len()
    &&& forall|j: int|
        0 <= j < g0.len() ==> {
            let o = g0[j];
            let c = #[trigger] cur[j];
            let g = o.0.local;
            let gs = guard_locals(g0);
            let st = blocks[b].statements@.take(k);
            &&& c.0 == o.0
            &&& c.1.gen_locs@ == o.1.gen_locs@ + if first_of_local(g0, j) {
                event_locs(blocks.take(b), g, gs, 0) + stmt_locs(b as usize, st, |s: Statement| stmt_gens(s, g, gs))
            } else {
                Seq::empty()
            }
            &&& c.1.move_gen_locs@ == o.1.move_gen_locs@ + if first_of_local(g0, j) {
                event_locs(blocks.take(b), g, gs, 1) + stmt_locs(b as usize, st, |s: Statement| stmt_moves(s, g, gs))
            } else {
                Seq::empty()
            }
            &&& c.1.kill_locs@ == o.1.kill_locs@ + if first_of_local(g0, j) {
                event_locs(blocks.take(b), g, gs, 2)
            } else {
                Seq::empty()
            }
            &&& c.1.guarded_blocks@ == o.1.guarded_blocks@
        }
}

/// `cur` holds the guards of `g0` with the same acquisitions, moves and
/// releases, and with blocks added to those each guards: each added entry
/// names its block at statement 0, and each acquisition paired with a release
/// adds the acquisition's block.
pub open spec fn guarded_added(g0: Seq<(LockGuardId, LockGuardInfo)>, cur: Seq<(LockGuardId, LockGuardInfo)>) -> bool {
    &&& cur.len() == g0.len()
    &&& forall|j: int|
        0 <= j < g0.len() ==> {
            let o = g0[j];
            let c = #[trigger] cur[j];
            &&& c.0 == o.0
            &&& c.1.gen_locs@ == o.1.gen_locs@
            &&& c.1.move_gen_locs@ == o.1.move_gen_locs@
            &&& c.1.kill_locs@ == o.1.kill_locs@
            &&& o.1.guarded_blocks@.len() <= c.1.guarded_blocks@.len()
            &&& forall|x: int| 0 <= x < o.1.guarded_blocks@.len() ==> c.1.guarded_blocks@[x] == o.1.guarded_blocks@[x]
            &&& forall|x: int|
                o.1.guarded_blocks@.len() <= x < c.1.guarded_blocks@.len() ==> (#[trigger] c.1.guarded_blocks@[x]).1
                    == (MirLocation { block: c.1.guarded_blocks@[x].0, statement_index: 0 })
        }
}

/// Each acquisition of guard `o` paired with a release has its block among
/// the blocks that `c` adds.
pub open spec fn pairs_covered(o: (LockGuardId, LockGuardInfo), c: (LockGuardId, LockGuardInfo)) -> bool {
    forall|p: int| 0 <= p < pairs_from(gen_blocks(o.1), kill_blocks(o.1), 0, 0).len() ==> #[trigger] covered_at(o, c, p)
}

/// The block of the `p`-th paired acquisition of guard `o` is among the blocks that `c` adds.
pub open spec fn covered_at(o: (LockGuardId, LockGuardInfo), c: (LockGuardId, LockGuardInfo), p: int) -> bool {
    exists|x: int|
        o.1.guarded_blocks@.len() <= x < c.1.guarded_blocks@.len() && (#[trigger] c.1.guarded_blocks@[x]).0
            == pairs_from(gen_blocks(o.1), kill_blocks(o.1), 0, 0)[p].0
}

/// Guard lists with the same guards hold the same locals, with the same first guards.
proof fn lemma_same_guards(a: Seq<(LockGuardId, LockGuardInfo)>, c: Seq<(LockGuardId, LockGuardInfo)>)
    requires
        a.len() == c.len(),
        forall|j: int| 0 <= j < a.len() ==> (#[trigger] c[j]).0 == a[j].0,
    ensures
        guard_locals(a) == guard_locals(c),
        forall|j: int| 0 <= j < a.len() ==> first_of_local(a, j) == first_of_local(c, j),
{
    assert forall|l: Local| guard_locals(a).contains(l) == guard_locals(c).contains(l) by {
        if guard_locals(a).contains(l) {
            let i = choose|i: int| 0 <= i < a.len() && (#[trigger] a[i]).0.local == l;
            assert(c[i].0.local == l);
        }
        if guard_locals(c).contains(l) {
            let i = choose|i: int| 0 <= i < c.len() && (#[trigger] c[i]).0.local == l;
            assert(a[i].0.local == l);
        }
    }
    assert(guard_locals(a) =~= guard_locals(c));
    assert forall|j: int| 0 <= j < a.len() implies first_of_local(a, j) == first_of_local(c, j) by {
        assert forall|k: int| 0 <= k < j implies (a[k].0.local != a[j].0.local) == (c[k].0.local != c[j].0.local) by {
            assert(c[k].0 == a[k].0 && c[j].0 == a[j].0);
        }
    }
}

/// Tracks the guards of one body.
pub struct LockLifecycleCollector<'a> {
    instance: Instance,
    pub body: &'a Body,
    table: &'a TyTable,
    pub lockguards: Vec<(LockGuardId, LockGuardInfo)>,
    current_block: Option<BasicBlockIdx>,
    current_location: Option<MirLocation>,
}

impl<'a> LockLifecycleCollector<'a> {
    /// The instance whose body this collector tracks.
    pub closed spec fn instance_spec(&self) -> Instance {
        self.instance
    }

    /// The body this collector tracks.
    pub closed spec fn body_spec(&self) -> Body {
        *self.body
    }

    /// The guards found, with what is known of each.
    pub closed spec fn guards_spec(&self) -> Seq<(LockGuardId, LockGuardInfo)> {
        self.lockguards@
    }

    /// The table the collector reads types from.
    pub closed spec fn table_spec(&self) -> TyTable {
        *self.table
    }

    /// A collector for `body` of `instance` that has found nothing yet.
    pub fn new(instance: Instance, body: &'a Body, table: &'a TyTable) -> (r: Self)
        ensures
            r.instance_spec() == instance,
            r.body_spec() == *body,
            r.table_spec() == *table,
            r.guards_spec().len() == 0,
    {
        Self { instance, body, table, lockguards: Vec::new(), current_block: None, current_location: None }
    }

    /// The guards found, with what is known of each.
    pub fn guards(&self) -> (r: &Vec<(LockGuardId, LockGuardInfo)>)
        ensures
            r@ == self.guards_spec(),
    {
        &self.lockguards
    }

    /// Finds the guards of the body, where each is acquired, moved and released, and the
    /// blocks each guards.
    ///
    /// No local's type can be classified as a guard (see `LockGuardTy::from_ty`), so no
    /// guard is found.
    pub fn analyze(&mut self)
        ensures
            final(self).guards_spec().len() == old(self).guards_spec().len(),
            exists|mid: Seq<(LockGuardId, LockGuardInfo)>|
                #[trigger] recorded_through(
                    old(self).guards_spec(),
                    mid,
                    old(self).body_spec().blocks_spec(),
                    old(self).body_spec().blocks_spec().len() as int,
                    0,
                ) && guarded_added(mid, final(self).guards_spec()) && forall|j: int|
                    0 <= j < mid.len() ==> pairs_covered(mid[j], #[trigger] final(self).guards_spec()[j]),
    {
        self.collect_guard_locals();
        let body = self.body;
        self.visit_body(body);
        let ghost mid = self.lockguards@;
        self.compute_guarded_blocks();
        proof {
            assert(recorded_through(old(self).guards_spec(), mid, old(self).body_spec().blocks_spec(), old(self).body_spec().blocks_spec().len() as int, 0));
        }
    }

    /// Records a guard for each local of the body whose type is a lock guard.
    fn collect_guard_locals(&mut self)
        ensures
            final(self).lockguards@ == old(self).lockguards@,
            final(self).instance_spec() == old(self).instance_spec(),
            final(self).body == old(self).body,
            final(self).table_spec() == old(self).table_spec(),
    {
        let locals = self.body.locals();
        let mut k: usize = 0;
        while k < locals.len()
            invariant
                k <= locals@.len(),
                self.lockguards@ == old(self).lockguards@,
                self.instance_spec() == old(self).instance_spec(),
                self.body == old(self).body,
                self.table_spec() == old(self).table_spec(),
            decreases locals@.len() - k,
        {
            let ty = locals[k].ty;
            if let Some(lockguard_ty) = LockGuardTy::from_ty(&ty, self.table) {
                let func_name = self.table.def_text(self.instance.def);
                let info = LockGuardInfo::new(lockguard_ty, String::new(), func_name);
                let id = LockGuardId::new(copy_instance(&self.instance), k);
                self.lockguards.push((id, info));
            }
            k = k + 1;
        }
    }

    /// The position of the guard held in `local`, if it is one.
    fn find_guard(&self, local: Local) -> (r: Option<usize>)
        ensures
            match r {
                Some(i) => i < self.lockguards@.len() && self.lockguards@[i as int].0.local == local && forall|k: int|
                    0 <= k < i ==> (#[trigger] self.lockguards@[k]).0.local != local,
                None => !guard_locals(self.lockguards@).contains(local) && forall|k: int|
                    0 <= k < self.lockguards@.len() ==> (#[trigger] self.lockguards@[k]).0.local != local,
            },
    {
        let mut i: usize = 0;
        while i < self.lockguards.len()
            invariant
                i <= self.lockguards@.len(),
                forall|k: int| 0 <= k < i ==> (#[trigger] self.lockguards@[k]).0.local != local,
            decreases self.lockguards@.len() - i,
        {
            if self.lockguards[i].0.local == local {
                return Some(i);
            }
            i = i + 1;
        }
        None
    }

    /// Records, for each guard, where it is acquired, moved into and released: statements
    /// at their index in the block, terminators at `TERMINATOR_INDEX`.
    fn visit_body(&mut self, body: &Body)
        ensures
            final(self).lockguards@.len() == old(self).lockguards@.len(),
            final(self).instance_spec() == old(self).instance_spec(),
            final(self).body == old(self).body,
            final(self).table_spec() == old(self).table_spec(),
            recorded_through(old(self).lockguards@, final(self).lockguards@, body.blocks_spec(), body.blocks_spec().len() as int, 0),
    {
        let ghost g0 = self.lockguards@;
        let blocks = body.basic_blocks();
        let mut b: usize = 0;
        proof {
            assert(blocks@.take(0) =~= Seq::<BasicBlock>::empty());
            assert(recorded_through(g0, self.lockguards@, blocks@, 0, 0)) by {
                assert forall|j: int| 0 <= j < g0.len() implies {
                    &&& stmt_locs(0, blocks@[0].statements@.take(0), |s: Statement| stmt_gens(s, g0[j].0.local, guard_locals(g0))) =~= Seq::<MirLocation>::empty()
                    &&& stmt_locs(0, blocks@[0].statements@.take(0), |s: Statement| stmt_moves(s, g0[j].0.local, guard_locals(g0))) =~= Seq::<MirLocation>::empty()
                    &&& (#[trigger] self.lockguards@[j]).1.gen_locs@ =~= g0[j].1.gen_locs@ + Seq::<MirLocation>::empty()
                    &&& self.lockguards@[j].1.move_gen_locs@ =~= g0[j].1.move_gen_locs@ + Seq::<MirLocation>::empty()
                    &&& self.lockguards@[j].1.kill_locs@ =~= g0[j].1.kill_locs@ + Seq::<MirLocation>::empty()
                } by {}
            }
        }
        while b < blocks.len()
            invariant
                b <= blocks@.len(),
                blocks@ == body.blocks_spec(),
                self.lockguards@.len() == old(self).lockguards@.len(),
                self.instance_spec() == old(self).instance_spec(),
                self.body == old(self).body,
                self.table_spec() == old(self).table_spec(),
                g0 == old(self).lockguards@,
                recorded_through(g0, self.lockguards@, blocks@, b as int, 0),
            decreases blocks@.len() - b,
        {
            self.current_block = Some(b);
            let bb = &blocks[b];
            let mut k: usize = 0;
            while k < bb.statements.len()
                invariant
                    k <= bb.statements@.len(),
                    b < blocks@.len(),
                    *bb == blocks@[b as int],
                    self.lockguards@.len() == old(self).lockguards@.len(),
                    self.instance_spec() == old(self).instance_spec(),
                    self.body == old(self).body,
                    self.table_spec() == old(self).table_spec(),
                    g0 == old(self).lockguards@,
                    recorded_through(g0, self.lockguards@, blocks@, b as int, k as int),
                decreases bb.statements@.len() - k,
            {
                let ghost cur = self.lockguards@;
                self.current_location = Some(MirLocation::new(b, k));
                self.visit_statement(&bb.statements[k]);
                proof {
                    lemma_same_guards(g0, cur);
                    let st = bb.statements@;
                    assert(st.take(k + 1).drop_last() =~= st.take(k as int));
                    assert(st.take(k + 1).last() == st[k as int]);
                    assert forall|j: int| 0 <= j < g0.len() implies (#[trigger] self.lockguards@[j]).0 == g0[j].0 by {
                        assert(self.lockguards@[j].0 == cur[j].0);
                    }
                    assert(recorded_through(g0, self.lockguards@, blocks@, b as int, k + 1)) by {
                        assert forall|j: int| 0 <= j < g0.len() implies {
                            let o = g0[j];
                            let c = #[trigger] self.lockguards@[j];
                            let g = o.0.local;
                            let gs = guard_locals(g0);
                            let st2 = blocks@[b as int].statements@.take(k + 1);
                            &&& c.1.gen_locs@ == o.1.gen_locs@ + if first_of_local(g0, j) {
                                event_locs(blocks@.take(b as int), g, gs, 0) + stmt_locs(b, st2, |s: Statement| stmt_gens(s, g, gs))
                            } else {
                                Seq::empty()
                            }
                            &&& c.1.move_gen_locs@ == o.1.move_gen_locs@ + if first_of_local(g0, j) {
                                event_locs(blocks@.take(b as int), g, gs, 1) + stmt_locs(b, st2, |s: Statement| stmt_moves(s, g, gs))
                            } else {
                                Seq::empty()
                            }
                        } by {
                            let g = g0[j].0.local;
                            let gs = guard_locals(g0);
                            assert(cur[j].0 == g0[j].0);
                            let c = self.lockguards@[j];
                            let pc = cur[j];
                            if first_of_local(g0, j) {
                                assert(c.1.gen_locs@ =~= g0[j].1.gen_locs@ + (event_locs(blocks@.take(b as int), g, gs, 0) + stmt_locs(b, st.take(k + 1), |s: Statement| stmt_gens(s, g, gs))));
                                assert(c.1.move_gen_locs@ =~= g0[j].1.move_gen_locs@ + (event_locs(blocks@.take(b as int), g, gs, 1) + stmt_locs(b, st.take(k + 1), |s: Statement| stmt_moves(s, g, gs))));
                            } else {
                                assert(pc.1.gen_locs@ =~= g0[j].1.gen_locs@ + Seq::<MirLocation>::empty());
                            }
                        }
                    }
                }
                k = k + 1;
            }
            let ghost cur = self.lockguards@;
            self.current_location = Some(MirLocation::new(b, TERMINATOR_INDEX));
            self.visit_terminator(&bb.terminator.kind);
            proof {
                lemma_same_guards(g0, cur);
                let st = bb.statements@;
                assert(st.take(st.len() as int) =~= st);
                assert(blocks@.take(b + 1).drop_last() =~= blocks@.take(b as int));
                assert(blocks@.take(b + 1).last() == blocks@[b as int]);
                assert forall|j: int| 0 <= j < g0.len() implies (#[trigger] self.lockguards@[j]).0 == g0[j].0 by {
                    assert(self.lockguards@[j].0 == cur[j].0);
                }
                assert(recorded_through(g0, self.lockguards@, blocks@, b + 1, 0)) by {
                    assert forall|j: int| 0 <= j < g0.len() implies {
                        let o = g0[j];
                        let c = #[trigger] self.lockguards@[j];
                        let g = o.0.local;
                        let gs = guard_locals(g0);
                        &&& c.1.gen_locs@ == o.1.gen_locs@ + if first_of_local(g0, j) {
                            event_locs(blocks@.take(b + 1), g, gs, 0) + stmt_locs((b + 1) as usize, blocks@[b + 1].statements@.take(0), |s: Statement| stmt_gens(s, g, gs))
                        } else {
                            Seq::empty()
                        }
                        &&& c.1.move_gen_locs@ == o.1.move_gen_locs@ + if first_of_local(g0, j) {
                            event_locs(blocks@.take(b + 1), g, gs, 1) + stmt_locs((b + 1) as usize, blocks@[b + 1].statements@.take(0), |s: Statement| stmt_moves(s, g, gs))
                        } else {
                            Seq::empty()
                        }
                        &&& c.1.kill_locs@ == o.1.kill_locs@ + if first_of_local(g0, j) {
                            event_locs(blocks@.take(b + 1), g, gs, 2)
                        } else {
                            Seq::empty()
                        }
                    } by {
                        let g = g0[j].0.local;
                        let gs = guard_locals(g0);
                        let c = self.lockguards@[j];
                        let pc = cur[j];
                        let bb2 = blocks@[b as int];
                        let p0 = |s: Statement| stmt_gens(s, g, gs);
                        let p1 = |s: Statement| stmt_moves(s, g, gs);
                        assert(stmt_locs((b + 1) as usize, blocks@[b + 1].statements@.take(0), p0) =~= Seq::<MirLocation>::empty());
                        assert(stmt_locs((b + 1) as usize, blocks@[b + 1].statements@.take(0), p1) =~= Seq::<MirLocation>::empty());
                        if first_of_local(g0, j) {
                            assert(c.1.gen_locs@ =~= g0[j].1.gen_locs@ + event_locs(blocks@.take(b + 1), g, gs, 0));
                            assert(c.1.move_gen_locs@ =~= g0[j].1.move_gen_locs@ + event_locs(blocks@.take(b + 1), g, gs, 1));
                            assert(c.1.kill_locs@ =~= g0[j].1.kill_locs@ + event_locs(blocks@.take(b + 1), g, gs, 2));
                        } else {
                            assert(c.1.gen_locs@ =~= g0[j].1.gen_locs@ + Seq::<MirLocation>::empty());
                        }
                    }
                }
            }
            self.current_block = None;
            self.current_location = None;
            b = b + 1;
        }
    }

    /// Records a release or an acquisition by a terminator.
    fn visit_terminator(&mut self, kind: &TerminatorKind)
        ensures
            final(self).lockguards@.len() == old(self).lockguards@.len(),
            final(self).instance_spec() == old(self).instance_spec(),
            final(self).body == old(self).body,
            final(self).table_spec() == old(self).table_spec(),
            forall|i: int| 0 <= i < final(self).lockguards@.len() ==> (#[trigger] final(self).lockguards@[i]).0
                == old(self).lockguards@[i].0,
            forall|j: int|
                0 <= j < old(self).lockguards@.len() ==> {
                    let o = old(self).lockguards@[j];
                    let f = #[trigger] final(self).lockguards@[j];
                    let loc = match old(self).current_location {
                        Some(l) => l,
                        None => MirLocation { block: 0, statement_index: 0 },
                    };
                    let first = first_of_local(old(self).lockguards@, j);
                    &&& adds_loc(f.1.gen_locs@, o.1.gen_locs@, loc,
                        first && (*kind matches TerminatorKind::Call { destination, .. } && destination.local == o.0.local))
                    &&& adds_loc(f.1.kill_locs@, o.1.kill_locs@, loc,
                        first && (*kind matches TerminatorKind::Drop { place, .. } && place.local == o.0.local))
                    &&& f.1.move_gen_locs@ == o.1.move_gen_locs@
                    &&& f.1.guarded_blocks@ == o.1.guarded_blocks@
                },
    {
        let ghost g0 = self.lockguards@;
        let mir_loc = match self.current_location {
            Some(l) => l,
            None => MirLocation::new(0, 0),
        };
        match kind {
            TerminatorKind::Call { destination, .. } => {
                if let Some(i) = self.find_guard(destination.local) {
                    let (id, mut info) = self.lockguards.remove(i);
                    let ghost info0 = info;
                    info.gen_locs.push(mir_loc);
                    let ghost e = (id, info);
                    self.lockguards.insert(i, (id, info));
                    proof {
                        assert(self.lockguards@ =~= g0.update(i as int, e));
                        assert(info0 == g0[i as int].1);
                        assert forall|j: int| 0 <= j < g0.len() && j != i implies !first_of_local(g0, j)
                            || g0[j].0.local != destination.local by {
                            if j > i && first_of_local(g0, j) && g0[j].0.local == destination.local {
                                assert(g0[i as int].0.local != g0[j].0.local);
                            }
                        }
                        assert(first_of_local(g0, i as int));
                    }
                }
            },
            TerminatorKind::Drop { place, .. } => {
                if let Some(i) = self.find_guard(place.local) {
                    let (id, mut info) = self.lockguards.remove(i);
                    let ghost info0 = info;
                    info.kill_locs.push(mir_loc);
                    let ghost e = (id, info);
                    self.lockguards.insert(i, (id, info));
                    proof {
                        assert(self.lockguards@ =~= g0.update(i as int, e));
                        assert(info0 == g0[i as int].1);
                        assert forall|j: int| 0 <= j < g0.len() && j != i implies !first_of_local(g0, j)
                            || g0[j].0.local != place.local by {
                            if j > i && first_of_local(g0, j) && g0[j].0.local == place.local {
                                assert(g0[i as int].0.local != g0[j].0.local);
                            }
                        }
                        assert(first_of_local(g0, i as int));
                    }
                }
            },
            _ => {},
        }
    }

    /// Records an acquisition or a move by an assignment to a guard.
    fn visit_statement(&mut self, statement: &Statement)
        ensures
            final(self).lockguards@.len() == old(self).lockguards@.len(),
            final(self).instance_spec() == old(self).instance_spec(),
            final(self).body == old(self).body,
            final(self).table_spec() == old(self).table_spec(),
            forall|i: int| 0 <= i < final(self).lockguards@.len() ==> (#[trigger] final(self).lockguards@[i]).0
                == old(self).lockguards@[i].0,
            forall|j: int|
                0 <= j < old(self).lockguards@.len() ==> {
                    let o = old(self).lockguards@[j];
                    let f = #[trigger] final(self).lockguards@[j];
                    let loc = match old(self).current_location {
                        Some(l) => l,
                        None => MirLocation { block: 0, statement_index: 0 },
                    };
                    let first = first_of_local(old(self).lockguards@, j);
                    let gs = guard_locals(old(self).lockguards@);
                    &&& adds_loc(f.1.gen_locs@, o.1.gen_locs@, loc, first && stmt_gens(*statement, o.0.local, gs))
                    &&& adds_loc(f.1.move_gen_locs@, o.1.move_gen_locs@, loc, first && stmt_moves(*statement, o.0.local, gs))
                    &&& f.1.kill_locs@ == o.1.kill_locs@
                    &&& f.1.guarded_blocks@ == o.1.guarded_blocks@
                },
    {
        let ghost g0 = self.lockguards@;
        let mir_loc = match self.current_location {
            Some(l) => l,
            None => MirLocation::new(0, 0),
        };
        if let StatementKind::Assign(place, rvalue) = &statement.kind {
            if let Some(i) = self.find_guard(place.local) {
                proof {
                    assert forall|j: int| 0 <= j < g0.len() && j != i implies !first_of_local(g0, j)
                        || g0[j].0.local != place.local by {
                        if j > i && first_of_local(g0, j) && g0[j].0.local == place.local {
                            assert(g0[i as int].0.local != g0[j].0.local);
                        }
                    }
                    assert(first_of_local(g0, i as int));
                }
                match rvalue {
                    Rvalue::Use(operand) => {
                        let src = match operand {
                            Operand::Move(source) | Operand::Copy(source) => Some(source.local),
                            _ => None,
                        };
                        if let Some(s) = src {
                            if self.find_guard(s).is_some() {
                                let (id, mut info) = self.lockguards.remove(i);
                                let ghost info0 = info;
                                info.gen_locs.push(mir_loc);
                                info.move_gen_locs.push(mir_loc);
                                let ghost e = (id, info);
                                self.lockguards.insert(i, (id, info));
                                proof {
                                    assert(self.lockguards@ =~= g0.update(i as int, e));
                                    assert(info0 == g0[i as int].1);
                                    assert(guard_locals(g0).contains(s)) by {
                                        let k = choose|k: int| 0 <= k < g0.len() && g0[k].0.local == s;
                                        assert(g0[k].0.local == s);
                                    }
                                }
                            } else {
                                proof {
                                    assert(!guard_locals(g0).contains(s));
                                }
                            }
                        }
                    },
                    _ => {
                        let (id, mut info) = self.lockguards.remove(i);
                        let ghost info0 = info;
                        info.gen_locs.push(mir_loc);
                        let ghost e = (id, info);
                        self.lockguards.insert(i, (id, info));
                        proof {
                            assert(self.lockguards@ =~= g0.update(i as int, e));
                            assert(info0 == g0[i as int].1);
                        }
                    },
                }
            }
        }
    }

    /// Records, for each guard, the blocks it guards: from each acquisition to the first
    /// release in the same or a later block.
    fn compute_guarded_blocks(&mut self)
        ensures
            final(self).lockguards@.len() == old(self).lockguards@.len(),
            guarded_added(old(self).lockguards@, final(self).lockguards@),
            forall|j: int| 0 <= j < old(self).lockguards@.len() ==> pairs_covered(old(self).lockguards@[j], #[trigger] final(self).lockguards@[j]),
            final(self).instance_spec() == old(self).instance_spec(),
            final(self).body == old(self).body,
            final(self).table_spec() == old(self).table_spec(),
    {
        let ghost g0 = self.lockguards@;
        let mut g: usize = 0;
        while g < self.lockguards.len()
            invariant
                g <= self.lockguards@.len(),
                self.lockguards@.len() == old(self).lockguards@.len(),
                g0 == old(self).lockguards@,
                self.instance_spec() == old(self).instance_spec(),
                self.body == old(self).body,
                self.table_spec() == old(self).table_spec(),
                guarded_added(g0, self.lockguards@),
                forall|j: int| g <= j < g0.len() ==> (#[trigger] self.lockguards@[j]).1.guarded_blocks@ == g0[j].1.guarded_blocks@,
                forall|j: int| 0 <= j < g ==> pairs_covered(g0[j], #[trigger] self.lockguards@[j]),
            decreases self.lockguards@.len() - g,
        {
            let pairs = gen_kill_pairs(&self.lockguards[g].1);
            let ghost ps = pairs@;
            proof {
                assert(self.lockguards@[g as int].1.gen_locs@ == g0[g as int].1.gen_locs@);
                assert(gen_blocks(self.lockguards@[g as int].1) =~= gen_blocks(g0[g as int].1));
                assert(kill_blocks(self.lockguards@[g as int].1) =~= kill_blocks(g0[g as int].1));
            }
            let mut p: usize = 0;
            while p < pairs.len()
                invariant
                    g < self.lockguards@.len(),
                    p <= pairs@.len(),
                    ps == pairs@,
                    ps == pairs_from(gen_blocks(g0[g as int].1), kill_blocks(g0[g as int].1), 0, 0),
                    self.lockguards@.len() == old(self).lockguards@.len(),
                    g0 == old(self).lockguards@,
                    self.instance_spec() == old(self).instance_spec(),
                    self.body == old(self).body,
                    self.table_spec() == old(self).table_spec(),
                    guarded_added(g0, self.lockguards@),
                    forall|j: int| g < j < g0.len() ==> (#[trigger] self.lockguards@[j]).1.guarded_blocks@ == g0[j].1.guarded_blocks@,
                    forall|j: int| 0 <= j < g ==> pairs_covered(g0[j], #[trigger] self.lockguards@[j]),
                    forall|q: int| 0 <= q < p ==> #[trigger] covered_at(g0[g as int], self.lockguards@[g as int], q),
                decreases pairs@.len() - p,
            {
                let (start, end) = pairs[p];
                let blocks = self.guarded_from(start, end);
                let ghost lg = self.lockguards@;
                let (id, mut info) = self.lockguards.remove(g);
                let ghost gb0 = info.guarded_blocks@;
                let mut q: usize = 0;
                while q < blocks.len()
                    invariant
                        q <= blocks@.len(),
                        info.guarded_blocks@.len() == gb0.len() + q,
                        forall|x: int| 0 <= x < gb0.len() ==> info.guarded_blocks@[x] == gb0[x],
                        forall|x: int| 0 <= x < q ==> (#[trigger] info.guarded_blocks@[gb0.len() + x]) == (blocks@[x], MirLocation { block: blocks@[x], statement_index: 0 }),
                        info.gen_locs@ == lg[g as int].1.gen_locs@,
                        info.move_gen_locs@ == lg[g as int].1.move_gen_locs@,
                        info.kill_locs@ == lg[g as int].1.kill_locs@,
                    decreases blocks@.len() - q,
                {
                    let ghost gq = info.guarded_blocks@;
                    info.guarded_blocks.push((blocks[q], MirLocation::new(blocks[q], 0)));
                    proof {
                        assert forall|x: int| 0 <= x < gb0.len() implies info.guarded_blocks@[x] == gb0[x] by {
                            assert(info.guarded_blocks@[x] == gq[x]);
                        }
                        assert forall|x: int| 0 <= x < q + 1 implies (#[trigger] info.guarded_blocks@[gb0.len() + x]) == (blocks@[x], MirLocation { block: blocks@[x], statement_index: 0 }) by {
                            if x < q {
                                assert(info.guarded_blocks@[gb0.len() + x] == gq[gb0.len() + x]);
                            }
                        }
                    }
                    q = q + 1;
                }
                let ghost e = (id, info);
                self.lockguards.insert(g, (id, info));
                proof {
                    assert(self.lockguards@ =~= lg.update(g as int, e));
                    assert(blocks@[0] == start);
                    assert(info.guarded_blocks@[gb0.len() + 0int].0 == start);
                    assert(ps[p as int].0 == start);
                    let c = self.lockguards@[g as int];
                    assert(c.1.guarded_blocks@ == info.guarded_blocks@);
                    assert forall|q2: int| 0 <= q2 < p + 1 implies #[trigger] covered_at(g0[g as int], self.lockguards@[g as int], q2) by {
                        if q2 < p {
                            assert(covered_at(g0[g as int], lg[g as int], q2));
                            let x = choose|x: int|
                                g0[g as int].1.guarded_blocks@.len() <= x < lg[g as int].1.guarded_blocks@.len()
                                    && (#[trigger] lg[g as int].1.guarded_blocks@[x]).0 == pairs_from(gen_blocks(g0[g as int].1), kill_blocks(g0[g as int].1), 0, 0)[q2].0;
                            assert(self.lockguards@[g as int].1.guarded_blocks@[x] == lg[g as int].1.guarded_blocks@[x]);
                        } else {
                            assert(self.lockguards@[g as int].1.guarded_blocks@[gb0.len() as int].0 == ps[q2].0);
                        }
                    }
                    assert(guarded_added(g0, self.lockguards@)) by {
                        assert forall|j: int| 0 <= j < g0.len() implies {
                            let o = g0[j];
                            let c = #[trigger] self.lockguards@[j];
                            &&& c.0 == o.0
                            &&& c.1.gen_locs@ == o.1.gen_locs@
                            &&& c.1.move_gen_locs@ == o.1.move_gen_locs@
                            &&& c.1.kill_locs@ == o.1.kill_locs@
                            &&& o.1.guarded_blocks@.len() <= c.1.guarded_blocks@.len()
                            &&& forall|x: int| 0 <= x < o.1.guarded_blocks@.len() ==> c.1.guarded_blocks@[x] == o.1.guarded_blocks@[x]
                            &&& forall|x: int|
                                o.1.guarded_blocks@.len() <= x < c.1.guarded_blocks@.len() ==> (#[trigger] c.1.guarded_blocks@[x]).1
                                    == (MirLocation { block: c.1.guarded_blocks@[x].0, statement_index: 0 })
                        } by {
                            if j == g {
                                let c = self.lockguards@[j];
                                let l = lg[j];
                                assert forall|x: int| 0 <= x < g0[j].1.guarded_blocks@.len() implies c.1.guarded_blocks@[x] == g0[j].1.guarded_blocks@[x] by {
                                    assert(c.1.guarded_blocks@[x] == gb0[x]);
                                    assert(gb0[x] == l.1.guarded_blocks@[x]);
                                }
                                assert forall|x: int|
                                    g0[j].1.guarded_blocks@.len() <= x < c.1.guarded_blocks@.len() implies (#[trigger] c.1.guarded_blocks@[x]).1
                                        == (MirLocation { block: c.1.guarded_blocks@[x].0, statement_index: 0 }) by {
                                    if x < gb0.len() {
                                        assert(c.1.guarded_blocks@[x] == l.1.guarded_blocks@[x]);
                                    } else {
                                        assert(c.1.guarded_blocks@[gb0.len() + (x - gb0.len())] == c.1.guarded_blocks@[x]);
                                    }
                                }
                            }
                        }
                    }
                }
                proof {
                    assert forall|j: int| 0 <= j < g implies pairs_covered(g0[j], #[trigger] self.lockguards@[j]) by {
                        assert(self.lockguards@[j] == lg[j]);
                    }
                    assert forall|j: int| g < j < g0.len() implies (#[trigger] self.lockguards@[j]).1.guarded_blocks@ == g0[j].1.guarded_blocks@ by {
                        assert(self.lockguards@[j] == lg[j]);
                    }
                }
                p = p + 1;
            }
            proof {
                assert(pairs_covered(g0[g as int], self.lockguards@[g as int]));
            }
            g = g + 1;
        }
    }

    /// The blocks reached from `start` by following successors, without going past `end`,
    /// in the order a depth-first walk visits them, each once.
    #[verifier::spinoff_prover]
    #[verifier::rlimit(100)]
    fn guarded_from(&self, start: BasicBlockIdx, end: BasicBlockIdx) -> (r: Vec<BasicBlockIdx>)
        ensures
            r@.no_duplicates(),
            r@.len() > 0,
            r@[0] == start,
            forall|k: int| 0 <= k < r@.len() ==> #[trigger] closed_at(self.body.blocks_spec(), end, r@, Seq::empty(), k),
            forall|k: int| 0 <= k < r@.len() ==> #[trigger] r@[k] == start || exists|j: int|
                0 <= j < k && r@[j] != end && r@[j] < self.body.blocks_spec().len() && successors_spec(
                    self.body.blocks_spec()[r@[j] as int].terminator.kind,
                ).contains(r@[k]),
    {
        let blocks = self.body.basic_blocks();
        let ghost targets = all_targets(blocks@).push(start);
        let mut worklist: Vec<BasicBlockIdx> = Vec::new();
        worklist.push(start);
        let mut visited: Vec<BasicBlockIdx> = Vec::new();
        while worklist.len() > 0
            invariant
                blocks@ == self.body.blocks_spec(),
                targets == all_targets(blocks@).push(start),
                visited@.no_duplicates(),
                forall|x: BasicBlockIdx| #[trigger] visited@.contains(x) ==> targets.contains(x),
                forall|k: int| 0 <= k < worklist@.len() ==> targets.contains(#[trigger] worklist@[k]),
                visited@.len() > 0 ==> visited@[0] == start,
                visited@.len() == 0 ==> worklist@ == seq![start],
                forall|k: int| 0 <= k < visited@.len() ==> #[trigger] closed_at(blocks@, end, visited@, worklist@, k),
                forall|k: int| 0 <= k < visited@.len() ==> #[trigger] visited@[k] == start || exists|j: int|
                    0 <= j < k && visited@[j] != end && visited@[j] < blocks@.len() && successors_spec(
                        blocks@[visited@[j] as int].terminator.kind,
                    ).contains(visited@[k]),
                forall|k: int| 0 <= k < worklist@.len() ==> #[trigger] worklist@[k] == start || exists|j: int|
                    0 <= j < visited@.len() && visited@[j] != end && visited@[j] < blocks@.len() && successors_spec(
                        blocks@[visited@[j] as int].terminator.kind,
                    ).contains(worklist@[k]),
            decreases targets.len() - visited@.len(), worklist@.len(),
        {
            let ghost wl_old = worklist@;
            let bb = worklist.pop().unwrap();
            proof {
                assert(bb == wl_old[wl_old.len() - 1]);
                assert(targets.contains(bb));
                assert forall|k: int| 0 <= k < worklist@.len() implies worklist@[k] == wl_old[k] by {}
            }
            proof {
                assert forall|t: BasicBlockIdx| wl_old.contains(t) implies worklist@.contains(t) || t == bb by {
                    let i = choose|i: int| 0 <= i < wl_old.len() && wl_old[i] == t;
                    if i < wl_old.len() - 1 {
                        assert(worklist@[i] == t);
                    }
                }
            }
            if vec_contains(&visited, bb) {
                proof {
                    assert forall|k: int| 0 <= k < visited@.len() implies #[trigger] closed_at(blocks@, end, visited@, worklist@, k) by {
                        assert(closed_at(blocks@, end, visited@, wl_old, k));
                    }
                }
                continue;
            }
            let ghost before = visited@;
            push_unique(&mut visited, bb);
            proof {
                assert forall|k: int| 0 <= k < visited@.len() - 1 implies #[trigger] closed_at(blocks@, end, visited@, worklist@, k) by {
                    assert(closed_at(blocks@, end, before, wl_old, k));
                    assert(visited@[k] == before[k]);
                    assert forall|t: BasicBlockIdx| before.contains(t) implies visited@.contains(t) by {
                        let i = choose|i: int| 0 <= i < before.len() && before[i] == t;
                        assert(visited@[i] == t);
                    }
                    assert(visited@[visited@.len() - 1] == bb);
                }
                assert forall|x: BasicBlockIdx| #[trigger] visited@.contains(x) implies targets.contains(x) by {
                    if x != bb {
                        assert(before.contains(x));
                    }
                }
                assert forall|k: int| 0 <= k < worklist@.len() implies #[trigger] worklist@[k] == start || exists|j: int|
                    0 <= j < visited@.len() && visited@[j] != end && visited@[j] < blocks@.len() && successors_spec(
                        blocks@[visited@[j] as int].terminator.kind,
                    ).contains(worklist@[k]) by {
                    assert(worklist@[k] == wl_old[k]);
                    if wl_old[k] != start {
                        let j = choose|j: int| 0 <= j < before.len() && before[j] != end && before[j] < blocks@.len() && successors_spec(
                            blocks@[before[j] as int].terminator.kind,
                        ).contains(wl_old[k]);
                        assert(visited@[j] == before[j]);
                    }
                }
                crate::seqs::lemma_nodup_subset_len(visited@, targets);
                assert forall|k: int| 0 <= k < visited@.len() implies #[trigger] visited@[k] == start || exists|j: int|
                    0 <= j < k && visited@[j] != end && visited@[j] < blocks@.len() && successors_spec(
                        blocks@[visited@[j] as int].terminator.kind,
                    ).contains(visited@[k]) by {
                    if k < before.len() {
                        assert(visited@[k] == before[k]);
                        if before[k] != start {
                            let j = choose|j: int| 0 <= j < k && before[j] != end && before[j] < blocks@.len() && successors_spec(
                                blocks@[before[j] as int].terminator.kind,
                            ).contains(before[k]);
                            assert(visited@[j] == before[j]);
                        }
                    } else if bb != start {
                        let j = choose|j: int| 0 <= j < before.len() && before[j] != end && before[j] < blocks@.len() && successors_spec(
                            blocks@[before[j] as int].terminator.kind,
                        ).contains(bb);
                        assert(visited@[j] == before[j]);
                    }
                }
            }
            if bb == end || bb >= blocks.len() {
                proof {
                    assert(closed_at(blocks@, end, visited@, worklist@, visited@.len() - 1));
                }
                continue;
            }
            let succs = blocks[bb].terminator.successors();
            let mut s: usize = 0;
            while s < succs.len()
                invariant
                    blocks@ == self.body.blocks_spec(),
                    targets == all_targets(blocks@).push(start),
                    bb < blocks@.len(),
                    bb != end,
                    visited@.len() > 0,
                    visited@.last() == bb,
                    succs@ == successors_spec(blocks@[bb as int].terminator.kind),
                    s <= succs@.len(),
                    forall|k: int| 0 <= k < visited@.len() - 1 ==> #[trigger] closed_at(blocks@, end, visited@, worklist@, k),
                    forall|j: int| 0 <= j < s ==> worklist@.contains(#[trigger] succs@[j]),
                    forall|k: int| 0 <= k < worklist@.len() ==> targets.contains(#[trigger] worklist@[k]),
                    forall|k: int| 0 <= k < worklist@.len() ==> #[trigger] worklist@[k] == start || exists|j: int|
                        0 <= j < visited@.len() && visited@[j] != end && visited@[j] < blocks@.len() && successors_spec(
                            blocks@[visited@[j] as int].terminator.kind,
                        ).contains(worklist@[k]),
                decreases succs@.len() - s,
            {
                let t = succs[s];
                proof {
                    lemma_target_in_all(blocks@, bb as int, t);
                    assert(succs@.contains(t));
                    assert(visited@[visited@.len() - 1] == bb);
                }
                let ghost wb = worklist@;
                worklist.push(t);
                proof {
                    assert forall|x: BasicBlockIdx| wb.contains(x) implies worklist@.contains(x) by {
                        let i = choose|i: int| 0 <= i < wb.len() && wb[i] == x;
                        assert(worklist@[i] == x);
                    }
                    assert(worklist@[wb.len() as int] == t);
                    assert forall|k: int| 0 <= k < visited@.len() - 1 implies #[trigger] closed_at(blocks@, end, visited@, worklist@, k) by {
                        assert(closed_at(blocks@, end, visited@, wb, k));
                    }
                }
                s = s + 1;
            }
            proof {
                let k = visited@.len() - 1;
                assert forall|t: BasicBlockIdx| #[trigger] successors_spec(blocks@[visited@[k] as int].terminator.kind).contains(t) implies visited@.contains(t) || worklist@.contains(t) by {
                    let j = choose|j: int| 0 <= j < succs@.len() && succs@[j] == t;
                    assert(worklist@.contains(succs@[j]));
                }
                assert(closed_at(blocks@, end, visited@, worklist@, k));
            }
        }
        proof {
            assert(worklist@ =~= Seq::<BasicBlockIdx>::empty());
        }
        visited
    }
}

/// The `k`-th visited block, unless it is `end` or no block, has each of its
/// successors visited or waiting.
pub open spec fn closed_at(blocks: Seq<BasicBlock>, end: BasicBlockIdx, visited: Seq<BasicBlockIdx>, waiting: Seq<BasicBlockIdx>, k: int) -> bool {
    visited[k] != end && visited[k] < blocks.len() ==> forall|t: BasicBlockIdx|
        #[trigger] successors_spec(blocks[visited[k] as int].terminator.kind).contains(t) ==> visited.contains(t)
            || waiting.contains(t)
}

/// Every block that some terminator of `blocks` may go to.
pub open spec fn all_targets(blocks: Seq<BasicBlock>) -> Seq<BasicBlockIdx>
    decreases blocks.len(),
{
    if blocks.len() == 0 {
        Seq::empty()
    } else {
        all_targets(blocks.drop_last()) + successors_spec(blocks.last().terminator.kind)
    }
}

proof fn lemma_target_in_all(blocks: Seq<BasicBlock>, b: int, t: BasicBlockIdx)
    requires
        0 <= b < blocks.len(),
        successors_spec(blocks[b].terminator.kind).contains(t),
    ensures
        all_targets(blocks).contains(t),
    decreases blocks.len(),
{
    let rest = all_targets(blocks.drop_last());
    let here = successors_spec(blocks.last().terminator.kind);
    if b == blocks.len() - 1 {
        let k = choose|k: int| 0 <= k < here.len() && here[k] == t;
        assert((rest + here)[rest.len() + k] == t);
    } else {
        lemma_target_in_all(blocks.drop_last(), b, t);
        let k = choose|k: int| 0 <= k < rest.len() && rest[k] == t;
        assert((rest + here)[k] == t);
    }
}

/// The first release at or after position `nk` whose block is not before `b`;
/// the number of releases where there is none.
pub open spec fn next_kill_from(kills: Seq<BasicBlockIdx>, nk: int, b: BasicBlockIdx) -> int
    decreases kills.len() - nk,
{
    if 0 <= nk < kills.len() && kills[nk] < b {
        next_kill_from(kills, nk + 1, b)
    } else {
        nk
    }
}

/// The pairs from the acquisition at position `g` on, the releases before
/// position `nk` having been passed: each acquisition with the first release
/// not yet passed in its block or later, where there is one.
pub open spec fn pairs_from(gens: Seq<BasicBlockIdx>, kills: Seq<BasicBlockIdx>, g: int, nk: int) -> Seq<(BasicBlockIdx, BasicBlockIdx)>
    decreases gens.len() - g,
{
    if g < 0 || g >= gens.len() {
        Seq::empty()
    } else {
        let k = next_kill_from(kills, nk, gens[g]);
        let here = if 0 <= k < kills.len() {
            seq![(gens[g], kills[k])]
        } else {
            Seq::empty()
        };
        here + pairs_from(gens, kills, g + 1, k)
    }
}

/// Pairs each acquisition of a guard with the first release, from the releases not yet
/// passed, in the same or a later block.
pub fn gen_kill_pairs(info: &LockGuardInfo) -> (r: Vec<(BasicBlockIdx, BasicBlockIdx)>)
    ensures
        r@ == pairs_from(gen_blocks(*info), kill_blocks(*info), 0, 0),
        r@.len() <= info.gen_locs@.len(),
        forall|k: int| 0 <= k < r@.len() ==> (#[trigger] r@[k]).0 <= r@[k].1,
        forall|k: int| 0 <= k < r@.len() ==> gen_blocks(*info).contains((#[trigger] r@[k]).0),
        forall|k: int| 0 <= k < r@.len() ==> kill_blocks(*info).contains((#[trigger] r@[k]).1),
{
    let mut pairs: Vec<(BasicBlockIdx, BasicBlockIdx)> = Vec::new();
    let mut next_kill: usize = 0;
    let mut g: usize = 0;
    while g < info.gen_locs.len()
        invariant
            g <= info.gen_locs@.len(),
            next_kill <= info.kill_locs@.len(),
            pairs@.len() <= g,
            forall|k: int| 0 <= k < pairs@.len() ==> (#[trigger] pairs@[k]).0 <= pairs@[k].1,
            forall|k: int| 0 <= k < pairs@.len() ==> gen_blocks(*info).contains((#[trigger] pairs@[k]).0),
            forall|k: int| 0 <= k < pairs@.len() ==> kill_blocks(*info).contains((#[trigger] pairs@[k]).1),
            pairs@ + pairs_from(gen_blocks(*info), kill_blocks(*info), g as int, next_kill as int)
                == pairs_from(gen_blocks(*info), kill_blocks(*info), 0, 0),
        decreases info.gen_locs@.len() - g,
    {
        let gen_block = info.gen_locs[g].block;
        let ghost nk0 = next_kill as int;
        assert(gen_blocks(*info)[g as int] == gen_block);
        while next_kill < info.kill_locs.len() && info.kill_locs[next_kill].block < gen_block
            invariant
                nk0 <= next_kill <= info.kill_locs@.len(),
                next_kill_from(kill_blocks(*info), nk0, gen_block) == next_kill_from(kill_blocks(*info), next_kill as int, gen_block),
            decreases info.kill_locs@.len() - next_kill,
        {
            assert(kill_blocks(*info)[next_kill as int] == info.kill_locs@[next_kill as int].block);
            next_kill = next_kill + 1;
        }
        proof {
            if next_kill < info.kill_locs.len() {
                assert(kill_blocks(*info)[next_kill as int] == info.kill_locs@[next_kill as int].block);
            }
            assert(next_kill_from(kill_blocks(*info), next_kill as int, gen_block) == next_kill as int);
        }
        let ghost pb = pairs@;
        if next_kill < info.kill_locs.len() {
            let kill_block = info.kill_locs[next_kill].block;
            proof {
                assert(gen_blocks(*info)[g as int] == gen_block);
                assert(kill_blocks(*info)[next_kill as int] == kill_block);
            }
            pairs.push((gen_block, kill_block));
        }
        proof {
            let gs = gen_blocks(*info);
            let ks = kill_blocks(*info);
            let rest = pairs_from(gs, ks, g + 1, next_kill as int);
            assert(pairs_from(gs, ks, g as int, nk0) == (if next_kill < ks.len() {
                seq![(gen_block, ks[next_kill as int])]
            } else {
                Seq::empty()
            }) + rest);
            assert(pb + pairs_from(gs, ks, g as int, nk0) =~= pairs@ + rest);
        }
        g = g + 1;
    }
    assert(pairs_from(gen_blocks(*info), kill_blocks(*info), g as int, next_kill as int) =~= Seq::<(BasicBlockIdx, BasicBlockIdx)>::empty());
    pairs
}

/// The blocks where a guard is acquired, in order.
pub open spec fn gen_blocks(info: LockGuardInfo) -> Seq<BasicBlockIdx> {
    info.gen_locs@.map_values(|l: MirLocation| l.block)
}

/// The blocks where a guard is released, in order.
pub open spec fn kill_blocks(info: LockGuardInfo) -> Seq<BasicBlockIdx> {
    info.kill_locs@.map_values(|l: MirLocation| l.block)
}

} // verus!
