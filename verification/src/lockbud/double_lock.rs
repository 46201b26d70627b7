//! A quick search for double locks: a depth-first walk of each body's
//! control flow that tracks the lock calls whose guards are still held.

use vstd::prelude::*;

use crate::lockbud::types::{callee_name, callee_name_of, format_name, name_text};
use crate::lockbud::ullbc::{
    base_local, operand_local, operand_local_spec, successors, terminator_successors, BlockId, ExprBody, FunDeclId,
    LocalId, Operand, Rvalue, StatementKind, TerminatorKind, TranslatedCrate, Ty, TyKind, TypeId,
};
use crate::text::{chars_of, has_sub, vec_has};

verus! {

/// The kind of lock a guard holds.
#[derive(Clone, Copy, Debug, PartialEq, Eq, Structural)]
pub enum LockGuardKind {
    MutexGuard,
    RwLockReadGuard,
    RwLockWriteGuard,
    /// A lock call whose guard type is not known.
    Unknown,
}

/// The guard kind that a type of this printed path is, if any.
pub open spec fn guard_kind_of_name(name: Seq<char>) -> Option<LockGuardKind> {
    if has_sub(name, "MutexGuard"@) {
        Some(LockGuardKind::MutexGuard)
    } else if has_sub(name, "RwLockReadGuard"@) {
        Some(LockGuardKind::RwLockReadGuard)
    } else if has_sub(name, "RwLockWriteGuard"@) {
        Some(LockGuardKind::RwLockWriteGuard)
    } else {
        None
    }
}

/// The guard kind of a type: an algebraic type declared in the crate whose
/// path names a guard.
pub open spec fn guard_kind_spec(ty: Ty, krate: TranslatedCrate) -> Option<LockGuardKind> {
    match ty.kind {
        TyKind::Adt(TypeId::Adt(id)) => match krate.type_decl(id as int) {
            Some(d) => guard_kind_of_name(name_text(d.name)),
            None => None,
        },
        _ => None,
    }
}

/// The guard kind of a type, judged by the path of its declaration.
fn is_lock_guard_ty(ty: &Ty, krate: &TranslatedCrate) -> (r: Option<LockGuardKind>)
    ensures
        r == guard_kind_spec(*ty, *krate),
{
    let id = match &ty.kind {
        TyKind::Adt(TypeId::Adt(id)) => *id,
        _ => return None,
    };
    if id >= krate.type_decls.len() {
        return None;
    }
    let decl = match &krate.type_decls[id] {
        Some(d) => d,
        None => return None,
    };
    let name = format_name(&decl.name);
    let n = chars_of(name.as_str());
    if vec_has(&n, "MutexGuard") {
        Some(LockGuardKind::MutexGuard)
    } else if vec_has(&n, "RwLockReadGuard") {
        Some(LockGuardKind::RwLockReadGuard)
    } else if vec_has(&n, "RwLockWriteGuard") {
        Some(LockGuardKind::RwLockWriteGuard)
    } else {
        None
    }
}

/// A call of a function whose path holds `::lock` but not `lock_contended`.
pub open spec fn is_lock_call_spec(func: crate::lockbud::ullbc::FnOperand, krate: TranslatedCrate) -> bool {
    match callee_name(func, krate) {
        Some(n) => has_sub(n, "::lock"@) && !has_sub(n, "lock_contended"@),
        None => false,
    }
}

fn is_lock_call(func: &crate::lockbud::ullbc::FnOperand, krate: &TranslatedCrate) -> (r: bool)
    ensures
        r == is_lock_call_spec(*func, *krate),
{
    match callee_name_of(func, krate) {
        Some(name) => {
            let n = chars_of(name.as_str());
            vec_has(&n, "::lock") && !vec_has(&n, "lock_contended")
        },
        None => false,
    }
}

/// The local that an operand reads, where it reads a place.
pub fn operand_to_local_id(op: &Operand) -> (r: Option<LocalId>)
    ensures
        r == operand_local_spec(*op),
{
    operand_local(op)
}

/// The local of a place.
pub fn place_to_local_id(place: &crate::lockbud::ullbc::Place) -> (r: Option<LocalId>)
    ensures
        r == base_local(*place),
{
    place.local_id()
}

/// A lock whose guard is held: the local that received the guard, the local
/// the lock was called on, and the guard's kind.
#[derive(Clone, Copy, Debug, PartialEq, Eq, Structural)]
pub struct ActiveLock {
    pub guard_local: LocalId,
    pub receiver_local: LocalId,
    pub kind: LockGuardKind,
}

/// The rank of a guard kind in the order the kinds are declared in.
pub open spec fn kind_rank(k: LockGuardKind) -> int {
    match k {
        LockGuardKind::MutexGuard => 0,
        LockGuardKind::RwLockReadGuard => 1,
        LockGuardKind::RwLockWriteGuard => 2,
        LockGuardKind::Unknown => 3,
    }
}

fn kind_rank_of(k: LockGuardKind) -> (r: u8)
    ensures
        r == kind_rank(k),
{
    match k {
        LockGuardKind::MutexGuard => 0,
        LockGuardKind::RwLockReadGuard => 1,
        LockGuardKind::RwLockWriteGuard => 2,
        LockGuardKind::Unknown => 3,
    }
}

/// The order of held locks: by guard local, then receiver local, then kind.
pub open spec fn active_lt(a: ActiveLock, b: ActiveLock) -> bool {
    ||| a.guard_local < b.guard_local
    ||| (a.guard_local == b.guard_local && a.receiver_local < b.receiver_local)
    ||| (a.guard_local == b.guard_local && a.receiver_local == b.receiver_local && kind_rank(a.kind) < kind_rank(
        b.kind,
    ))
}

fn active_less(a: &ActiveLock, b: &ActiveLock) -> (r: bool)
    ensures
        r == active_lt(*a, *b),
{
    if a.guard_local != b.guard_local {
        return a.guard_local < b.guard_local;
    }
    if a.receiver_local != b.receiver_local {
        return a.receiver_local < b.receiver_local;
    }
    kind_rank_of(a.kind) < kind_rank_of(b.kind)
}

/// A set of held locks, kept in strictly increasing order.
pub open spec fn sorted_locks(s: Seq<ActiveLock>) -> bool {
    forall|i: int, j: int| 0 <= i < j < s.len() ==> active_lt(s[i], s[j])
}

/// Adds a held lock to an ordered set of them.
fn insert_lock(state: &mut Vec<ActiveLock>, a: ActiveLock)
    requires
        sorted_locks(old(state)@),
    ensures
        sorted_locks(final(state)@),
        final(state)@.to_set() == old(state)@.to_set().insert(a),
        final(state)@ == insert_sorted(old(state)@, a),
{
    let mut i: usize = 0;
    while i < state.len() && active_less(&state[i], &a)
        invariant
            i <= state@.len(),
            sorted_locks(state@),
            forall|k: int| 0 <= k < i ==> active_lt(#[trigger] state@[k], a),
        decreases state@.len() - i,
    {
        i = i + 1;
    }
    if i < state.len() && state[i] == a {
        assert(state@.to_set().insert(a) =~= state@.to_set());
        proof {
            lemma_insert_sorted_is(state@, a, state@);
        }
        return;
    }
    let ghost before = state@;
    state.insert(i, a);
    proof {
        assert forall|p: int, q: int| 0 <= p < q < state@.len() implies active_lt(state@[p], state@[q]) by {
            if q < i {
            } else if q == i {
            } else if p < i {
                assert(state@[q] == before[q - 1]);
                if q - 1 > i {
                    assert(active_lt(before[i as int], before[q - 1]));
                }
                assert(!active_lt(before[i as int], a) && before[i as int] != a);
            } else if p == i {
                assert(state@[q] == before[q - 1]);
                assert(!active_lt(before[i as int], a) && before[i as int] != a);
                if q - 1 > i {
                    assert(active_lt(before[i as int], before[q - 1]));
                }
            } else {
                assert(state@[p] == before[p - 1] && state@[q] == before[q - 1]);
            }
        }
        assert(state@.to_set() =~= before.to_set().insert(a)) by {
            assert forall|x: ActiveLock| state@.to_set().contains(x) implies before.to_set().insert(a).contains(x) by {
                let k = choose|k: int| 0 <= k < state@.len() && state@[k] == x;
                if k < i {
                    assert(state@[k] == before[k]);
                } else if k > i {
                    assert(state@[k] == before[k - 1]);
                }
            }
            assert forall|x: ActiveLock| before.to_set().insert(a).contains(x) implies state@.to_set().contains(x) by {
                if x == a {
                    assert(state@[i as int] == a);
                } else {
                    let k = choose|k: int| 0 <= k < before.len() && before[k] == x;
                    if k < i {
                        assert(state@[k] == x);
                    } else {
                        assert(state@[k + 1] == x);
                    }
                }
            }
        }
        lemma_insert_sorted_is(before, a, state@);
    }
}

/// The held locks, in order, but those whose guard is `d`.
pub open spec fn released(s: Seq<ActiveLock>, d: LocalId) -> Seq<ActiveLock>
    decreases s.len(),
{
    if s.len() == 0 {
        s
    } else if s.last().guard_local != d {
        released(s.drop_last(), d).push(s.last())
    } else {
        released(s.drop_last(), d)
    }
}

/// The held locks whose guard is not in `dropped`.
fn release_guard(state: &Vec<ActiveLock>, dropped: LocalId) -> (r: Vec<ActiveLock>)
    requires
        sorted_locks(state@),
    ensures
        sorted_locks(r@),
        r@ == released(state@, dropped),
{
    let mut out: Vec<ActiveLock> = Vec::new();
    let mut i: usize = 0;
    while i < state.len()
        invariant
            i <= state@.len(),
            sorted_locks(state@),
            out@ == released(state@.take(i as int), dropped),
            forall|k: int| 0 <= k < out@.len() ==> exists|m: int| 0 <= m < i && #[trigger] out@[k] == state@[m],
            sorted_locks(out@),
        decreases state@.len() - i,
    {
        proof {
            assert(state@.take(i + 1).drop_last() =~= state@.take(i as int));
            assert(state@.take(i + 1).last() == state@[i as int]);
            assert(state@.take(i + 1) =~= state@.take(i as int).push(state@[i as int]));
        }
        let a = state[i];
        if a.guard_local != dropped {
            let ghost before = out@;
            out.push(a);
            proof {
                assert forall|p: int, q: int| 0 <= p < q < out@.len() implies active_lt(out@[p], out@[q]) by {
                    if q == out@.len() - 1 {
                        let m = choose|m: int| 0 <= m < i && before[p] == state@[m];
                        assert(active_lt(state@[m], state@[i as int]));
                    }
                }
                assert forall|k: int| 0 <= k < out@.len() implies exists|m: int| 0 <= m < i + 1 && #[trigger] out@[k] == state@[m] by {
                    if k < before.len() {
                        let m = choose|m: int| 0 <= m < i && before[k] == state@[m];
                        assert(out@[k] == state@[m]);
                    } else {
                        assert(out@[k] == state@[i as int]);
                    }
                }
            }
        }
        i = i + 1;
    }
    assert(state@.take(state@.len() as int) =~= state@);
    out
}

/// What the search records, in the order it happens.
#[derive(Clone, Copy, Debug)]
pub enum DfsEvent {
    /// A block is entered with this many held locks.
    BlockEnter { block: BlockId, state_len: usize },
    /// A lock call whose first argument reads this local, if any.
    LockCallArg { block: BlockId, receiver: Option<LocalId> },
    /// A lock call on `receiver` (`base` once resolved through a borrow) whose guard goes to `guard`.
    LockCall { block: BlockId, receiver: LocalId, base: LocalId, guard: LocalId },
    /// A lock call on a lock whose guard is already held.
    DoubleLock { block: BlockId, kind: LockGuardKind, receiver: LocalId, held_guard: LocalId },
}

/// What the search recorded for one function.
#[derive(Debug)]
pub struct FunctionEvents {
    pub fun_id: FunDeclId,
    pub fun_name: String,
    pub events: Vec<DfsEvent>,
}

/// The block an event is about.
pub open spec fn event_block(e: DfsEvent) -> BlockId {
    match e {
        DfsEvent::BlockEnter { block, .. } => block,
        DfsEvent::LockCallArg { block, .. } => block,
        DfsEvent::LockCall { block, .. } => block,
        DfsEvent::DoubleLock { block, .. } => block,
    }
}

/// Each event is about a block of the body, and a double lock is only
/// reported at a block that ends in a lock call.
pub open spec fn events_ok(krate: TranslatedCrate, body: ExprBody, events: Seq<DfsEvent>) -> bool {
    forall|k: int|
        0 <= k < events.len() ==> {
            &&& event_block(#[trigger] events[k]) < body.body@.len()
            &&& events[k] is DoubleLock ==> match body.body@[event_block(events[k]) as int].terminator.kind {
                TerminatorKind::Call { call, .. } => is_lock_call_spec(call.func, krate),
                _ => false,
            }
        }
}

/// A borrow of a local into a local: `(temporary, borrowed)`.
pub open spec fn stmt_borrow(s: crate::lockbud::ullbc::Statement) -> Option<(LocalId, LocalId)> {
    match s.kind {
        StatementKind::Assign(dest, Rvalue::Ref(p)) => match (base_local(p), base_local(dest)) {
            (Some(base), Some(id)) => Some((id, base)),
            _ => None,
        },
        _ => None,
    }
}

fn borrow_of(s: &crate::lockbud::ullbc::Statement) -> (r: Option<(LocalId, LocalId)>)
    ensures
        r == stmt_borrow(*s),
{
    match &s.kind {
        StatementKind::Assign(dest, Rvalue::Ref(place)) => match (place.local_id(), dest.local_id()) {
            (Some(base), Some(id)) => Some((id, base)),
            _ => None,
        },
        _ => None,
    }
}

/// The local that a borrow temporary of a block resolves to: what the last
/// borrow into `l` among the statements borrows, else `l`.
pub open spec fn block_borrow_base(stmts: Seq<crate::lockbud::ullbc::Statement>, l: LocalId) -> LocalId
    decreases stmts.len(),
{
    if stmts.len() == 0 {
        l
    } else {
        match stmt_borrow(stmts.last()) {
            Some((id, base)) => if id == l {
                base
            } else {
                block_borrow_base(stmts.drop_last(), l)
            },
            None => block_borrow_base(stmts.drop_last(), l),
        }
    }
}

/// The borrows of one block: borrow temporary to borrowed local, in order.
fn block_borrows(stmts: &Vec<crate::lockbud::ullbc::Statement>) -> (r: Vec<(LocalId, LocalId)>)
    ensures
        forall|l: LocalId| #[trigger] borrow_lookup(r@, l) == block_borrow_base(stmts@, l),
{
    let mut map: Vec<(LocalId, LocalId)> = Vec::new();
    let mut i: usize = 0;
    while i < stmts.len()
        invariant
            i <= stmts@.len(),
            forall|l: LocalId| #[trigger] borrow_lookup(map@, l) == block_borrow_base(stmts@.take(i as int), l),
        decreases stmts@.len() - i,
    {
        proof {
            assert(stmts@.take(i + 1).drop_last() =~= stmts@.take(i as int));
            assert(stmts@.take(i + 1).last() == stmts@[i as int]);
        }
        let ghost before = map@;
        let b = borrow_of(&stmts[i]);
        match b {
            Some(x) => {
                map.push(x);
                assert(map@.drop_last() =~= before);
            },
            None => {},
        }
        proof {
            assert forall|l: LocalId| #[trigger] borrow_lookup(map@, l) == block_borrow_base(stmts@.take(i + 1), l) by {
                assert(block_borrow_base(stmts@.take(i + 1), l) == match b {
                    Some((id, base)) => if id == l {
                        base
                    } else {
                        block_borrow_base(stmts@.take(i as int), l)
                    },
                    None => block_borrow_base(stmts@.take(i as int), l),
                });
                assert(borrow_lookup(before, l) == block_borrow_base(stmts@.take(i as int), l));
            }
        }
        i = i + 1;
    }
    assert(stmts@.take(stmts@.len() as int) =~= stmts@);
    map
}

/// The local recorded last for `l`, else `l`.
pub open spec fn borrow_lookup(m: Seq<(LocalId, LocalId)>, l: LocalId) -> LocalId
    decreases m.len(),
{
    if m.len() == 0 {
        l
    } else if m.last().0 == l {
        m.last().1
    } else {
        borrow_lookup(m.drop_last(), l)
    }
}

fn resolve_borrow(m: &Vec<(LocalId, LocalId)>, l: LocalId) -> (r: LocalId)
    ensures
        r == borrow_lookup(m@, l),
{
    let mut i: usize = m.len();
    assert(m@.take(i as int) =~= m@);
    while i > 0
        invariant
            i <= m@.len(),
            borrow_lookup(m@, l) == borrow_lookup(m@.take(i as int), l),
        decreases i,
    {
        assert(m@.take(i as int).drop_last() =~= m@.take(i - 1));
        if m[i - 1].0 == l {
            return m[i - 1].1;
        }
        i = i - 1;
    }
    l
}

/// Whether the search has been at `block` with exactly these held locks.
fn seen(visited: &Vec<(BlockId, Vec<ActiveLock>)>, block: BlockId, state: &Vec<ActiveLock>) -> (r: bool)
    ensures
        r == exists|k: int| 0 <= k < visited@.len() && (#[trigger] visited@[k]).0 == block && visited@[k].1@ == state@,
{
    let mut k: usize = 0;
    while k < visited.len()
        invariant
            k <= visited@.len(),
            forall|j: int| 0 <= j < k ==> !((#[trigger] visited@[j]).0 == block && visited@[j].1@ == state@),
        decreases visited@.len() - k,
    {
        let entry = &visited[k];
        if entry.0 == block && entry.1.len() == state.len() {
            let mut same = true;
            let mut i: usize = 0;
            assert(entry.1@.take(0) =~= state@.take(0));
            while i < state.len()
                invariant
                    i <= state@.len(),
                    entry.1@.len() == state@.len(),
                    same == (entry.1@.take(i as int) == state@.take(i as int)),
                decreases state@.len() - i,
            {
                if entry.1[i] != state[i] {
                    same = false;
                }
                proof {
                    if same {
                        assert(entry.1@.take(i + 1) =~= entry.1@.take(i as int).push(entry.1@[i as int]));
                        assert(state@.take(i + 1) =~= state@.take(i as int).push(state@[i as int]));
                    } else {
                        if entry.1@.take(i + 1) == state@.take(i + 1) {
                            if entry.1@[i as int] != state@[i as int] {
                                assert(entry.1@.take(i + 1)[i as int] == entry.1@[i as int]);
                            } else {
                                assert(entry.1@.take(i as int) =~= entry.1@.take(i + 1).take(i as int));
                                assert(state@.take(i as int) =~= state@.take(i + 1).take(i as int));
                            }
                        }
                    }
                }
                i = i + 1;
            }
            assert(entry.1@.take(state@.len() as int) =~= entry.1@);
            assert(state@.take(state@.len() as int) =~= state@);
            if same {
                return true;
            }
        }
        k = k + 1;
    }
    false
}

fn copy_locks(v: &Vec<ActiveLock>) -> (r: Vec<ActiveLock>)
    ensures
        r@ == v@,
{
    let mut out: Vec<ActiveLock> = Vec::new();
    let mut i: usize = 0;
    while i < v.len()
        invariant
            i <= v@.len(),
            out@ == v@.take(i as int),
        decreases v@.len() - i,
    {
        out.push(v[i]);
        i = i + 1;
        assert(out@ =~= v@.take(i as int));
    }
    assert(v@.take(v@.len() as int) =~= v@);
    out
}

/// No two visits have the same block and the same held locks.
pub open spec fn keys_distinct(v: Seq<(BlockId, Vec<ActiveLock>)>) -> bool {
    forall|i: int, j: int| 0 <= i < j < v.len() ==> !(v[i].0 == v[j].0 && v[i].1@ == v[j].1@)
}

/// The visits as blocks with their held locks.
pub open spec fn vis_view(v: Seq<(BlockId, Vec<ActiveLock>)>) -> Seq<(BlockId, Seq<ActiveLock>)> {
    Seq::new(v.len(), |i: int| (v[i].0, v[i].1@))
}

/// The search has been at `block` with exactly the held locks `st`.
pub open spec fn seen_spec(vis: Seq<(BlockId, Seq<ActiveLock>)>, block: BlockId, st: Seq<ActiveLock>) -> bool {
    exists|k: int| 0 <= k < vis.len() && (#[trigger] vis[k]).0 == block && vis[k].1 == st
}

/// The held locks `s` with `a` added, in order.
pub open spec fn insert_sorted(s: Seq<ActiveLock>, a: ActiveLock) -> Seq<ActiveLock> {
    choose|t: Seq<ActiveLock>| sorted_locks(t) && t.to_set() == s.to_set().insert(a)
}

/// The double locks that a lock call on `rl` (resolved to `base`) into guard
/// `gl` at `block` makes with the held locks `st`, in order.
pub open spec fn double_lock_events(
    block: BlockId,
    stmts: Seq<crate::lockbud::ullbc::Statement>,
    st: Seq<ActiveLock>,
    base: LocalId,
    rl: LocalId,
    gl: LocalId,
) -> Seq<DfsEvent>
    decreases st.len(),
{
    if st.len() == 0 {
        Seq::empty()
    } else {
        let a = st.last();
        double_lock_events(block, stmts, st.drop_last(), base, rl, gl) + if block_borrow_base(stmts, a.receiver_local) == base
            || a.guard_local == gl {
            seq![DfsEvent::DoubleLock { block, kind: a.kind, receiver: rl, held_guard: a.guard_local }]
        } else {
            Seq::empty()
        }
    }
}

/// The kind of guard that local `gl` of the body holds.
pub open spec fn local_guard_kind(krate: TranslatedCrate, body: ExprBody, gl: LocalId) -> LockGuardKind {
    if gl < body.locals@.len() {
        match guard_kind_spec(body.locals@[gl as int].ty, krate) {
            Some(k) => k,
            None => LockGuardKind::Unknown,
        }
    } else {
        LockGuardKind::Unknown
    }
}

/// What the lock call ending block `block` records, and the held locks after it.
pub open spec fn lock_step(krate: TranslatedCrate, body: ExprBody, block: BlockId, st: Seq<ActiveLock>) -> (Seq<DfsEvent>, Seq<ActiveLock>) {
    let bd = body.body@[block as int];
    match bd.terminator.kind {
        TerminatorKind::Call { call, .. } => if is_lock_call_spec(call.func, krate) && call.args@.len() > 0 {
            let rl_opt = operand_local_spec(call.args@[0]);
            let arg_ev = DfsEvent::LockCallArg { block, receiver: rl_opt };
            match (rl_opt, base_local(call.dest)) {
                (Some(rl), Some(gl)) => {
                    let base = block_borrow_base(bd.statements@, rl);
                    (
                        seq![arg_ev, DfsEvent::LockCall { block, receiver: rl, base, guard: gl }] + double_lock_events(
                            block,
                            bd.statements@,
                            st,
                            base,
                            rl,
                            gl,
                        ),
                        insert_sorted(st, ActiveLock { guard_local: gl, receiver_local: rl, kind: local_guard_kind(krate, body, gl) }),
                    )
                },
                _ => (seq![arg_ev], st),
            }
        } else {
            (Seq::empty(), st)
        },
        _ => (Seq::empty(), st),
    }
}

/// The events of the depth-first walk from `block` with held locks `st`,
/// having visited `vis`, and the visits after it: nothing where the pair was
/// visited; else the entry, the lock call's events, and the walks into the
/// successors in order (into the one after a call or a drop only).
pub open spec fn walk(
    krate: TranslatedCrate,
    body: ExprBody,
    block: BlockId,
    st: Seq<ActiveLock>,
    vis: Seq<(BlockId, Seq<ActiveLock>)>,
) -> (Seq<DfsEvent>, Seq<(BlockId, Seq<ActiveLock>)>)
    decreases usize::MAX - vis.len(), 0nat,
{
    if seen_spec(vis, block, st) || vis.len() >= usize::MAX || block >= body.body@.len() {
        (Seq::empty(), vis)
    } else {
        let v1 = vis.push((block, st));
        let enter = seq![DfsEvent::BlockEnter { block, state_len: st.len() as usize }];
        match body.body@[block as int].terminator.kind {
            TerminatorKind::Call { target, .. } => {
                let (ev, st2) = lock_step(krate, body, block, st);
                let (e2, v2) = walk(krate, body, target, st2, v1);
                (enter + ev + e2, v2)
            },
            TerminatorKind::Drop { place, target, .. } => {
                let next = match base_local(place) {
                    Some(d) => released(st, d),
                    None => st,
                };
                let (e2, v2) = walk(krate, body, target, next, v1);
                (enter + e2, v2)
            },
            TerminatorKind::Goto { target } => {
                let (e2, v2) = walk(krate, body, target, st, v1);
                (enter + e2, v2)
            },
            TerminatorKind::Switch { .. } => {
                let (e2, v2) = walk_all(krate, body, successors(body.body@[block as int].terminator.kind), st, v1);
                (enter + e2, v2)
            },
            TerminatorKind::Assert { .. } => {
                let (e2, v2) = walk_all(krate, body, successors(body.body@[block as int].terminator.kind), st, v1);
                (enter + e2, v2)
            },
            _ => (enter, v1),
        }
    }
}

/// The walks from each of `ts` in turn with held locks `st`.
pub open spec fn walk_all(
    krate: TranslatedCrate,
    body: ExprBody,
    ts: Seq<BlockId>,
    st: Seq<ActiveLock>,
    vis: Seq<(BlockId, Seq<ActiveLock>)>,
) -> (Seq<DfsEvent>, Seq<(BlockId, Seq<ActiveLock>)>)
    decreases usize::MAX - vis.len(), ts.len() + 1,
{
    if ts.len() == 0 || vis.len() > usize::MAX {
        (Seq::empty(), vis)
    } else {
        let (e1, v1) = walk(krate, body, ts[0], st, vis);
        if vis.len() <= v1.len() <= usize::MAX {
            let (e2, v2) = walk_all(krate, body, ts.drop_first(), st, v1);
            (e1 + e2, v2)
        } else {
            (e1, v1)
        }
    }
}

/// An ordered set of held locks with the locks of `s` and `a` is `s` with `a` added.
proof fn lemma_insert_sorted_is(s: Seq<ActiveLock>, a: ActiveLock, t: Seq<ActiveLock>)
    requires
        sorted_locks(t),
        t.to_set() == s.to_set().insert(a),
    ensures
        t == insert_sorted(s, a),
{
    let u = insert_sorted(s, a);
    assert(sorted_locks(u) && u.to_set() == s.to_set().insert(a));
    lemma_sorted_unique(t, u);
}

/// Two ordered sets of held locks with the same locks are the same.
proof fn lemma_sorted_unique(a: Seq<ActiveLock>, b: Seq<ActiveLock>)
    requires
        sorted_locks(a),
        sorted_locks(b),
        a.to_set() == b.to_set(),
    ensures
        a == b,
    decreases a.len(),
{
    if a.len() == 0 {
        if b.len() > 0 {
            assert(b.to_set().contains(b[0]));
        }
        assert(b.len() == 0);
    } else if b.len() == 0 {
        assert(a.to_set().contains(a[0]));
    } else {
        assert(a.to_set().contains(a[0]));
        assert(b.to_set().contains(b[0]));
        assert(b.to_set().contains(a[0]));
        assert(a.to_set().contains(b[0]));
        let i = choose|i: int| 0 <= i < b.len() && b[i] == a[0];
        let j = choose|j: int| 0 <= j < a.len() && a[j] == b[0];
        if i > 0 {
            assert(active_lt(b[0], b[i]));
            if j > 0 {
                assert(active_lt(a[0], a[j]));
            }
            assert(false);
        }
        let a2 = a.drop_first();
        let b2 = b.drop_first();
        assert forall|x: ActiveLock| a2.to_set().contains(x) implies b2.to_set().contains(x) by {
            let p = choose|p: int| 0 <= p < a2.len() && a2[p] == x;
            assert(active_lt(a[0], a[p + 1]));
            assert(b.to_set().contains(x));
            let q = choose|q: int| 0 <= q < b.len() && b[q] == x;
            if q == 0 {
                assert(x == a[0]);
            }
            assert(b2[q - 1] == x);
        }
        assert forall|x: ActiveLock| b2.to_set().contains(x) implies a2.to_set().contains(x) by {
            let p = choose|p: int| 0 <= p < b2.len() && b2[p] == x;
            assert(active_lt(b[0], b[p + 1]));
            assert(a.to_set().contains(x));
            let q = choose|q: int| 0 <= q < a.len() && a[q] == x;
            if q == 0 {
                assert(x == b[0]);
            }
            assert(a2[q - 1] == x);
        }
        assert(a2.to_set() =~= b2.to_set());
        lemma_sorted_unique(a2, b2);
        assert(a =~= seq![a[0]] + a2);
        assert(b =~= seq![b[0]] + b2);
    }
}

/// Records the lock call ending block `block_id`, if it ends in one: the
/// local its first argument reads, the call with its receiver resolved through
/// the block's borrows, and each held lock it locks again; then holds its guard.
fn lock_call_events(
    krate: &TranslatedCrate,
    body: &ExprBody,
    block_id: BlockId,
    state: &mut Vec<ActiveLock>,
    events: &mut Vec<DfsEvent>,
)
    requires
        body.wf(),
        block_id < body.body@.len(),
        sorted_locks(old(state)@),
        events_ok(*krate, *body, old(events)@),
    ensures
        sorted_locks(final(state)@),
        events_ok(*krate, *body, final(events)@),
        final(events)@ == old(events)@ + lock_step(*krate, *body, block_id, old(state)@).0,
        final(state)@ == lock_step(*krate, *body, block_id, old(state)@).1,
{
    let block = &body.body[block_id];
    let ghost st0 = state@;
    let ghost e0 = events@;
    match &block.terminator.kind {
        TerminatorKind::Call { call, .. } => {
            if is_lock_call(&call.func, krate) && call.args.len() > 0 {
                let borrows = block_borrows(&block.statements);
                let receiver_local = operand_to_local_id(&call.args[0]);
                events.push(DfsEvent::LockCallArg { block: block_id, receiver: receiver_local });
                match (receiver_local, place_to_local_id(&call.dest)) {
                    (Some(rl), Some(gl)) => {
                        let resolved_rl = resolve_borrow(&borrows, rl);
                        events.push(DfsEvent::LockCall { block: block_id, receiver: rl, base: resolved_rl, guard: gl });
                        let ghost e2 = events@;
                        let ghost stmts = block.statements@;
                        assert(state@.take(0) =~= Seq::<ActiveLock>::empty());
                        let mut k: usize = 0;
                        while k < state.len()
                            invariant
                                block_id < body.body@.len(),
                                *block == body.body@[block_id as int],
                                block.terminator.kind matches TerminatorKind::Call { call: c, .. } && c == *call,
                                is_lock_call_spec(call.func, *krate),
                                k <= state@.len(),
                                state@ == st0,
                                stmts == block.statements@,
                                resolved_rl == block_borrow_base(stmts, rl),
                                forall|l: LocalId| #[trigger] borrow_lookup(borrows@, l) == block_borrow_base(stmts, l),
                                events_ok(*krate, *body, events@),
                                events@ == e2 + double_lock_events(block_id, stmts, st0.take(k as int), resolved_rl, rl, gl),
                            decreases state@.len() - k,
                        {
                            let active = state[k];
                            let active_resolved = resolve_borrow(&borrows, active.receiver_local);
                            let ghost eb = events@;
                            proof {
                                assert(st0.take(k + 1).drop_last() =~= st0.take(k as int));
                                assert(st0.take(k + 1).last() == active);
                            }
                            if active_resolved == resolved_rl || active.guard_local == gl {
                                events.push(
                                    DfsEvent::DoubleLock {
                                        block: block_id,
                                        kind: active.kind,
                                        receiver: rl,
                                        held_guard: active.guard_local,
                                    },
                                );
                                proof {
                                    assert forall|q: int| 0 <= q < events@.len() implies {
                                        &&& event_block(#[trigger] events@[q]) < body.body@.len()
                                        &&& events@[q] is DoubleLock ==> match body.body@[event_block(events@[q]) as int].terminator.kind {
                                            TerminatorKind::Call { call, .. } => is_lock_call_spec(call.func, *krate),
                                            _ => false,
                                        }
                                    } by {
                                        if q < eb.len() {
                                            assert(events@[q] == eb[q]);
                                        }
                                    }
                                }
                            }
                            proof {
                                assert(events@ =~= e2 + double_lock_events(block_id, stmts, st0.take(k + 1), resolved_rl, rl, gl));
                            }
                            k = k + 1;
                        }
                        assert(st0.take(st0.len() as int) =~= st0);
                        let kind = if gl < body.locals.len() {
                            match is_lock_guard_ty(&body.locals[gl].ty, krate) {
                                Some(k) => k,
                                None => LockGuardKind::Unknown,
                            }
                        } else {
                            LockGuardKind::Unknown
                        };
                        insert_lock(state, ActiveLock { guard_local: gl, receiver_local: rl, kind });
                        proof {
                            assert(events@ =~= e0 + lock_step(*krate, *body, block_id, st0).0);
                        }
                    },
                    _ => {
                        proof {
                            assert(events@ =~= e0 + lock_step(*krate, *body, block_id, st0).0);
                        }
                    },
                }
            } else {
                assert(events@ =~= e0 + Seq::<DfsEvent>::empty());
            }
        },
        _ => {
            assert(events@ =~= e0 + Seq::<DfsEvent>::empty());
        },
    }
}

/// The depth-first walk from `block_id` with held locks `state`: each pair of
/// a block and a set of held locks is entered at most once.
#[verifier::spinoff_prover]
#[verifier::rlimit(100)]
fn dfs(
    krate: &TranslatedCrate,
    body: &ExprBody,
    block_id: BlockId,
    state: Vec<ActiveLock>,
    visited: &mut Vec<(BlockId, Vec<ActiveLock>)>,
    events: &mut Vec<DfsEvent>,
)
    requires
        body.wf(),
        block_id < body.body@.len(),
        sorted_locks(state@),
        keys_distinct(old(visited)@),
        events_ok(*krate, *body, old(events)@),
        old(visited)@.len() <= usize::MAX,
    ensures
        old(visited)@.len() <= final(visited)@.len(),
        final(visited)@.len() <= usize::MAX,
        keys_distinct(final(visited)@),
        events_ok(*krate, *body, final(events)@),
        forall|i: int| 0 <= i < old(visited)@.len() ==> final(visited)@[i] == old(visited)@[i],
        final(events)@ == old(events)@ + walk(*krate, *body, block_id, state@, vis_view(old(visited)@)).0,
        vis_view(final(visited)@) == walk(*krate, *body, block_id, state@, vis_view(old(visited)@)).1,
    decreases usize::MAX - old(visited)@.len(),
{
    let ghost st0 = state@;
    let ghost vw0 = vis_view(visited@);
    if seen(visited, block_id, &state) {
        proof {
            let k = choose|k: int| 0 <= k < visited@.len() && (#[trigger] visited@[k]).0 == block_id && visited@[k].1@ == state@;
            assert(vw0[k] == (visited@[k].0, visited@[k].1@));
            assert(seen_spec(vw0, block_id, st0));
            assert(events@ =~= events@ + Seq::<DfsEvent>::empty());
        }
        return;
    }
    proof {
        if seen_spec(vw0, block_id, st0) {
            let k = choose|k: int| 0 <= k < vw0.len() && (#[trigger] vw0[k]).0 == block_id && vw0[k].1 == st0;
            assert(visited@[k].0 == block_id && visited@[k].1@ == state@);
        }
    }
    let ghost v0 = visited@;
    let ghost ev0 = events@;
    visited.push((block_id, copy_locks(&state)));
    let ghost v1 = visited@;
    let cur_len: usize = visited.len();
    proof {
        assert forall|i: int, j: int| 0 <= i < j < visited@.len() implies !(visited@[i].0 == visited@[j].0
            && visited@[i].1@ == visited@[j].1@) by {
            if j == visited@.len() - 1 {
                assert(visited@[i] == v0[i]);
            } else {
                assert(visited@[i] == v0[i] && visited@[j] == v0[j]);
            }
        }
        assert(vis_view(v1) =~= vw0.push((block_id, st0)));
    }
    events.push(DfsEvent::BlockEnter { block: block_id, state_len: state.len() });
    let ghost e1 = events@;
    let block = &body.body[block_id];
    let mut state = state;
    let ghost vw1 = vis_view(v1);
    let ghost w = walk(*krate, *body, block_id, st0, vw0);
    match &block.terminator.kind {
        TerminatorKind::Call { target, .. } => {
            lock_call_events(krate, body, block_id, &mut state, events);
            assert(successors(block.terminator.kind)[0] == *target);
            let ghost st2 = state@;
            let ghost e2 = events@;
            dfs(krate, body, *target, state, visited, events);
            proof {
                assert(events@ =~= ev0 + w.0);
            }
        },
        TerminatorKind::Drop { place, target, .. } => {
            let next = match place.local_id() {
                Some(dropped_local) => release_guard(&state, dropped_local),
                None => state,
            };
            assert(successors(block.terminator.kind)[0] == *target);
            dfs(krate, body, *target, next, visited, events);
            proof {
                assert(events@ =~= ev0 + w.0);
            }
        },
        TerminatorKind::Goto { target } => {
            assert(successors(block.terminator.kind)[0] == *target);
            dfs(krate, body, *target, state, visited, events);
            proof {
                assert(events@ =~= ev0 + w.0);
            }
        },
        TerminatorKind::Switch { .. } => {
            let targets = terminator_successors(&block.terminator.kind);
            let ghost all = walk_all(*krate, *body, targets@, st0, vw1);
            proof {
                assert(targets@.skip(0) =~= targets@);
                assert(events@.skip(e1.len() as int) =~= Seq::<DfsEvent>::empty());
                assert(all.0 =~= events@.skip(e1.len() as int) + all.0);
            }
            let mut t: usize = 0;
            while t < targets.len()
                invariant
                    body.wf(),
                    block_id < body.body@.len(),
                    targets@ == successors(body.body@[block_id as int].terminator.kind),
                    t <= targets@.len(),
                    sorted_locks(state@),
                    state@ == st0,
                    v0.len() < visited@.len(),
                    visited@.len() <= usize::MAX,
                    v0 == old(visited)@,
                    keys_distinct(visited@),
                    events_ok(*krate, *body, events@),
                    v1.len() <= visited@.len(),
                    forall|i: int| 0 <= i < v1.len() ==> visited@[i] == v1[i],
                    e1.len() <= events@.len(),
                    forall|i: int| 0 <= i < e1.len() ==> events@[i] == e1[i],
                    all == walk_all(*krate, *body, targets@, st0, vw1),
                    all.0 == events@.skip(e1.len() as int) + walk_all(*krate, *body, targets@.skip(t as int), st0, vis_view(visited@)).0,
                    all.1 == walk_all(*krate, *body, targets@.skip(t as int), st0, vis_view(visited@)).1,
                decreases targets@.len() - t,
            {
                let ghost vb = visited@;
                let ghost eb = events@;
                dfs(krate, body, targets[t], copy_locks(&state), visited, events);
                proof {
                    let ts = targets@.skip(t as int);
                    assert(ts[0] == targets@[t as int]);
                    assert(ts.drop_first() =~= targets@.skip(t + 1));
                    assert(vis_view(vb).len() == vb.len());
                    assert(vis_view(visited@).len() == visited@.len());
                    assert(events@.skip(e1.len() as int) =~= eb.skip(e1.len() as int) + events@.skip(eb.len() as int));
                    assert(events@.skip(eb.len() as int) =~= walk(*krate, *body, targets@[t as int], st0, vis_view(vb)).0);
                    assert forall|i: int| 0 <= i < v1.len() implies visited@[i] == v1[i] by {
                        assert(visited@[i] == vb[i]);
                    }
                    assert forall|i: int| 0 <= i < e1.len() implies events@[i] == e1[i] by {
                        assert(events@[i] == eb[i]);
                    }
                }
                t = t + 1;
            }
            proof {
                assert(targets@.skip(targets@.len() as int) =~= Seq::<BlockId>::empty());
                assert(events@ =~= e1 + events@.skip(e1.len() as int));
                assert(events@ =~= ev0 + w.0);
            }
        },
        TerminatorKind::Assert { target, on_unwind } => {
            assert(successors(block.terminator.kind)[0] == *target);
            assert(successors(block.terminator.kind)[1] == *on_unwind);
            let ghost succ = successors(block.terminator.kind);
            dfs(krate, body, *target, copy_locks(&state), visited, events);
            let ghost va = visited@;
            let ghost ea = events@;
            dfs(krate, body, *on_unwind, state, visited, events);
            proof {
                let wa = walk(*krate, *body, *target, st0, vw1);
                let wb = walk(*krate, *body, *on_unwind, st0, vis_view(va));
                assert(succ.drop_first() =~= seq![*on_unwind]);
                assert(seq![*on_unwind].drop_first() =~= Seq::<BlockId>::empty());
                assert(vis_view(va).len() == va.len());
                assert(vis_view(visited@).len() == visited@.len());
                assert(vis_view(va) == wa.1);
                let rest = walk_all(*krate, *body, seq![*on_unwind], st0, wa.1);
                assert(walk_all(*krate, *body, Seq::<BlockId>::empty(), st0, wb.1) == (Seq::<DfsEvent>::empty(), wb.1));
                assert(rest == (wb.0 + Seq::<DfsEvent>::empty(), wb.1));
                assert(walk_all(*krate, *body, succ, st0, vw1) == (wa.0 + rest.0, rest.1));
                assert(w == (seq![DfsEvent::BlockEnter { block: block_id, state_len: st0.len() as usize }] + (wa.0 + rest.0), rest.1));
                assert(events@ =~= ev0 + w.0);
                assert(vis_view(visited@) == w.1);
            }
        },
        _ => {
            proof {
                assert(events@ =~= ev0 + w.0);
            }
        },
    }
    proof {
        assert forall|i: int| 0 <= i < v0.len() implies visited@[i] == v0[i] by {
            assert(visited@[i] == v1[i]);
            assert(v1[i] == v0[i]);
        }
    }
}

/// The functions among the first `n` that have a body, in order.
pub open spec fn funs_with_body(krate: TranslatedCrate, n: int) -> Seq<FunDeclId>
    decreases n,
{
    if n <= 0 {
        Seq::empty()
    } else {
        funs_with_body(krate, n - 1) + if krate.body_of(n - 1) is Some {
            seq![(n - 1) as usize]
        } else {
            Seq::empty()
        }
    }
}

/// Walks each function body from its start block, tracking held locks, and
/// records what it finds; each pair of a block and a set of held locks is
/// entered at most once per function.
pub fn detect(krate: &TranslatedCrate) -> (r: Vec<FunctionEvents>)
    requires
        krate.wf(),
    ensures
        forall|i: int|
            0 <= i < r@.len() ==> {
                let f = (#[trigger] r@[i]).fun_id as int;
                &&& krate.body_of(f) is Some
                &&& events_ok(*krate, krate.body_of(f)->0, r@[i].events@)
                &&& r@[i].fun_name@ == name_text(krate.fun_decl(f)->0.name)
            },
        r@.len() == funs_with_body(*krate, krate.fun_decls@.len() as int).len(),
        forall|i: int|
            0 <= i < r@.len() ==> {
                &&& (#[trigger] r@[i]).fun_id == funs_with_body(*krate, krate.fun_decls@.len() as int)[i]
                &&& r@[i].events@ == walk(*krate, krate.body_of(r@[i].fun_id as int)->0, 0, Seq::empty(), Seq::empty()).0
            },
{
    let mut out: Vec<FunctionEvents> = Vec::new();
    let mut f: usize = 0;
    while f < krate.fun_decls.len()
        invariant
            krate.wf(),
            f <= krate.fun_decls@.len(),
            forall|i: int|
                0 <= i < out@.len() ==> {
                    let g = (#[trigger] out@[i]).fun_id as int;
                    &&& krate.body_of(g) is Some
                    &&& events_ok(*krate, krate.body_of(g)->0, out@[i].events@)
                    &&& out@[i].fun_name@ == name_text(krate.fun_decl(g)->0.name)
                },
            out@.len() == funs_with_body(*krate, f as int).len(),
            forall|i: int|
                0 <= i < out@.len() ==> {
                    &&& (#[trigger] out@[i]).fun_id == funs_with_body(*krate, f as int)[i]
                    &&& out@[i].events@ == walk(*krate, krate.body_of(out@[i].fun_id as int)->0, 0, Seq::empty(), Seq::empty()).0
                },
        decreases krate.fun_decls@.len() - f,
    {
        let ghost ob = out@;
        match &krate.fun_decls[f] {
            Some(fun_decl) => match &fun_decl.body {
                Some(body) => {
                    assert(krate.fun_decls@[f as int] is Some);
                    let mut visited: Vec<(BlockId, Vec<ActiveLock>)> = Vec::new();
                    let mut events: Vec<DfsEvent> = Vec::new();
                    assert(keys_distinct(visited@));
                    assert(vis_view(visited@) =~= Seq::<(BlockId, Seq<ActiveLock>)>::empty());
                    let start: Vec<ActiveLock> = Vec::new();
                    assert(start@ =~= Seq::<ActiveLock>::empty());
                    dfs(krate, body, 0, start, &mut visited, &mut events);
                    assert(events@ =~= Seq::<DfsEvent>::empty() + walk(*krate, *body, 0, Seq::empty(), Seq::empty()).0);
                    out.push(FunctionEvents { fun_id: f, fun_name: format_name(&fun_decl.name), events });
                    proof {
                        assert(funs_with_body(*krate, f + 1) =~= funs_with_body(*krate, f as int).push(f));
                        assert forall|i: int| 0 <= i < ob.len() implies out@[i] == ob[i] by {}
                    }
                },
                None => {
                    assert(funs_with_body(*krate, f + 1) =~= funs_with_body(*krate, f as int));
                },
            },
            None => {
                assert(funs_with_body(*krate, f + 1) =~= funs_with_body(*krate, f as int));
            },
        }
        f = f + 1;
    }
    out
}

/// What a type's path says of the guard it is: a path naming `MutexGuard` is a mutex guard;
/// else one naming `RwLockReadGuard` a read guard; else one naming `RwLockWriteGuard` a write
/// guard; a path naming none of them is no guard.
pub proof fn law_guard_kind_by_path(name: Seq<char>)
    ensures
        has_sub(name, "MutexGuard"@) ==> guard_kind_of_name(name) == Some(LockGuardKind::MutexGuard),
        !has_sub(name, "MutexGuard"@) && has_sub(name, "RwLockReadGuard"@) ==> guard_kind_of_name(name) == Some(
            LockGuardKind::RwLockReadGuard,
        ),
        !has_sub(name, "MutexGuard"@) && !has_sub(name, "RwLockReadGuard"@) && has_sub(name, "RwLockWriteGuard"@)
            ==> guard_kind_of_name(name) == Some(LockGuardKind::RwLockWriteGuard),
        guard_kind_of_name(name) is None <==> !has_sub(name, "MutexGuard"@) && !has_sub(name, "RwLockReadGuard"@) && !has_sub(
            name,
            "RwLockWriteGuard"@,
        ),
{
}

/// A call locks exactly where the called function's path names `::lock` and not
/// `lock_contended`; a call of no declared function never locks.
pub proof fn law_lock_call_by_path(func: crate::lockbud::ullbc::FnOperand, krate: TranslatedCrate)
    ensures
        callee_name(func, krate) is None ==> !is_lock_call_spec(func, krate),
        callee_name(func, krate) matches Some(n) ==> (is_lock_call_spec(func, krate) <==> has_sub(n, "::lock"@) && !has_sub(
            n,
            "lock_contended"@,
        )),
{
}

} // verus!
