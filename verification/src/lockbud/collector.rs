//! Finds the lock guards of each local function, and where each is acquired and released.

use vstd::prelude::*;

use crate::lockbud::types::{
    callee_name, callee_name_of, guard_from_ty, LockGuardId, LockGuardInfo, LockGuardMap, LockGuardTy, Location,
};
use crate::lockbud::ullbc::{
    base_local, copy_place, BlockData, ExprBody, FnOperand, FunDeclId, LocalId, Operand, Place, PlaceKind, Rvalue,
    Statement, StatementKind, TerminatorKind, TranslatedCrate,
};
use crate::text::{has_sub, str_has_sub};

verus! {

broadcast use {vstd::seq_lib::lemma_seq_contains_after_push, vstd::seq::Seq::lemma_push_to_set_commute};

// ---------------------------------------------------------------------------
// Which calls take a lock
// ---------------------------------------------------------------------------

/// A call takes a lock: it calls a function whose name has `::lock` but not `lock_contended`.
pub open spec fn is_lock_call_spec(func: FnOperand, krate: TranslatedCrate) -> bool {
    match callee_name(func, krate) {
        Some(n) => has_sub(n, "::lock"@) && !has_sub(n, "lock_contended"@),
        None => false,
    }
}

/// A call takes a recursive read lock: it calls a function whose name has `read_recursive`.
pub open spec fn is_read_recursive_spec(func: FnOperand, krate: TranslatedCrate) -> bool {
    match callee_name(func, krate) {
        Some(n) => has_sub(n, "read_recursive"@),
        None => false,
    }
}

/// Whether the call takes a lock.
pub fn is_lock_call(func: &FnOperand, krate: &TranslatedCrate) -> (r: bool)
    ensures
        r == is_lock_call_spec(*func, *krate),
{
    match callee_name_of(func, krate) {
        Some(name) => str_has_sub(name.as_str(), "::lock") && !str_has_sub(name.as_str(), "lock_contended"),
        None => false,
    }
}

/// Whether the call takes a recursive read lock.
pub fn is_read_recursive_call(func: &FnOperand, krate: &TranslatedCrate) -> (r: bool)
    ensures
        r == is_read_recursive_spec(*func, *krate),
{
    match callee_name_of(func, krate) {
        Some(name) => str_has_sub(name.as_str(), "read_recursive"),
        None => false,
    }
}

// ---------------------------------------------------------------------------
// Where guards are acquired and released
// ---------------------------------------------------------------------------

/// The locals of `body` that hold lock guards.
pub open spec fn guard_locals(krate: TranslatedCrate, body: ExprBody) -> Set<LocalId> {
    Set::new(|l: LocalId| l < body.locals@.len() && guard_from_ty(body.locals@[l as int].ty, krate) is Some)
}

/// The rvalue only moves or copies another guard.
pub open spec fn alias_rvalue(rv: Rvalue, guards: Set<LocalId>) -> bool {
    match rv {
        Rvalue::Use(op) => match op {
            Operand::Move(src) | Operand::Copy(src) => match base_local(src) {
                Some(s) => guards.contains(s),
                None => false,
            },
            _ => false,
        },
        _ => false,
    }
}

/// The statement acquires guard `l`: it assigns to it, other than by moving or copying a guard.
pub open spec fn stmt_gens(s: Statement, l: LocalId, guards: Set<LocalId>) -> bool {
    match s.kind {
        StatementKind::Assign(dest, rv) => base_local(dest) == Some(l) && !alias_rvalue(rv, guards),
        _ => false,
    }
}

/// The statement releases guard `l`: it moves it out, or ends its storage.
pub open spec fn stmt_kills(s: Statement, l: LocalId) -> bool {
    match s.kind {
        StatementKind::Assign(_, rv) => match rv {
            Rvalue::Use(op) => match op {
                Operand::Move(src) => base_local(src) == Some(l),
                _ => false,
            },
            _ => false,
        },
        StatementKind::StorageDead(x) => x == l,
        _ => false,
    }
}

/// How many times the terminator records an acquisition of guard `l`: a call whose result
/// goes to `l` counts once, and once more when it takes a lock.
pub open spec fn term_gen_count(k: TerminatorKind, l: LocalId, krate: TranslatedCrate) -> nat {
    match k {
        TerminatorKind::Call { call, .. } => if base_local(call.dest) == Some(l) {
            if is_lock_call_spec(call.func, krate) {
                2nat
            } else {
                1nat
            }
        } else {
            0nat
        },
        _ => 0nat,
    }
}

/// The terminator releases guard `l`: it drops it.
pub open spec fn term_kills(k: TerminatorKind, l: LocalId) -> bool {
    match k {
        TerminatorKind::Drop { place, .. } => base_local(place) == Some(l),
        _ => false,
    }
}

/// The terminator acquires guard `l` by a recursive read lock.
pub open spec fn term_rec_read(k: TerminatorKind, l: LocalId, krate: TranslatedCrate) -> bool {
    match k {
        TerminatorKind::Call { call, .. } => base_local(call.dest) == Some(l) && is_read_recursive_spec(call.func, krate),
        _ => false,
    }
}

/// The locations among the first statements `stmts` of block `b` where `pred` holds.
pub open spec fn stmt_locs(b: usize, stmts: Seq<Statement>, pred: spec_fn(Statement) -> bool) -> Seq<Location>
    decreases stmts.len(),
{
    if stmts.len() == 0 {
        Seq::empty()
    } else {
        let rest = stmt_locs(b, stmts.drop_last(), pred);
        if pred(stmts.last()) {
            rest.push(Location { block: b, statement_index: (stmts.len() - 1) as usize })
        } else {
            rest
        }
    }
}

/// `n` copies of location `loc`.
pub open spec fn repeat_loc(loc: Location, n: nat) -> Seq<Location> {
    Seq::new(n, |i: int| loc)
}

/// The acquisitions of guard `l` in the first blocks `blocks` of a body, in order.
pub open spec fn gens_in(krate: TranslatedCrate, blocks: Seq<BlockData>, l: LocalId, guards: Set<LocalId>) -> Seq<Location>
    decreases blocks.len(),
{
    if blocks.len() == 0 {
        Seq::empty()
    } else {
        let b = (blocks.len() - 1) as usize;
        let bb = blocks.last();
        gens_in(krate, blocks.drop_last(), l, guards) + stmt_locs(b, bb.statements@, |s: Statement| stmt_gens(s, l, guards))
            + repeat_loc(Location { block: b, statement_index: bb.statements@.len() as usize }, term_gen_count(bb.terminator.kind, l, krate))
    }
}

/// The releases of guard `l` in the first blocks `blocks` of a body, in order.
pub open spec fn kills_in(blocks: Seq<BlockData>, l: LocalId) -> Seq<Location>
    decreases blocks.len(),
{
    if blocks.len() == 0 {
        Seq::empty()
    } else {
        let b = (blocks.len() - 1) as usize;
        let bb = blocks.last();
        kills_in(blocks.drop_last(), l) + stmt_locs(b, bb.statements@, |s: Statement| stmt_kills(s, l)) + if term_kills(
            bb.terminator.kind,
            l,
        ) {
            seq![Location { block: b, statement_index: bb.statements@.len() as usize }]
        } else {
            Seq::empty()
        }
    }
}

/// Some block among `blocks` acquires guard `l` by a recursive read lock.
pub open spec fn rec_read_in(krate: TranslatedCrate, blocks: Seq<BlockData>, l: LocalId) -> bool {
    exists|b: int| 0 <= b < blocks.len() && term_rec_read((#[trigger] blocks[b]).terminator.kind, l, krate)
}

/// What the collector records of guard `l` of a body: its kind and span from its
/// declaration, where it is acquired and released, and whether by a recursive read lock.
pub open spec fn guard_facts(krate: TranslatedCrate, body: ExprBody, l: LocalId, info: LockGuardInfo) -> bool {
    let guards = guard_locals(krate, body);
    &&& l < body.locals@.len()
    &&& guard_from_ty(body.locals@[l as int].ty, krate) == Some(info.lockguard_ty)
    &&& info.span == body.locals@[l as int].span
    &&& info.gen_locs@ == gens_in(krate, body.body@, l, guards)
    &&& info.kill_locs@ == kills_in(body.body@, l)
    &&& info.is_recursive_read == rec_read_in(krate, body.body@, l)
    &&& info.alias_of is None
}

/// A map from locals to places: the last place recorded for each local.
struct PlaceMap {
    entries: Vec<(LocalId, Place)>,
}

/// The locals that have a place recorded, with repeats.
/// The place of the last entry for `l`.
spec fn last_place(entries: Seq<(LocalId, Place)>, l: LocalId) -> Option<Place>
    decreases entries.len(),
{
    if entries.len() == 0 {
        None
    } else if entries.last().0 == l {
        Some(entries.last().1)
    } else {
        last_place(entries.drop_last(), l)
    }
}

spec fn map_keys(m: PlaceMap) -> Seq<LocalId> {
    m.entries@.map_values(|e: (LocalId, Place)| e.0)
}

/// How many of `keys` are not in `v`, counted with repeats.
spec fn unvisited_count(keys: Seq<LocalId>, v: Seq<LocalId>) -> nat
    decreases keys.len(),
{
    if keys.len() == 0 {
        0
    } else {
        unvisited_count(keys.drop_last(), v) + if v.contains(keys.last()) {
            0nat
        } else {
            1nat
        }
    }
}

/// Visiting one more local leaves no more unvisited, and fewer where it was one of `keys`.
proof fn lemma_unvisited_push(keys: Seq<LocalId>, v: Seq<LocalId>, x: LocalId)
    requires
        !v.contains(x),
    ensures
        unvisited_count(keys, v.push(x)) <= unvisited_count(keys, v),
        keys.contains(x) ==> unvisited_count(keys, v.push(x)) < unvisited_count(keys, v),
    decreases keys.len(),
{
    if keys.len() > 0 {
        lemma_unvisited_push(keys.drop_last(), v, x);
        if keys.contains(x) && keys.last() != x {
            let k = choose|k: int| 0 <= k < keys.len() && keys[k] == x;
            assert(keys.drop_last()[k] == x);
        }
        assert(v.push(x).contains(x));
        if v.contains(keys.last()) {
            assert(v.push(x).contains(keys.last()));
        }
    }
}

impl PlaceMap {
    fn new() -> (r: Self) {
        PlaceMap { entries: Vec::new() }
    }

    /// The place recorded last for `l`.
    fn get(&self, l: LocalId) -> (r: Option<&Place>)
        ensures
            r is Some ==> map_keys(*self).contains(l),
            (match r {
                Some(p) => Some(*p),
                None => None,
            }) == last_place(self.entries@, l),
    {
        let mut i: usize = self.entries.len();
        assert(self.entries@.take(i as int) =~= self.entries@);
        while i > 0
            invariant
                i <= self.entries@.len(),
                last_place(self.entries@, l) == last_place(self.entries@.take(i as int), l),
            decreases i,
        {
            assert(self.entries@.take(i as int).drop_last() =~= self.entries@.take(i - 1));
            i = i - 1;
            if self.entries[i].0 == l {
                assert(map_keys(*self)[i as int] == l);
                return Some(&self.entries[i].1);
            }
        }
        None
    }

    /// Records `p` for `l`.
    fn insert(&mut self, l: LocalId, p: Place) {
        self.entries.push((l, p));
    }
}

/// A local recorded last in `entries` is among its keys.
proof fn lemma_last_place_key(entries: Seq<(LocalId, Place)>, l: LocalId)
    requires
        last_place(entries, l) is Some,
    ensures
        entries.map_values(|e: (LocalId, Place)| e.0).contains(l),
    decreases entries.len(),
{
    let ks = entries.map_values(|e: (LocalId, Place)| e.0);
    if entries.last().0 == l {
        assert(ks[entries.len() - 1] == l);
    } else {
        lemma_last_place_key(entries.drop_last(), l);
        let ks2 = entries.drop_last().map_values(|e: (LocalId, Place)| e.0);
        let k = choose|k: int| 0 <= k < ks2.len() && #[trigger] ks2[k] == l;
        assert(ks[k] == ks2[k]);
    }
}

/// `place` followed through the moves `ms` and the borrows `rs` it was made
/// from, a move before a borrow, following no local of `visited` and each
/// local at most once.
spec fn resolved_place(place: Place, ms: Seq<(LocalId, Place)>, rs: Seq<(LocalId, Place)>, visited: Seq<LocalId>) -> Place
    decreases
        unvisited_count(
            ms.map_values(|e: (LocalId, Place)| e.0) + rs.map_values(|e: (LocalId, Place)| e.0),
            visited,
        ),
        place,
{
    match place.kind {
        PlaceKind::Local(l) => if visited.contains(l) {
            place
        } else {
            let keys = ms.map_values(|e: (LocalId, Place)| e.0) + rs.map_values(|e: (LocalId, Place)| e.0);
            match last_place(ms, l) {
                Some(src) => {
                    proof {
                        lemma_last_place_key(ms, l);
                        let ks = ms.map_values(|e: (LocalId, Place)| e.0);
                        let k = choose|k: int| 0 <= k < ks.len() && #[trigger] ks[k] == l;
                        assert(keys[k] == l);
                        lemma_unvisited_push(keys, visited, l);
                    }
                    resolved_place(src, ms, rs, visited.push(l))
                },
                None => match last_place(rs, l) {
                    Some(src) => {
                        proof {
                            lemma_last_place_key(rs, l);
                            let ks = rs.map_values(|e: (LocalId, Place)| e.0);
                            let k = choose|k: int| 0 <= k < ks.len() && #[trigger] ks[k] == l;
                            assert(keys[ms.len() + k] == l);
                            lemma_unvisited_push(keys, visited, l);
                        }
                        resolved_place(src, ms, rs, visited.push(l))
                    },
                    None => place,
                },
            }
        },
        PlaceKind::Projection(inner, elem) => Place {
            kind: PlaceKind::Projection(Box::new(resolved_place(*inner, ms, rs, visited)), elem),
            ty: place.ty,
        },
        PlaceKind::Global(_) => place,
    }
}

/// Follows `place` through the moves and borrows it was made from, following each local
/// at most once.
fn resolve_place(place: &Place, move_sources: &PlaceMap, ref_places: &PlaceMap, visited: &mut Vec<LocalId>) -> (r: Place)
    ensures
        r == resolved_place(*place, move_sources.entries@, ref_places.entries@, old(visited)@),
    decreases unvisited_count(map_keys(*move_sources) + map_keys(*ref_places), old(visited)@), place,
{
    let ghost keys = map_keys(*move_sources) + map_keys(*ref_places);
    match &place.kind {
        PlaceKind::Local(local) => {
            if crate::seqs::vec_contains(visited, *local) {
                return copy_place(place);
            }
            let ghost before = visited@;
            visited.push(*local);
            if let Some(src) = move_sources.get(*local) {
                proof {
                    let k = choose|k: int| 0 <= k < map_keys(*move_sources).len() && map_keys(*move_sources)[k] == *local;
                    assert(keys[k] == *local);
                    lemma_unvisited_push(keys, before, *local);
                }
                return resolve_place(src, move_sources, ref_places, visited);
            }
            if let Some(src) = ref_places.get(*local) {
                proof {
                    let k = choose|k: int| 0 <= k < map_keys(*ref_places).len() && map_keys(*ref_places)[k] == *local;
                    assert(keys[map_keys(*move_sources).len() + k] == *local);
                    lemma_unvisited_push(keys, before, *local);
                }
                return resolve_place(src, move_sources, ref_places, visited);
            }
            copy_place(place)
        },
        PlaceKind::Projection(inner, elem) => {
            let resolved_inner = resolve_place(inner, move_sources, ref_places, visited);
            Place {
                kind: PlaceKind::Projection(Box::new(resolved_inner), *elem),
                ty: crate::lockbud::ullbc::copy_ty(&place.ty),
            }
        },
        PlaceKind::Global(_) => copy_place(place),
    }
}


// ---------------------------------------------------------------------------
// Updating what is known of a function's guards
// ---------------------------------------------------------------------------

/// The guards of one function, by local.
type GuardList = Vec<(LocalId, LockGuardInfo)>;

/// The entries agree but for entry `i`, whose local is kept.
spec fn others_kept(a: Seq<(LocalId, LockGuardInfo)>, b: Seq<(LocalId, LockGuardInfo)>, i: int) -> bool {
    &&& a.len() == b.len()
    &&& forall|k: int| 0 <= k < a.len() && k != i ==> a[k] == b[k]
    &&& a[i].0 == b[i].0
}

/// Records an acquisition of guard `i` at `loc`.
fn add_gen(guards: &mut GuardList, i: usize, loc: Location)
    requires
        i < old(guards)@.len(),
    ensures
        others_kept(final(guards)@, old(guards)@, i as int),
        final(guards)@[i as int].1 == (LockGuardInfo {
            gen_locs: final(guards)@[i as int].1.gen_locs,
            ..old(guards)@[i as int].1
        }),
        final(guards)@[i as int].1.gen_locs@ == old(guards)@[i as int].1.gen_locs@.push(loc),
{
    let (l, mut info) = guards.remove(i);
    info.gen_locs.push(loc);
    guards.insert(i, (l, info));
}

/// Records a release of guard `i` at `loc`.
fn add_kill(guards: &mut GuardList, i: usize, loc: Location)
    requires
        i < old(guards)@.len(),
    ensures
        others_kept(final(guards)@, old(guards)@, i as int),
        final(guards)@[i as int].1 == (LockGuardInfo {
            kill_locs: final(guards)@[i as int].1.kill_locs,
            ..old(guards)@[i as int].1
        }),
        final(guards)@[i as int].1.kill_locs@ == old(guards)@[i as int].1.kill_locs@.push(loc),
{
    let (l, mut info) = guards.remove(i);
    info.kill_locs.push(loc);
    guards.insert(i, (l, info));
}

/// Marks guard `i` as taken by a recursive read lock.
fn set_rec_read(guards: &mut GuardList, i: usize)
    requires
        i < old(guards)@.len(),
    ensures
        others_kept(final(guards)@, old(guards)@, i as int),
        final(guards)@[i as int].1 == (LockGuardInfo { is_recursive_read: true, ..old(guards)@[i as int].1 }),
{
    let (l, mut info) = guards.remove(i);
    info.is_recursive_read = true;
    guards.insert(i, (l, info));
}

/// Records `p` as the receiver of guard `i`'s lock call.
fn set_receiver(guards: &mut GuardList, i: usize, p: Place)
    requires
        i < old(guards)@.len(),
    ensures
        others_kept(final(guards)@, old(guards)@, i as int),
        final(guards)@[i as int].1 == (LockGuardInfo { receiver_place: Some(p), ..old(guards)@[i as int].1 }),
{
    let (l, mut info) = guards.remove(i);
    info.receiver_place = Some(p);
    guards.insert(i, (l, info));
}

/// Where the entry of guard `l` is, if it has one.
fn find_local(guards: &GuardList, l: LocalId) -> (r: Option<usize>)
    ensures
        match r {
            Some(i) => i < guards@.len() && guards@[i as int].0 == l,
            None => forall|k: int| 0 <= k < guards@.len() ==> (#[trigger] guards@[k]).0 != l,
        },
{
    let mut i: usize = 0;
    while i < guards.len()
        invariant
            i <= guards@.len(),
            forall|k: int| 0 <= k < i ==> (#[trigger] guards@[k]).0 != l,
        decreases guards@.len() - i,
    {
        if guards[i].0 == l {
            return Some(i);
        }
        i = i + 1;
    }
    None
}

/// The locals with an entry.
spec fn list_keys(guards: Seq<(LocalId, LockGuardInfo)>) -> Set<LocalId> {
    Set::new(|l: LocalId| exists|k: int| 0 <= k < guards.len() && (#[trigger] guards[k]).0 == l)
}

/// Each local has at most one entry.
spec fn list_unique(guards: Seq<(LocalId, LockGuardInfo)>) -> bool {
    forall|a: int, b: int| 0 <= a < b < guards.len() ==> (#[trigger] guards[a]).0 != (#[trigger] guards[b]).0
}

/// Entry `a` keeps the local, kind, span and alias of entry `s`.
spec fn entry_frame(a: (LocalId, LockGuardInfo), s: (LocalId, LockGuardInfo)) -> bool {
    &&& a.0 == s.0
    &&& a.1.lockguard_ty == s.1.lockguard_ty
    &&& a.1.span == s.1.span
    &&& a.1.alias_of == s.1.alias_of
}

/// What the walk has found of each guard after the first `b` blocks.
spec fn walked_blocks(
    krate: TranslatedCrate,
    blocks: Seq<BlockData>,
    guards: Seq<(LocalId, LockGuardInfo)>,
    start: Seq<(LocalId, LockGuardInfo)>,
    g: Set<LocalId>,
    b: int,
) -> bool {
    &&& guards.len() == start.len()
    &&& forall|k: int|
        0 <= k < guards.len() ==> {
            &&& entry_frame(#[trigger] guards[k], start[k])
            &&& guards[k].1.gen_locs@ == start[k].1.gen_locs@ + gens_in(krate, blocks.subrange(0, b), start[k].0, g)
            &&& guards[k].1.kill_locs@ == start[k].1.kill_locs@ + kills_in(blocks.subrange(0, b), start[k].0)
            &&& guards[k].1.is_recursive_read == (start[k].1.is_recursive_read || rec_read_in(krate, blocks.subrange(0, b), start[k].0))
        }
}

/// What the walk has found of each guard after the first `b` blocks and the first `j`
/// statements of block `b`.
spec fn walked_stmts(
    krate: TranslatedCrate,
    blocks: Seq<BlockData>,
    guards: Seq<(LocalId, LockGuardInfo)>,
    start: Seq<(LocalId, LockGuardInfo)>,
    g: Set<LocalId>,
    b: int,
    j: int,
) -> bool {
    &&& guards.len() == start.len()
    &&& forall|k: int|
        0 <= k < guards.len() ==> {
            &&& entry_frame(#[trigger] guards[k], start[k])
            &&& guards[k].1.gen_locs@ == start[k].1.gen_locs@ + gens_in(krate, blocks.subrange(0, b), start[k].0, g) + stmt_locs(
                b as usize,
                blocks[b].statements@.subrange(0, j),
                |s: Statement| stmt_gens(s, start[k].0, g),
            )
            &&& guards[k].1.kill_locs@ == start[k].1.kill_locs@ + kills_in(blocks.subrange(0, b), start[k].0) + stmt_locs(
                b as usize,
                blocks[b].statements@.subrange(0, j),
                |s: Statement| stmt_kills(s, start[k].0),
            )
            &&& guards[k].1.is_recursive_read == (start[k].1.is_recursive_read || rec_read_in(krate, blocks.subrange(0, b), start[k].0))
        }
}

/// The entry after a statement: acquired and released there as the statement says.
spec fn stmt_step(a: (LocalId, LockGuardInfo), b: (LocalId, LockGuardInfo), s: Statement, loc: Location, g: Set<LocalId>) -> bool {
    &&& b.0 == a.0
    &&& b.1.lockguard_ty == a.1.lockguard_ty
    &&& b.1.span == a.1.span
    &&& b.1.alias_of == a.1.alias_of
    &&& b.1.is_recursive_read == a.1.is_recursive_read
    &&& b.1.gen_locs@ == a.1.gen_locs@ + if stmt_gens(s, a.0, g) {
        seq![loc]
    } else {
        Seq::empty()
    }
    &&& b.1.kill_locs@ == a.1.kill_locs@ + if stmt_kills(s, a.0) {
        seq![loc]
    } else {
        Seq::empty()
    }
}

/// The entry after a terminator: acquired and released there as the terminator says.
spec fn term_step(a: (LocalId, LockGuardInfo), b: (LocalId, LockGuardInfo), k: TerminatorKind, loc: Location, krate: TranslatedCrate) -> bool {
    &&& b.0 == a.0
    &&& b.1.lockguard_ty == a.1.lockguard_ty
    &&& b.1.span == a.1.span
    &&& b.1.alias_of == a.1.alias_of
    &&& b.1.is_recursive_read == (a.1.is_recursive_read || term_rec_read(k, a.0, krate))
    &&& b.1.gen_locs@ == a.1.gen_locs@ + repeat_loc(loc, term_gen_count(k, a.0, krate))
    &&& b.1.kill_locs@ == a.1.kill_locs@ + if term_kills(k, a.0) {
        seq![loc]
    } else {
        Seq::empty()
    }
}

/// The borrows, moves and guard-holding containers seen so far in a body, by local.
struct Aliases {
    move_sources: PlaceMap,
    ref_places: PlaceMap,
    guard_containers: PlaceMap,
}

impl Aliases {
    /// The receiver that operand `arg` stands for: the place it reads, followed through
    /// moves and borrows, or the receiver of the guard or container it holds.
    fn resolve_arg_place(&self, arg: &Operand, guards: &GuardList) -> (r: Option<Place>)
        ensures
            arg is Const ==> r is None,
            !(arg is Const) ==> r is Some,
    {
        match arg {
            Operand::Copy(place) | Operand::Move(place) => {
                let mut visited: Vec<LocalId> = Vec::new();
                let resolved = resolve_place(place, &self.move_sources, &self.ref_places, &mut visited);
                if let Some(local) = resolved.local_id() {
                    if let Some(p) = self.guard_containers.get(local) {
                        let mut v2: Vec<LocalId> = Vec::new();
                        return Some(resolve_place(p, &self.move_sources, &self.ref_places, &mut v2));
                    }
                    if let Some(i) = find_local(guards, local) {
                        if let Some(rp) = &guards[i].1.receiver_place {
                            let mut v2: Vec<LocalId> = Vec::new();
                            return Some(resolve_place(rp, &self.move_sources, &self.ref_places, &mut v2));
                        }
                    }
                }
                Some(resolved)
            },
            Operand::Const(_) => None,
        }
    }
}

/// The entries agree but for entry `at` (none where it is out of range), whose acquisitions
/// grew by `gens` and releases by `kills`.
spec fn stepped(
    a: Seq<(LocalId, LockGuardInfo)>,
    b: Seq<(LocalId, LockGuardInfo)>,
    at: int,
    gens: Seq<Location>,
    kills: Seq<Location>,
) -> bool {
    &&& a.len() == b.len()
    &&& forall|k: int|
        0 <= k < a.len() ==> {
            &&& (#[trigger] b[k]).0 == a[k].0
            &&& b[k].1.lockguard_ty == a[k].1.lockguard_ty
            &&& b[k].1.span == a[k].1.span
            &&& b[k].1.alias_of == a[k].1.alias_of
            &&& b[k].1.is_recursive_read == a[k].1.is_recursive_read
            &&& b[k].1.gen_locs@ == a[k].1.gen_locs@ + if k == at {
                gens
            } else {
                Seq::empty()
            }
            &&& b[k].1.kill_locs@ == a[k].1.kill_locs@ + if k == at {
                kills
            } else {
                Seq::empty()
            }
        }
}

proof fn lemma_stepped_none(a: Seq<(LocalId, LockGuardInfo)>)
    ensures
        stepped(a, a, -1, Seq::empty(), Seq::empty()),
{
    assert forall|k: int| 0 <= k < a.len() implies a[k].1.gen_locs@ == a[k].1.gen_locs@ + Seq::<Location>::empty()
        && a[k].1.kill_locs@ == a[k].1.kill_locs@ + Seq::<Location>::empty() by {
        assert(a[k].1.gen_locs@ =~= a[k].1.gen_locs@ + Seq::<Location>::empty());
        assert(a[k].1.kill_locs@ =~= a[k].1.kill_locs@ + Seq::<Location>::empty());
    }
}

/// Records what a statement at `loc` does to the guards: acquisitions by assignment,
/// releases by moving out or ending storage; and the moves and borrows it makes.
fn process_statement(guards: &mut GuardList, aliases: &mut Aliases, st: &Statement, loc: Location, Ghost(g): Ghost<Set<LocalId>>)
    requires
        list_unique(old(guards)@),
        list_keys(old(guards)@) == g,
    ensures
        final(guards)@.len() == old(guards)@.len(),
        forall|k: int| 0 <= k < final(guards)@.len() ==> #[trigger] stmt_step(old(guards)@[k], final(guards)@[k], *st, loc, g),
{
    let ghost g0 = guards@;
    let ghost mut gen_at: int = -1;
    let ghost mut kill_at: int = -1;
    proof { lemma_stepped_none(g0); }
    match &st.kind {
        StatementKind::Assign(dest, rvalue) => {
            if let Some(dest_local) = dest.local_id() {
                match rvalue {
                    Rvalue::Use(Operand::Move(src)) | Rvalue::Use(Operand::Copy(src)) => {
                        aliases.move_sources.insert(dest_local, copy_place(src));
                        if let Some(src_local) = src.local_id() {
                            if let Some(p) = aliases.guard_containers.get(src_local) {
                                let q = copy_place(p);
                                aliases.guard_containers.insert(dest_local, q);
                            }
                        }
                    },
                    Rvalue::Ref(place) => {
                        aliases.ref_places.insert(dest_local, copy_place(place));
                    },
                    _ => {},
                }
                let is_alias = match rvalue {
                    Rvalue::Use(Operand::Move(src)) | Rvalue::Use(Operand::Copy(src)) => match src.local_id() {
                        Some(src_local) => find_local(guards, src_local).is_some(),
                        None => false,
                    },
                    _ => false,
                };
                assert(is_alias == alias_rvalue(*rvalue, g));
                if !is_alias {
                    if let Some(i) = find_local(guards, dest_local) {
                        add_gen(guards, i, loc);
                        match rvalue {
                            Rvalue::Use(Operand::Move(place)) => set_receiver(guards, i, copy_place(place)),
                            Rvalue::Ref(place) => set_receiver(guards, i, copy_place(place)),
                            _ => {},
                        }
                        proof {
                            gen_at = i as int;
                        }
                    }
                }
            }
            let ghost g1 = guards@;
            proof {
                assert(stepped(g0, g1, gen_at, seq![loc], Seq::empty())) by {
                    assert forall|k: int| 0 <= k < g0.len() implies g1[k].1.kill_locs@ == g0[k].1.kill_locs@ + Seq::<Location>::empty()
                        && (k != gen_at ==> g1[k].1.gen_locs@ == g0[k].1.gen_locs@ + Seq::<Location>::empty()) by {
                        assert(g1[k].1.kill_locs@ =~= g0[k].1.kill_locs@ + Seq::<Location>::empty());
                        if k != gen_at {
                            assert(g1[k].1.gen_locs@ =~= g0[k].1.gen_locs@ + Seq::<Location>::empty());
                        }
                    }
                }
            }
            if let Rvalue::Use(Operand::Move(src_place)) = rvalue {
                if let Some(src_local) = src_place.local_id() {
                    if let Some(i) = find_local(guards, src_local) {
                        add_kill(guards, i, loc);
                        proof {
                            kill_at = i as int;
                        }
                    }
                }
            }
            proof {
                assert forall|k: int| 0 <= k < guards@.len() implies #[trigger] stmt_step(g0[k], guards@[k], *st, loc, g) by {
                    let l = g0[k].0;
                    assert(g1[k].0 == l);
                    assert((k == gen_at) == stmt_gens(*st, l, g)) by {
                        if k == gen_at {
                            assert(g0[gen_at].0 == l);
                        }
                        if stmt_gens(*st, l, g) {
                            assert(g.contains(l) || !g.contains(l));
                        }
                    }
                    assert((k == kill_at) == stmt_kills(*st, l));
                    if k == kill_at {
                        assert(guards@[k].1.kill_locs@ == g1[k].1.kill_locs@.push(loc));
                    } else {
                        assert(guards@[k].1.kill_locs@ =~= g1[k].1.kill_locs@);
                    }
                }
            }
        },
        StatementKind::StorageDead(local) => {
            if let Some(i) = find_local(guards, *local) {
                add_kill(guards, i, loc);
                proof {
                    kill_at = i as int;
                }
            }
            proof {
                assert forall|k: int| 0 <= k < guards@.len() implies #[trigger] stmt_step(g0[k], guards@[k], *st, loc, g) by {
                    let l = g0[k].0;
                    assert((k == kill_at) == stmt_kills(*st, l));
                    if k == kill_at {
                        assert(guards@[k].1.kill_locs@ == g0[k].1.kill_locs@.push(loc));
                        assert(guards@[k].1.gen_locs@ =~= g0[k].1.gen_locs@ + Seq::<Location>::empty());
                    } else {
                        assert(guards@[k] == g0[k]);
                        assert(guards@[k].1.gen_locs@ =~= g0[k].1.gen_locs@ + Seq::<Location>::empty());
                        assert(guards@[k].1.kill_locs@ =~= g0[k].1.kill_locs@ + Seq::<Location>::empty());
                    }
                }
            }
        },
        StatementKind::Other => {
            proof {
                assert forall|k: int| 0 <= k < guards@.len() implies #[trigger] stmt_step(g0[k], guards@[k], *st, loc, g) by {
                    assert(guards@[k].1.gen_locs@ =~= g0[k].1.gen_locs@ + Seq::<Location>::empty());
                    assert(guards@[k].1.kill_locs@ =~= g0[k].1.kill_locs@ + Seq::<Location>::empty());
                }
            }
        },
    }
}

/// The receiver of the first argument of `args` that stands for one.
fn first_receiver(aliases: &Aliases, args: &Vec<Operand>, guards: &GuardList) -> (r: Option<Place>)
    ensures
        r is Some <==> exists|i: int| 0 <= i < args@.len() && !((#[trigger] args@[i]) is Const),
{
    let mut i: usize = 0;
    while i < args.len()
        invariant
            i <= args@.len(),
            forall|k: int| 0 <= k < i ==> (#[trigger] args@[k]) is Const,
        decreases args@.len() - i,
    {
        let r = aliases.resolve_arg_place(&args[i], guards);
        if r.is_some() {
            return r;
        }
        i = i + 1;
    }
    None
}

/// Records what a terminator at `loc` does to the guards: a call acquires the guard it
/// writes (recorded twice where it takes a lock), a drop releases one.
fn process_terminator(
    krate: &TranslatedCrate,
    guards: &mut GuardList,
    aliases: &mut Aliases,
    kind: &TerminatorKind,
    loc: Location,
    Ghost(g): Ghost<Set<LocalId>>,
)
    requires
        list_unique(old(guards)@),
        list_keys(old(guards)@) == g,
    ensures
        final(guards)@.len() == old(guards)@.len(),
        forall|k: int| 0 <= k < final(guards)@.len() ==> #[trigger] term_step(old(guards)@[k], final(guards)@[k], *kind, loc, *krate),
{
    let ghost g0 = guards@;
    match kind {
        TerminatorKind::Call { call, .. } => {
            let lock_recv = if call.args.len() > 0 {
                aliases.resolve_arg_place(&call.args[0], guards)
            } else {
                None
            };
            let resolved_recv = first_receiver(aliases, &call.args, guards);
            let lock = is_lock_call(&call.func, krate);
            let ghost mut at: int = -1;
            if lock {
                if let Some(d) = call.dest.local_id() {
                    match find_local(guards, d) {
                        Some(i) => {
                            add_gen(guards, i, loc);
                            if let Some(r) = lock_recv {
                                set_receiver(guards, i, r);
                            }
                            proof { at = i as int; }
                        },
                        None => {
                            if let Some(r) = lock_recv {
                                aliases.guard_containers.insert(d, r);
                            }
                        },
                    }
                }
            }
            let ghost g1 = guards@;
            let is_rec_read = is_read_recursive_call(&call.func, krate);
            let ghost mut at2: int = -1;
            if let Some(d) = call.dest.local_id() {
                match find_local(guards, d) {
                    Some(i) => {
                        add_gen(guards, i, loc);
                        if is_rec_read {
                            set_rec_read(guards, i);
                        }
                        if let Some(r) = resolved_recv {
                            set_receiver(guards, i, r);
                        }
                        proof { at2 = i as int; }
                    },
                    None => {
                        if let Some(r) = resolved_recv {
                            aliases.guard_containers.insert(d, r);
                        }
                    },
                }
            }
            proof {
                assert forall|k: int| 0 <= k < guards@.len() implies #[trigger] term_step(g0[k], guards@[k], *kind, loc, *krate) by {
                    let l = g0[k].0;
                    assert(g1[k].0 == l);
                    assert((k == at2) == (base_local(call.dest) == Some(l)));
                    assert((k == at) == (base_local(call.dest) == Some(l) && is_lock_call_spec(call.func, *krate)));
                    assert(guards@[k].1.kill_locs@ =~= g0[k].1.kill_locs@ + Seq::<Location>::empty());
                    if k == at2 {
                        if k == at {
                            assert(guards@[k].1.gen_locs@ =~= g0[k].1.gen_locs@ + repeat_loc(loc, 2));
                        } else {
                            assert(g1[k] == g0[k]);
                            assert(guards@[k].1.gen_locs@ =~= g0[k].1.gen_locs@ + repeat_loc(loc, 1));
                        }
                    } else {
                        assert(guards@[k] == g0[k]);
                        assert(guards@[k].1.gen_locs@ =~= g0[k].1.gen_locs@ + repeat_loc(loc, 0));
                    }
                }
            }
        },
        TerminatorKind::Drop { place, .. } => {
            let ghost mut at: int = -1;
            if let Some(local) = place.local_id() {
                if let Some(i) = find_local(guards, local) {
                    add_kill(guards, i, loc);
                    proof { at = i as int; }
                }
            }
            proof {
                assert forall|k: int| 0 <= k < guards@.len() implies #[trigger] term_step(g0[k], guards@[k], *kind, loc, *krate) by {
                    let l = g0[k].0;
                    assert((k == at) == (base_local(*place) == Some(l)));
                    assert(!term_rec_read(*kind, l, *krate));
                    assert(term_gen_count(*kind, l, *krate) == 0);
                    assert(guards@[k].1.gen_locs@ =~= g0[k].1.gen_locs@ + repeat_loc(loc, 0));
                    if k == at {
                        assert(guards@[k].1.kill_locs@ == g0[k].1.kill_locs@.push(loc));
                        assert(guards@[k].1.kill_locs@ =~= g0[k].1.kill_locs@ + seq![loc]);
                    } else {
                        assert(guards@[k] == g0[k]);
                        assert(guards@[k].1.kill_locs@ =~= g0[k].1.kill_locs@ + Seq::<Location>::empty());
                    }
                }
            }
        },
        _ => {
            proof {
                assert forall|k: int| 0 <= k < guards@.len() implies #[trigger] term_step(g0[k], guards@[k], *kind, loc, *krate) by {
                    assert(guards@[k].1.gen_locs@ =~= g0[k].1.gen_locs@ + repeat_loc(loc, 0));
                    assert(guards@[k].1.kill_locs@ =~= g0[k].1.kill_locs@ + Seq::<Location>::empty());
                }
            }
        },
    }
}

/// Walks the blocks of `body`, recording where each guard is acquired and released.
fn walk_body(krate: &TranslatedCrate, body: &ExprBody, guards: &mut GuardList, aliases: &mut Aliases, Ghost(g): Ghost<Set<LocalId>>)
    requires
        list_unique(old(guards)@),
        list_keys(old(guards)@) == g,
    ensures
        list_unique(final(guards)@),
        list_keys(final(guards)@) == g,
        walked_blocks(*krate, body.body@, final(guards)@, old(guards)@, g, body.body@.len() as int),
{
    let ghost start = guards@;
    let ghost blocks = body.body@;
    proof {
        assert forall|k: int| 0 <= k < guards@.len() implies {
            &&& entry_frame(#[trigger] guards@[k], start[k])
            &&& guards@[k].1.gen_locs@ == start[k].1.gen_locs@ + gens_in(*krate, blocks.subrange(0, 0), start[k].0, g)
            &&& guards@[k].1.kill_locs@ == start[k].1.kill_locs@ + kills_in(blocks.subrange(0, 0), start[k].0)
            &&& guards@[k].1.is_recursive_read == (start[k].1.is_recursive_read || rec_read_in(*krate, blocks.subrange(0, 0), start[k].0))
        } by {
            assert(guards@[k].1.gen_locs@ =~= start[k].1.gen_locs@ + Seq::<Location>::empty());
            assert(guards@[k].1.kill_locs@ =~= start[k].1.kill_locs@ + Seq::<Location>::empty());
        }
    }
    let mut b: usize = 0;
    while b < body.body.len()
        invariant
            blocks == body.body@,
            b <= blocks.len(),
            list_unique(guards@),
            list_keys(guards@) == g,
            walked_blocks(*krate, blocks, guards@, start, g, b as int),
        decreases blocks.len() - b,
    {
        let bb = &body.body[b];
        proof {
            assert forall|k: int| 0 <= k < guards@.len() implies {
                &&& entry_frame(#[trigger] guards@[k], start[k])
                &&& guards@[k].1.gen_locs@ == start[k].1.gen_locs@ + gens_in(*krate, blocks.subrange(0, b as int), start[k].0, g) + stmt_locs(
                    b,
                    blocks[b as int].statements@.subrange(0, 0),
                    |s: Statement| stmt_gens(s, start[k].0, g),
                )
                &&& guards@[k].1.kill_locs@ == start[k].1.kill_locs@ + kills_in(blocks.subrange(0, b as int), start[k].0) + stmt_locs(
                    b,
                    blocks[b as int].statements@.subrange(0, 0),
                    |s: Statement| stmt_kills(s, start[k].0),
                )
                &&& guards@[k].1.is_recursive_read == (start[k].1.is_recursive_read || rec_read_in(*krate, blocks.subrange(0, b as int), start[k].0))
            } by {
                let x = stmt_locs(b, blocks[b as int].statements@.subrange(0, 0), |s: Statement| stmt_gens(s, start[k].0, g));
                let y = stmt_locs(b, blocks[b as int].statements@.subrange(0, 0), |s: Statement| stmt_kills(s, start[k].0));
                assert(x =~= Seq::<Location>::empty());
                assert(y =~= Seq::<Location>::empty());
                assert(guards@[k].1.gen_locs@ =~= guards@[k].1.gen_locs@ + x);
                assert(guards@[k].1.kill_locs@ =~= guards@[k].1.kill_locs@ + y);
            }
        }
        let mut j: usize = 0;
        while j < bb.statements.len()
            invariant
                blocks == body.body@,
                b < blocks.len(),
                *bb == blocks[b as int],
                j <= bb.statements@.len(),
                list_unique(guards@),
                list_keys(guards@) == g,
                walked_stmts(*krate, blocks, guards@, start, g, b as int, j as int),
            decreases bb.statements@.len() - j,
        {
            let ghost before = guards@;
            let loc = Location::new(b, j);
            process_statement(guards, aliases, &bb.statements[j], loc, Ghost(g));
            proof {
                let stmts = bb.statements@;
                assert(stmts.subrange(0, j + 1).drop_last() =~= stmts.subrange(0, j as int));
                assert(stmts.subrange(0, j + 1).last() == stmts[j as int]);
                assert forall|k: int| 0 <= k < guards@.len() implies (#[trigger] guards@[k]).0 == before[k].0 by {
                    assert(stmt_step(before[k], guards@[k], stmts[j as int], loc, g));
                }
                lemma_list_same_keys(before, guards@);
                assert forall|k: int| 0 <= k < guards@.len() implies {
                    &&& entry_frame(#[trigger] guards@[k], start[k])
                    &&& guards@[k].1.gen_locs@ == start[k].1.gen_locs@ + gens_in(*krate, blocks.subrange(0, b as int), start[k].0, g) + stmt_locs(
                        b,
                        stmts.subrange(0, j + 1),
                        |s: Statement| stmt_gens(s, start[k].0, g),
                    )
                    &&& guards@[k].1.kill_locs@ == start[k].1.kill_locs@ + kills_in(blocks.subrange(0, b as int), start[k].0) + stmt_locs(
                        b,
                        stmts.subrange(0, j + 1),
                        |s: Statement| stmt_kills(s, start[k].0),
                    )
                    &&& guards@[k].1.is_recursive_read == (start[k].1.is_recursive_read || rec_read_in(*krate, blocks.subrange(0, b as int), start[k].0))
                } by {
                    assert(stmt_step(before[k], guards@[k], stmts[j as int], loc, g));
                    assert(entry_frame(before[k], start[k]));
                    let l = start[k].0;
                    let a = start[k].1.gen_locs@ + gens_in(*krate, blocks.subrange(0, b as int), l, g);
                    assert(guards@[k].1.gen_locs@ =~= a + stmt_locs(b, stmts.subrange(0, j + 1), |s: Statement| stmt_gens(s, l, g)));
                    let c = start[k].1.kill_locs@ + kills_in(blocks.subrange(0, b as int), l);
                    assert(guards@[k].1.kill_locs@ =~= c + stmt_locs(b, stmts.subrange(0, j + 1), |s: Statement| stmt_kills(s, l)));
                }
            }
            j = j + 1;
        }
        let ghost before = guards@;
        let loc = Location::new(b, bb.statements.len());
        process_terminator(krate, guards, aliases, &bb.terminator.kind, loc, Ghost(g));
        proof {
            let stmts = bb.statements@;
            assert(stmts.subrange(0, stmts.len() as int) =~= stmts);
            assert(blocks.subrange(0, b + 1).drop_last() =~= blocks.subrange(0, b as int));
            assert(blocks.subrange(0, b + 1).last() == *bb);
            assert forall|k: int| 0 <= k < guards@.len() implies (#[trigger] guards@[k]).0 == before[k].0 by {
                assert(term_step(before[k], guards@[k], bb.terminator.kind, loc, *krate));
            }
            lemma_list_same_keys(before, guards@);
            assert forall|k: int| 0 <= k < guards@.len() implies {
                &&& entry_frame(#[trigger] guards@[k], start[k])
                &&& guards@[k].1.gen_locs@ == start[k].1.gen_locs@ + gens_in(*krate, blocks.subrange(0, b + 1), start[k].0, g)
                &&& guards@[k].1.kill_locs@ == start[k].1.kill_locs@ + kills_in(blocks.subrange(0, b + 1), start[k].0)
                &&& guards@[k].1.is_recursive_read == (start[k].1.is_recursive_read || rec_read_in(*krate, blocks.subrange(0, b + 1), start[k].0))
            } by {
                assert(term_step(before[k], guards@[k], bb.terminator.kind, loc, *krate));
                assert(entry_frame(before[k], start[k]));
                let l = start[k].0;
                assert(guards@[k].1.gen_locs@ =~= start[k].1.gen_locs@ + gens_in(*krate, blocks.subrange(0, b + 1), l, g));
                assert(guards@[k].1.kill_locs@ =~= start[k].1.kill_locs@ + kills_in(blocks.subrange(0, b + 1), l));
                assert(rec_read_in(*krate, blocks.subrange(0, b + 1), l) == (rec_read_in(*krate, blocks.subrange(0, b as int), l)
                    || term_rec_read(bb.terminator.kind, l, *krate))) by {
                    let pre = blocks.subrange(0, b as int);
                    let post = blocks.subrange(0, b + 1);
                    if rec_read_in(*krate, post, l) {
                        let x = choose|x: int| 0 <= x < post.len() && term_rec_read((#[trigger] post[x]).terminator.kind, l, *krate);
                        if x < b {
                            assert(pre[x] == post[x]);
                        }
                    }
                    if rec_read_in(*krate, pre, l) {
                        let x = choose|x: int| 0 <= x < pre.len() && term_rec_read((#[trigger] pre[x]).terminator.kind, l, *krate);
                        assert(post[x] == pre[x]);
                    }
                    if term_rec_read(bb.terminator.kind, l, *krate) {
                        assert(post[b as int] == *bb);
                    }
                }
            }
        }
        b = b + 1;
    }
}

/// Two lists with the same locals in the same order have the same keys and uniqueness.
proof fn lemma_list_same_keys(a: Seq<(LocalId, LockGuardInfo)>, b: Seq<(LocalId, LockGuardInfo)>)
    requires
        a.len() == b.len(),
        forall|k: int| 0 <= k < a.len() ==> (#[trigger] b[k]).0 == a[k].0,
    ensures
        list_keys(a) == list_keys(b),
        list_unique(a) ==> list_unique(b),
{
    assert forall|l: LocalId| list_keys(a).contains(l) <==> list_keys(b).contains(l) by {
        if list_keys(a).contains(l) {
            let k = choose|k: int| 0 <= k < a.len() && (#[trigger] a[k]).0 == l;
            assert(b[k].0 == l);
        }
        if list_keys(b).contains(l) {
            let k = choose|k: int| 0 <= k < b.len() && (#[trigger] b[k]).0 == l;
            assert(a[k].0 == l);
        }
    }
    assert(list_keys(a) =~= list_keys(b));
    if list_unique(a) {
        assert forall|x: int, y: int| 0 <= x < y < b.len() implies (#[trigger] b[x]).0 != (#[trigger] b[y]).0 by {
            assert(a[x].0 != a[y].0);
        }
    }
}

/// The guards of `body`, and what is known of each.
fn collect_function(krate: &TranslatedCrate, body: &ExprBody) -> (r: GuardList)
    ensures
        list_unique(r@),
        list_keys(r@) == guard_locals(*krate, *body),
        forall|k: int| 0 <= k < r@.len() ==> #[trigger] guard_facts(*krate, *body, r@[k].0, r@[k].1),
{
    let ghost g = guard_locals(*krate, *body);
    let mut guards: GuardList = Vec::new();
    let mut l: usize = 0;
    while l < body.locals.len()
        invariant
            l <= body.locals@.len(),
            list_unique(guards@),
            list_keys(guards@) == Set::new(|x: LocalId| x < l && guard_from_ty(body.locals@[x as int].ty, *krate) is Some),
            forall|k: int| 0 <= k < guards@.len() ==> (#[trigger] guards@[k]).0 < l,
            forall|k: int| 0 <= k < guards@.len() ==> {
                let (x, info) = #[trigger] guards@[k];
                &&& x < body.locals@.len()
                &&& guard_from_ty(body.locals@[x as int].ty, *krate) == Some(info.lockguard_ty)
                &&& info.span == body.locals@[x as int].span
                &&& info.gen_locs@.len() == 0
                &&& info.kill_locs@.len() == 0
                &&& !info.is_recursive_read
                &&& info.alias_of is None
            },
        decreases body.locals@.len() - l,
    {
        let ghost before = guards@;
        if let Some(t) = LockGuardTy::from_ty(&body.locals[l].ty, krate) {
            guards.push((l, LockGuardInfo::new(t, body.locals[l].span)));
            proof {
                assert forall|a: int, b: int| 0 <= a < b < guards@.len() implies (#[trigger] guards@[a]).0 != (#[trigger] guards@[b]).0 by {
                    if b == before.len() {
                        assert(before[a].0 < l);
                    }
                }
            }
        }
        proof {
            assert(list_keys(guards@) =~= Set::new(|x: LocalId| x < l + 1 && guard_from_ty(body.locals@[x as int].ty, *krate) is Some)) by {
                assert forall|x: LocalId| list_keys(guards@).contains(x) <==> (x < l + 1 && guard_from_ty(body.locals@[x as int].ty, *krate) is Some) by {
                    if list_keys(guards@).contains(x) {
                        let k = choose|k: int| 0 <= k < guards@.len() && (#[trigger] guards@[k]).0 == x;
                        if k < before.len() {
                            assert(list_keys(before).contains(x));
                        }
                    }
                    if x < l + 1 && guard_from_ty(body.locals@[x as int].ty, *krate) is Some {
                        if x < l {
                            assert(list_keys(before).contains(x));
                            let k = choose|k: int| 0 <= k < before.len() && (#[trigger] before[k]).0 == x;
                            assert(guards@[k].0 == x);
                        } else {
                            assert(guards@[guards@.len() - 1].0 == x);
                        }
                    }
                }
            }
        }
        l = l + 1;
    }
    proof {
        assert(list_keys(guards@) =~= g);
    }
    let ghost start = guards@;
    let mut aliases = Aliases { move_sources: PlaceMap::new(), ref_places: PlaceMap::new(), guard_containers: PlaceMap::new() };
    walk_body(krate, body, &mut guards, &mut aliases, Ghost(g));
    let ghost walked_list = guards@;
    proof {
        assert(body.body@.subrange(0, body.body@.len() as int) =~= body.body@);
    }
    let mut i: usize = 0;
    while i < guards.len()
        invariant
            i <= guards@.len(),
            guards@.len() == walked_list.len(),
            forall|k: int| 0 <= k < guards@.len() ==> (#[trigger] guards@[k]).1 == (LockGuardInfo {
                receiver_place: guards@[k].1.receiver_place,
                ..walked_list[k].1
            }) && guards@[k].0 == walked_list[k].0,
        decreases guards@.len() - i,
    {
        let resolved = match &guards[i].1.receiver_place {
            Some(rp) => {
                let mut visited: Vec<LocalId> = Vec::new();
                Some(resolve_place(rp, &aliases.move_sources, &aliases.ref_places, &mut visited))
            },
            None => None,
        };
        if let Some(r) = resolved {
            set_receiver(&mut guards, i, r);
        }
        i = i + 1;
    }
    proof {
        lemma_list_same_keys(walked_list, guards@);
        assert forall|k: int| 0 <= k < guards@.len() implies #[trigger] guard_facts(*krate, *body, guards@[k].0, guards@[k].1) by {
            let e = walked_list[k];
            assert(entry_frame(e, start[k]));
            assert(start[k].1.gen_locs@.len() == 0);
            assert(e.1.gen_locs@ =~= gens_in(*krate, body.body@, start[k].0, g));
            assert(e.1.kill_locs@ =~= kills_in(body.body@, start[k].0));
        }
    }
    guards
}

/// The body of function `f` when it is a local function with a body.
pub open spec fn local_body(krate: TranslatedCrate, f: int) -> Option<ExprBody> {
    match krate.fun_decl(f) {
        Some(d) => if d.is_local {
            d.body
        } else {
            None
        },
        None => None,
    }
}

/// Finds the lock guards of the local functions of a crate.
pub struct LockGuardCollector<'a> {
    crate_data: &'a TranslatedCrate,
    pub lockguards: LockGuardMap,
}

impl<'a> LockGuardCollector<'a> {
    /// The crate this collector reads.
    pub closed spec fn krate(&self) -> TranslatedCrate {
        *self.crate_data
    }

    /// The guards found so far.
    pub closed spec fn guards(&self) -> LockGuardMap {
        self.lockguards
    }

    /// The guards found so far.
    pub fn into_lockguards(self) -> (r: LockGuardMap)
        ensures
            r == self.guards(),
    {
        self.lockguards
    }

    /// A collector for `crate_data` that has found nothing yet.
    pub fn new(crate_data: &'a TranslatedCrate) -> (r: Self)
        ensures
            r.krate() == *crate_data,
            r.guards().wf(),
            r.guards().entries@.len() == 0,
    {
        Self { crate_data, lockguards: LockGuardMap::new() }
    }

    /// Records, for each local of each local function whose type is a lock guard, the
    /// guard's kind and span, where it is acquired and released, and whether by a recursive
    /// read lock; what was recorded of other guards is kept.
    pub fn collect(&mut self)
        requires
            old(self).guards().wf(),
        ensures
            final(self).krate() == old(self).krate(),
            final(self).guards().wf(),
            forall|id: LockGuardId| #[trigger] final(self).guards().has(id) == (old(self).guards().has(id)
                || collected(old(self).krate(), id)),
            forall|id: LockGuardId| #[trigger] final(self).guards().has(id) ==> if collected(old(self).krate(), id) {
                guard_facts(old(self).krate(), local_body(old(self).krate(), id.fun_id as int)->0, id.local, final(self).guards().info(id))
            } else {
                final(self).guards().info(id) == old(self).guards().info(id)
            },
    {
        let krate = self.crate_data;
        let mut f: usize = 0;
        while f < krate.fun_decls.len()
            invariant
                f <= krate.fun_decls@.len(),
                self.crate_data == krate,
                self.lockguards.wf(),
                forall|id: LockGuardId| #[trigger] self.lockguards.has(id) == (old(self).lockguards.has(id)
                    || (id.fun_id < f && collected(*krate, id))),
                forall|id: LockGuardId| #[trigger] self.lockguards.has(id) ==> if id.fun_id < f && collected(*krate, id) {
                    guard_facts(*krate, local_body(*krate, id.fun_id as int)->0, id.local, self.lockguards.info(id))
                } else {
                    self.lockguards.info(id) == old(self).lockguards.info(id)
                },
            decreases krate.fun_decls@.len() - f,
        {
            if let Some(decl) = &krate.fun_decls[f] {
                if decl.is_local {
                    if let Some(body) = &decl.body {
                        assert(local_body(*krate, f as int) == Some(*body));
                        let found = collect_function(krate, body);
                        let mut k: usize = 0;
                        while k < found.len()
                            invariant
                                k <= found@.len(),
                                f < krate.fun_decls@.len(),
                                self.crate_data == krate,
                                local_body(*krate, f as int) == Some(*body),
                                list_unique(found@),
                                list_keys(found@) == guard_locals(*krate, *body),
                                forall|m: int| 0 <= m < found@.len() ==> #[trigger] guard_facts(*krate, *body, found@[m].0, found@[m].1),
                                self.lockguards.wf(),
                                forall|id: LockGuardId| #[trigger] self.lockguards.has(id) == (old(self).lockguards.has(id)
                                    || (id.fun_id < f && collected(*krate, id))
                                    || (id.fun_id == f && exists|m: int| 0 <= m < k && (#[trigger] found@[m]).0 == id.local)),
                                forall|id: LockGuardId| #[trigger] self.lockguards.has(id) ==> if id.fun_id < f && collected(*krate, id) {
                                    guard_facts(*krate, local_body(*krate, id.fun_id as int)->0, id.local, self.lockguards.info(id))
                                } else if id.fun_id == f && exists|m: int| 0 <= m < k && (#[trigger] found@[m]).0 == id.local {
                                    guard_facts(*krate, *body, id.local, self.lockguards.info(id))
                                } else {
                                    self.lockguards.info(id) == old(self).lockguards.info(id)
                                },
                            decreases found@.len() - k,
                        {
                            let local = found[k].0;
                            let copied = copy_info(&found[k].1);
                            let id = LockGuardId::new(f, local);
                            self.lockguards.insert(id, copied);
                            proof {
                                assert(guard_facts(*krate, *body, found@[k as int].0, found@[k as int].1));
                                assert forall|j: LockGuardId| #[trigger] self.lockguards.has(j) == (old(self).lockguards.has(j)
                                    || (j.fun_id < f && collected(*krate, j))
                                    || (j.fun_id == f && exists|m: int| 0 <= m < k + 1 && (#[trigger] found@[m]).0 == j.local)) by {
                                    if j == id {
                                        assert(found@[k as int].0 == j.local);
                                    } else if j.fun_id == f {
                                        if exists|m: int| 0 <= m < k + 1 && (#[trigger] found@[m]).0 == j.local {
                                            let m = choose|m: int| 0 <= m < k + 1 && (#[trigger] found@[m]).0 == j.local;
                                            assert(m < k);
                                        }
                                    }
                                }
                                assert forall|j: LockGuardId| #[trigger] self.lockguards.has(j) implies if j.fun_id < f && collected(*krate, j) {
                                    guard_facts(*krate, local_body(*krate, j.fun_id as int)->0, j.local, self.lockguards.info(j))
                                } else if j.fun_id == f && exists|m: int| 0 <= m < k + 1 && (#[trigger] found@[m]).0 == j.local {
                                    guard_facts(*krate, *body, j.local, self.lockguards.info(j))
                                } else {
                                    self.lockguards.info(j) == old(self).lockguards.info(j)
                                } by {
                                    if j != id {
                                        if j.fun_id == f && exists|m: int| 0 <= m < k + 1 && (#[trigger] found@[m]).0 == j.local {
                                            let m = choose|m: int| 0 <= m < k + 1 && (#[trigger] found@[m]).0 == j.local;
                                            assert(m < k);
                                        }
                                    }
                                }
                            }
                            k = k + 1;
                        }
                        proof {
                            assert forall|id: LockGuardId| id.fun_id == f implies (collected(*krate, id)
                                <==> exists|m: int| 0 <= m < found@.len() && (#[trigger] found@[m]).0 == id.local) by {
                                assert(list_keys(found@).contains(id.local) == guard_locals(*krate, *body).contains(id.local));
                            }
                        }
                    }
                }
            }
            proof {
                assert forall|id: LockGuardId| id.fun_id == f && !(local_body(*krate, f as int) is Some) implies !collected(*krate, id) by {}
            }
            f = f + 1;
        }
    }
}

/// Guard `id` is one that collection finds: a local of a local function's body whose type is
/// a lock guard.
pub open spec fn collected(krate: TranslatedCrate, id: LockGuardId) -> bool {
    match local_body(krate, id.fun_id as int) {
        Some(body) => guard_locals(krate, body).contains(id.local),
        None => false,
    }
}

/// A copy of what is known of a guard.
fn copy_info(info: &LockGuardInfo) -> (r: LockGuardInfo)
    ensures
        r.lockguard_ty == info.lockguard_ty,
        r.span == info.span,
        r.gen_locs@ == info.gen_locs@,
        r.kill_locs@ == info.kill_locs@,
        r.receiver_place == info.receiver_place,
        r.is_recursive_read == info.is_recursive_read,
        r.alias_of == info.alias_of,
{
    let mut gens: Vec<Location> = Vec::new();
    let mut i: usize = 0;
    while i < info.gen_locs.len()
        invariant
            i <= info.gen_locs@.len(),
            gens@ == info.gen_locs@.subrange(0, i as int),
        decreases info.gen_locs@.len() - i,
    {
        gens.push(info.gen_locs[i]);
        i = i + 1;
    }
    let mut kills: Vec<Location> = Vec::new();
    let mut j: usize = 0;
    while j < info.kill_locs.len()
        invariant
            j <= info.kill_locs@.len(),
            kills@ == info.kill_locs@.subrange(0, j as int),
        decreases info.kill_locs@.len() - j,
    {
        kills.push(info.kill_locs[j]);
        j = j + 1;
    }
    assert(gens@ =~= info.gen_locs@);
    assert(kills@ =~= info.kill_locs@);
    LockGuardInfo {
        lockguard_ty: info.lockguard_ty.copy(),
        span: info.span,
        gen_locs: gens,
        kill_locs: kills,
        receiver_place: match &info.receiver_place {
            Some(p) => Some(copy_place(p)),
            None => None,
        },
        is_recursive_read: info.is_recursive_read,
        alias_of: info.alias_of,
    }
}

} // verus!
