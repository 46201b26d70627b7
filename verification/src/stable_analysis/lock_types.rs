//! Lock guards, their types, and where in a body each is held.

use vstd::prelude::*;
use core::cmp::Ordering;

use crate::stable_mir::mir::operand::operand_ty_spec;
use crate::stable_mir::mir::place::{copy_place, place_ty_spec};
use crate::stable_mir::mir::statement::NonDivergingIntrinsic;
use crate::stable_mir::mir::terminator::InlineAsmOperand;
use crate::stable_mir::mir::{
    AssertMessage, BasicBlock, BasicBlockIdx, Body, Instance, Local, LocalDecl, Operand, Place, Rvalue, Statement,
    StatementKind, TerminatorKind,
};
use crate::stable_mir::ty::{RigidTy, Ty, TyKind, TyTable};
use crate::text::{
    append_indented, append_numbered, chars_of, has_sub, indented, numbered, push_decimal, seq_before_char,
    str_has_sub, vec_has, views,
};

verus! {

broadcast use {vstd::seq_lib::lemma_seq_contains_after_push, vstd::seq::Seq::lemma_push_to_set_commute};

/// A point of a body: a block, and a statement in it.
#[derive(Clone, Copy, Debug, PartialEq, Eq, Structural, Hash, Ord)]
pub struct MirLocation {
    pub block: BasicBlockIdx,
    pub statement_index: usize,
}

/// `a` comes no later than `b`: by block first, then by statement.
pub open spec fn loc_le(a: MirLocation, b: MirLocation) -> bool {
    a.block < b.block || (a.block == b.block && a.statement_index <= b.statement_index)
}

/// How `a` and `b` compare: by block first, then by statement.
pub open spec fn loc_order(a: MirLocation, b: MirLocation) -> Ordering {
    if a == b {
        Ordering::Equal
    } else if loc_le(a, b) {
        Ordering::Less
    } else {
        Ordering::Greater
    }
}

impl MirLocation {
    /// Statement `statement_index` of block `block`.
    pub fn new(block: BasicBlockIdx, statement_index: usize) -> (r: Self)
        ensures
            r == (MirLocation { block, statement_index }),
    {
        Self { block, statement_index }
    }

    /// Whether this location comes no later than `other`.
    pub fn le(&self, other: &Self) -> (r: bool)
        ensures
            r == loc_le(*self, *other),
    {
        self.block < other.block || (self.block == other.block && self.statement_index <= other.statement_index)
    }
}

impl PartialOrd for MirLocation {
    fn partial_cmp(&self, other: &Self) -> (r: Option<Ordering>) {
        if self.block == other.block && self.statement_index == other.statement_index {
            Some(Ordering::Equal)
        } else if self.le(other) {
            Some(Ordering::Less)
        } else {
            Some(Ordering::Greater)
        }
    }
}

impl vstd::std_specs::cmp::PartialOrdSpecImpl for MirLocation {
    open spec fn obeys_partial_cmp_spec() -> bool {
        true
    }

    open spec fn partial_cmp_spec(&self, other: &Self) -> Option<Ordering> {
        Some(loc_order(*self, *other))
    }
}

/// The order of locations is total and antisymmetric, and agrees with itself when the
/// arguments are swapped.
pub proof fn lemma_loc_order_total(a: MirLocation, b: MirLocation, c: MirLocation)
    ensures
        loc_le(a, b) || loc_le(b, a),
        loc_le(a, b) && loc_le(b, a) ==> a == b,
        loc_le(a, b) && loc_le(b, c) ==> loc_le(a, c),
        loc_order(a, b) == Ordering::Less <==> loc_order(b, a) == Ordering::Greater,
        loc_order(a, b) == Ordering::Equal <==> a == b,
{
}

/// Two instances are the same: the same function with the same arguments.
pub open spec fn same_instance(a: Instance, b: Instance) -> bool {
    a.def == b.def && a.args@ == b.args@
}

/// Whether `a` and `b` are the same instance.
pub fn instance_eq(a: &Instance, b: &Instance) -> (r: bool)
    ensures
        r == same_instance(*a, *b),
{
    if a.def != b.def || a.args.len() != b.args.len() {
        return false;
    }
    let mut i: usize = 0;
    while i < a.args.len()
        invariant
            a.args@.len() == b.args@.len(),
            i <= a.args@.len(),
            forall|k: int| 0 <= k < i ==> a.args@[k] == b.args@[k],
        decreases a.args@.len() - i,
    {
        if a.args[i] != b.args[i] {
            return false;
        }
        i = i + 1;
    }
    assert(a.args@ =~= b.args@);
    true
}

/// A copy of an instance.
pub fn copy_instance(a: &Instance) -> (r: Instance)
    ensures
        same_instance(r, *a),
{
    let mut args: Vec<Ty> = Vec::new();
    let mut i: usize = 0;
    while i < a.args.len()
        invariant
            i <= a.args@.len(),
            args@ == a.args@.subrange(0, i as int),
        decreases a.args@.len() - i,
    {
        args.push(a.args[i]);
        i = i + 1;
    }
    assert(args@ =~= a.args@);
    Instance::new(a.def, args)
}

/// A lock guard: a local of an instance.
#[derive(Clone, Debug)]
pub struct LockGuardId {
    pub instance: Instance,
    pub local: Local,
}

impl LockGuardId {
    /// The guard held in `local` of `instance`.
    pub fn new(instance: Instance, local: Local) -> (r: Self)
        ensures
            r.instance == instance,
            r.local == local,
    {
        Self { instance, local }
    }
}

/// Two guard ids name the same guard.
pub open spec fn same_guard(a: LockGuardId, b: LockGuardId) -> bool {
    same_instance(a.instance, b.instance) && a.local == b.local
}

/// The kind of a lock guard, with the type of the data it protects.
#[derive(Clone, Copy, Debug, PartialEq, Eq, Structural)]
pub enum LockGuardTy {
    StdMutex(Ty),
    ParkingLotMutex(Ty),
    SpinMutex(Ty),
    StdRwLockRead(Ty),
    StdRwLockWrite(Ty),
    ParkingLotRead(Ty),
    ParkingLotWrite(Ty),
    SpinRead(Ty),
    SpinWrite(Ty),
}

/// The type of the data that a guard protects.
pub open spec fn guard_data(g: LockGuardTy) -> Ty {
    match g {
        LockGuardTy::StdMutex(t) => t,
        LockGuardTy::ParkingLotMutex(t) => t,
        LockGuardTy::SpinMutex(t) => t,
        LockGuardTy::StdRwLockRead(t) => t,
        LockGuardTy::StdRwLockWrite(t) => t,
        LockGuardTy::ParkingLotRead(t) => t,
        LockGuardTy::ParkingLotWrite(t) => t,
        LockGuardTy::SpinRead(t) => t,
        LockGuardTy::SpinWrite(t) => t,
    }
}

/// The printed name of a guard kind, without its data type.
pub open spec fn guard_head(g: LockGuardTy) -> Seq<char> {
    match g {
        LockGuardTy::StdMutex(_) | LockGuardTy::ParkingLotMutex(_) | LockGuardTy::SpinMutex(_) => "MutexGuard<"@,
        LockGuardTy::StdRwLockRead(_) | LockGuardTy::ParkingLotRead(_) | LockGuardTy::SpinRead(_) => "RwLockReadGuard<"@,
        _ => "RwLockWriteGuard<"@,
    }
}

/// Two types are the same when the session prints them alike.
pub open spec fn same_ty_text(table: TyTable, a: Ty, b: Ty) -> bool {
    table.text_of(a) == table.text_of(b)
}

/// How likely acquiring a guard of kind `b` while one of kind `a` is held is to deadlock.
pub open spec fn deadlock_with_spec(table: TyTable, a: LockGuardTy, b: LockGuardTy) -> DeadlockPossibility {
    match (a, b) {
        (LockGuardTy::StdMutex(x), LockGuardTy::StdMutex(y))
        | (LockGuardTy::ParkingLotMutex(x), LockGuardTy::ParkingLotMutex(y))
        | (LockGuardTy::SpinMutex(x), LockGuardTy::SpinMutex(y))
        | (LockGuardTy::StdRwLockWrite(x), LockGuardTy::StdRwLockRead(y))
        | (LockGuardTy::StdRwLockRead(x), LockGuardTy::StdRwLockWrite(y)) => if same_ty_text(table, x, y) {
            DeadlockPossibility::Probably
        } else {
            DeadlockPossibility::Unlikely
        },
        (LockGuardTy::StdRwLockRead(x), LockGuardTy::StdRwLockRead(y)) => if same_ty_text(table, x, y) {
            DeadlockPossibility::Possibly
        } else {
            DeadlockPossibility::Unlikely
        },
        _ => DeadlockPossibility::Unlikely,
    }
}

/// Whether `a` and `b` are the same type.
pub fn same_ty(table: &TyTable, a: &Ty, b: &Ty) -> (r: bool)
    ensures
        r == same_ty_text(*table, *a, *b),
{
    let ta = table.text(a);
    let tb = table.text(b);
    ta == tb
}

impl LockGuardTy {
    /// The lock guard kind of `ty`, when `ty` is the guard of a supported lock and its data
    /// type can be read.
    ///
    /// The session prints the type arguments of a guard only as text, from which no type
    /// can be read back, so no type is ever classified.
    pub fn from_ty(ty: &Ty, table: &TyTable) -> (r: Option<Self>)
        ensures
            r is None,
    {
        let type_str = chars_of(table.text(ty).as_str());
        if !vec_has(&type_str, "MutexGuard") && !vec_has(&type_str, "RwLockReadGuard") && !vec_has(
            &type_str,
            "RwLockWriteGuard",
        ) {
            return None;
        }
        let (adt_def, args) = match table.kind(ty) {
            Some(TyKind::RigidTy(RigidTy::Adt(adt_def, args))) => (*adt_def, args),
            _ => return None,
        };
        let path = chars_of(table.def_text(adt_def).as_str());
        let first_part = seq_before_char(&path, '<');
        let flavour: u8 = if vec_has(&first_part, "MutexGuard") {
            0
        } else if vec_has(&first_part, "RwLockReadGuard") {
            1
        } else if vec_has(&first_part, "RwLockWriteGuard") {
            2
        } else {
            return None;
        };
        if vec_has(&first_part, "async") || vec_has(&first_part, "tokio") || vec_has(&first_part, "future")
            || vec_has(&first_part, "loom") {
            return None;
        }
        let spin = vec_has(&first_part, "spin");
        let parking = vec_has(&first_part, "lock_api") || vec_has(&first_part, "parking_lot");
        let inner = if spin {
            Self::extract_generic_arg(args, 0)
        } else if parking {
            Self::extract_generic_arg(args, 1)
        } else {
            Self::extract_generic_arg(args, 0)
        };
        let inner_ty = match inner {
            Some(t) => t,
            None => return None,
        };
        Some(
            if flavour == 0 {
                if spin {
                    LockGuardTy::SpinMutex(inner_ty)
                } else if parking {
                    LockGuardTy::ParkingLotMutex(inner_ty)
                } else {
                    LockGuardTy::StdMutex(inner_ty)
                }
            } else if flavour == 1 {
                if spin {
                    LockGuardTy::SpinRead(inner_ty)
                } else if parking {
                    LockGuardTy::ParkingLotRead(inner_ty)
                } else {
                    LockGuardTy::StdRwLockRead(inner_ty)
                }
            } else {
                if spin {
                    LockGuardTy::SpinWrite(inner_ty)
                } else if parking {
                    LockGuardTy::ParkingLotWrite(inner_ty)
                } else {
                    LockGuardTy::StdRwLockWrite(inner_ty)
                }
            },
        )
    }

    /// The `index`-th type argument of `args`, read back from its printed form.
    ///
    /// The printed form of a type argument does not give the type back, so there is none,
    /// whether `index` is in range or not.
    fn extract_generic_arg(args: &Vec<Ty>, index: usize) -> (r: Option<Ty>)
        ensures
            r is None,
    {
        if index < args.len() {
            None
        } else {
            None
        }
    }

    /// How likely acquiring a guard of kind `other` while one of this kind is held is
    /// to deadlock: probably for two guards of the same mutex kind, or a read and a write
    /// guard of a std `RwLock`, over the same data type; possibly for two std read guards;
    /// unlikely otherwise.
    pub fn deadlock_with(&self, other: &Self, table: &TyTable) -> (r: DeadlockPossibility)
        ensures
            r == deadlock_with_spec(*table, *self, *other),
    {
        match (self, other) {
            (LockGuardTy::StdMutex(a), LockGuardTy::StdMutex(b))
            | (LockGuardTy::ParkingLotMutex(a), LockGuardTy::ParkingLotMutex(b))
            | (LockGuardTy::SpinMutex(a), LockGuardTy::SpinMutex(b))
            | (LockGuardTy::StdRwLockWrite(a), LockGuardTy::StdRwLockRead(b))
            | (LockGuardTy::StdRwLockRead(a), LockGuardTy::StdRwLockWrite(b)) => {
                if same_ty(table, a, b) {
                    DeadlockPossibility::Probably
                } else {
                    DeadlockPossibility::Unlikely
                }
            },
            (LockGuardTy::StdRwLockRead(a), LockGuardTy::StdRwLockRead(b)) => {
                if same_ty(table, a, b) {
                    DeadlockPossibility::Possibly
                } else {
                    DeadlockPossibility::Unlikely
                }
            },
            _ => DeadlockPossibility::Unlikely,
        }
    }

    /// The printed form of this guard kind: its name, then its data type in angle brackets.
    pub fn text(&self, table: &TyTable) -> (r: String)
        ensures
            r@ == guard_head(*self) + table.text_of(guard_data(*self)) + ">"@,
    {
        let mut s = String::new();
        let t = match self {
            LockGuardTy::StdMutex(t) | LockGuardTy::ParkingLotMutex(t) | LockGuardTy::SpinMutex(t) => {
                s.append("MutexGuard<");
                t
            },
            LockGuardTy::StdRwLockRead(t) | LockGuardTy::ParkingLotRead(t) | LockGuardTy::SpinRead(t) => {
                s.append("RwLockReadGuard<");
                t
            },
            LockGuardTy::StdRwLockWrite(t) | LockGuardTy::ParkingLotWrite(t) | LockGuardTy::SpinWrite(t) => {
                s.append("RwLockWriteGuard<");
                t
            },
        };
        let inner = table.text(t);
        s.append(inner.as_str());
        s.append(">");
        s
    }
}

/// How likely a pair of guards is to deadlock.
#[derive(Clone, Copy, Debug, PartialEq, Eq, Structural)]
pub enum DeadlockPossibility {
    Probably,
    Possibly,
    Unlikely,
    Unknown,
}

impl DeadlockPossibility {
    /// The name of this possibility.
    pub fn name(&self) -> (r: &'static str)
        ensures
            r@ == match *self {
                DeadlockPossibility::Probably => "Probably"@,
                DeadlockPossibility::Possibly => "Possibly"@,
                DeadlockPossibility::Unlikely => "Unlikely"@,
                DeadlockPossibility::Unknown => "Unknown"@,
            },
    {
        match self {
            DeadlockPossibility::Probably => "Probably",
            DeadlockPossibility::Possibly => "Possibly",
            DeadlockPossibility::Unlikely => "Unlikely",
            DeadlockPossibility::Unknown => "Unknown",
        }
    }
}

/// What is known of one lock guard: its kind, where it is acquired, moved and released,
/// and the blocks it guards.
#[derive(Clone, Debug)]
pub struct LockGuardInfo {
    pub lockguard_ty: LockGuardTy,
    pub span_str: String,
    /// Where the guard is acquired.
    pub gen_locs: Vec<MirLocation>,
    /// Where the guard is moved into its local.
    pub move_gen_locs: Vec<MirLocation>,
    /// Where the guard is released.
    pub kill_locs: Vec<MirLocation>,
    /// The blocks the guard is held in.
    pub guarded_blocks: Vec<(BasicBlockIdx, MirLocation)>,
    pub var_name: Option<String>,
    pub source_loc: Option<String>,
    /// The function that acquires the guard.
    pub func_name: String,
}

/// The guard is held at `loc`: some acquisition comes no later, and some release no earlier.
pub open spec fn alive_at(info: LockGuardInfo, loc: MirLocation) -> bool {
    exists|i: int, j: int|
        0 <= i < info.gen_locs@.len() && 0 <= j < info.kill_locs@.len() && loc_le(#[trigger] info.gen_locs@[i], loc)
            && loc_le(loc, #[trigger] info.kill_locs@[j])
}

impl LockGuardInfo {
    /// A guard of kind `lockguard_ty`, acquired in `func_name`, not yet seen acquired or released.
    pub fn new(lockguard_ty: LockGuardTy, span_str: String, func_name: String) -> (r: Self)
        ensures
            r.lockguard_ty == lockguard_ty,
            r.span_str@ == span_str@,
            r.func_name@ == func_name@,
            r.gen_locs@.len() == 0,
            r.move_gen_locs@.len() == 0,
            r.kill_locs@.len() == 0,
            r.guarded_blocks@.len() == 0,
            r.var_name is None,
            r.source_loc is None,
    {
        Self {
            lockguard_ty,
            span_str,
            gen_locs: Vec::new(),
            move_gen_locs: Vec::new(),
            kill_locs: Vec::new(),
            guarded_blocks: Vec::new(),
            var_name: None,
            source_loc: None,
            func_name,
        }
    }

    /// Whether the guard is held at `location`.
    pub fn is_alive_at(&self, location: &MirLocation) -> (r: bool)
        ensures
            r == alive_at(*self, *location),
    {
        let mut i: usize = 0;
        while i < self.gen_locs.len()
            invariant
                i <= self.gen_locs@.len(),
                forall|a: int, b: int|
                    0 <= a < i && 0 <= b < self.kill_locs@.len() ==> !(loc_le(#[trigger] self.gen_locs@[a], *location)
                        && loc_le(*location, #[trigger] self.kill_locs@[b])),
            decreases self.gen_locs@.len() - i,
        {
            let mut j: usize = 0;
            while j < self.kill_locs.len()
                invariant
                    i < self.gen_locs@.len(),
                    j <= self.kill_locs@.len(),
                    forall|a: int, b: int|
                        0 <= a < i && 0 <= b < self.kill_locs@.len() ==> !(loc_le(#[trigger] self.gen_locs@[a], *location)
                            && loc_le(*location, #[trigger] self.kill_locs@[b])),
                    forall|b: int|
                        0 <= b < j ==> !(loc_le(self.gen_locs@[i as int], *location) && loc_le(
                            *location,
                            #[trigger] self.kill_locs@[b],
                        )),
                decreases self.kill_locs@.len() - j,
            {
                if self.gen_locs[i].le(location) && location.le(&self.kill_locs[j]) {
                    return true;
                }
                j = j + 1;
            }
            i = i + 1;
        }
        false
    }
}


// ---------------------------------------------------------------------------
// Lock types found in declarations
// ---------------------------------------------------------------------------

/// A function instance of the crate, with its name and body as the session gives them.
pub struct AnalyzedItem {
    pub instance: Instance,
    pub name: String,
    pub body: Body,
}

/// The two kinds of lock.
#[derive(Clone, Copy, Debug, PartialEq, Eq, Structural)]
pub enum LockKind {
    Mutex,
    RwLock,
}

/// The printed name of a lock kind.
pub open spec fn lock_kind_text(k: LockKind) -> Seq<char> {
    match k {
        LockKind::Mutex => "Mutex"@,
        LockKind::RwLock => "RwLock"@,
    }
}

impl LockKind {
    /// The printed name of this kind.
    pub fn name(&self) -> (r: &'static str)
        ensures
            r@ == lock_kind_text(*self),
    {
        match self {
            LockKind::Mutex => "Mutex",
            LockKind::RwLock => "RwLock",
        }
    }
}

/// A lock type found in a declaration: its printed type, its library and its kind.
#[derive(Clone, Debug)]
pub struct LockType {
    pub type_str: String,
    pub library: String,
    pub kind: LockKind,
}

impl View for LockType {
    type V = (Seq<char>, Seq<char>, LockKind);

    open spec fn view(&self) -> (Seq<char>, Seq<char>, LockKind) {
        (self.type_str@, self.library@, self.kind)
    }
}

/// The views of a sequence of lock types.
pub open spec fn lock_views(ls: Seq<LockType>) -> Seq<(Seq<char>, Seq<char>, LockKind)> {
    ls.map_values(|l: LockType| l@)
}

/// A type printed as `t` is a lock: it mentions `Mutex` or `RwLock`.
pub open spec fn is_lock_text(t: Seq<char>) -> bool {
    has_sub(t, "Mutex"@) || has_sub(t, "RwLock"@)
}

/// The library of a lock printed as `t`.
pub open spec fn lock_library(t: Seq<char>) -> Seq<char> {
    if has_sub(t, "parking_lot"@) || has_sub(t, "lock_api"@) {
        "parking_lot"@
    } else if has_sub(t, "spin"@) {
        "spin"@
    } else {
        "std"@
    }
}

/// The kind of a lock printed as `t`.
pub open spec fn lock_kind_of(t: Seq<char>) -> LockKind {
    if has_sub(t, "RwLock"@) {
        LockKind::RwLock
    } else {
        LockKind::Mutex
    }
}

/// What is recorded of a lock printed as `t`.
pub open spec fn lock_record(t: Seq<char>) -> (Seq<char>, Seq<char>, LockKind) {
    (t, lock_library(t), lock_kind_of(t))
}

/// The records of the lock types among these declarations, in order.
pub open spec fn locals_lock_records(table: TyTable, locals: Seq<LocalDecl>) -> Seq<(Seq<char>, Seq<char>, LockKind)>
    decreases locals.len(),
{
    if locals.len() == 0 {
        Seq::empty()
    } else {
        let rest = locals_lock_records(table, locals.drop_last());
        let t = table.text_of(locals.last().ty);
        if is_lock_text(t) {
            rest.push(lock_record(t))
        } else {
            rest
        }
    }
}

/// The records of the lock types among the declarations of these items, in order.
pub open spec fn items_lock_records(table: TyTable, items: Seq<AnalyzedItem>) -> Seq<(Seq<char>, Seq<char>, LockKind)>
    decreases items.len(),
{
    if items.len() == 0 {
        Seq::empty()
    } else {
        items_lock_records(table, items.drop_last()) + locals_lock_records(table, items.last().body.locals_spec())
    }
}

/// The records of the lock types among the declarations of the items named `name`, in order.
pub open spec fn named_lock_records(table: TyTable, items: Seq<AnalyzedItem>, name: Seq<char>) -> Seq<(Seq<char>, Seq<char>, LockKind)>
    decreases items.len(),
{
    if items.len() == 0 {
        Seq::empty()
    } else if items.last().name@ == name {
        named_lock_records(table, items.drop_last(), name) + locals_lock_records(table, items.last().body.locals_spec())
    } else {
        named_lock_records(table, items.drop_last(), name)
    }
}

/// The entries of a map from names to lists, one per name.
pub open spec fn entries_unique<T>(entries: Seq<(String, Vec<T>)>) -> bool {
    forall|i: int, j: int|
        0 <= i < entries.len() && 0 <= j < entries.len() && (#[trigger] entries[i]).0@ == (#[trigger] entries[j]).0@ ==> i == j
}

/// The lock records listed under `name`, none where there is no entry.
pub open spec fn locks_under(entries: Seq<(String, Vec<LockType>)>, name: Seq<char>) -> Seq<(Seq<char>, Seq<char>, LockKind)> {
    if exists|i: int| 0 <= i < entries.len() && (#[trigger] entries[i]).0@ == name {
        let i = choose|i: int| 0 <= i < entries.len() && (#[trigger] entries[i]).0@ == name;
        lock_views(entries[i].1@)
    } else {
        Seq::empty()
    }
}

/// How many lock types the entries list in all.
pub open spec fn entries_total(entries: Seq<(String, Vec<LockType>)>) -> nat
    decreases entries.len(),
{
    if entries.len() == 0 {
        0
    } else {
        entries_total(entries.drop_last()) + entries.last().1@.len()
    }
}

/// Replacing one entry changes the total by the difference of the two lists' lengths.
proof fn lemma_entries_total_update(s: Seq<(String, Vec<LockType>)>, i: int, x: (String, Vec<LockType>))
    requires
        0 <= i < s.len(),
    ensures
        entries_total(s.update(i, x)) + s[i].1@.len() == entries_total(s) + x.1@.len(),
    decreases s.len(),
{
    if i == s.len() - 1 {
        assert(s.update(i, x).drop_last() =~= s.drop_last());
    } else {
        lemma_entries_total_update(s.drop_last(), i, x);
        assert(s.update(i, x).drop_last() =~= s.drop_last().update(i, x));
    }
}

/// A type printed as `t` is a guard.
pub open spec fn is_guard_text(t: Seq<char>) -> bool {
    has_sub(t, "MutexGuard"@) || has_sub(t, "RwLockReadGuard"@) || has_sub(t, "RwLockWriteGuard"@)
}

/// The lock types, guard types and instances with locks found in a crate.
pub struct LockTypeCollector {
    /// The lock types of each instance, by instance name.
    pub instance_locks: Vec<(String, Vec<LockType>)>,
    /// Every lock type found, in order.
    pub all_lock_types: Vec<LockType>,
    /// Every guard type found, printed, in order.
    pub all_guard_types: Vec<String>,
}

impl LockTypeCollector {
    /// Each instance name has one entry.
    pub open spec fn wf(&self) -> bool {
        entries_unique(self.instance_locks@)
    }

    /// Nothing found yet.
    pub fn new() -> (r: Self)
        ensures
            r.wf(),
            r.instance_locks@.len() == 0,
            r.all_lock_types@.len() == 0,
            r.all_guard_types@.len() == 0,
    {
        Self { instance_locks: Vec::new(), all_lock_types: Vec::new(), all_guard_types: Vec::new() }
    }

    /// Records the lock and guard types declared in each item.
    ///
    /// No guard type can be classified (see `LockGuardTy::from_ty`), so none is recorded.
    pub fn analyze_crate(&mut self, items: &[AnalyzedItem], table: &TyTable)
        requires
            old(self).wf(),
        ensures
            final(self).wf(),
            lock_views(final(self).all_lock_types@) == lock_views(old(self).all_lock_types@) + items_lock_records(
                *table,
                items@,
            ),
            final(self).all_guard_types@ == old(self).all_guard_types@,
            forall|name: Seq<char>| #[trigger] locks_under(final(self).instance_locks@, name)
                == locks_under(old(self).instance_locks@, name) + named_lock_records(*table, items@, name),
            entries_total(final(self).instance_locks@) == entries_total(old(self).instance_locks@) + items_lock_records(
                *table,
                items@,
            ).len(),
    {
        let mut i: usize = 0;
        while i < items.len()
            invariant
                i <= items@.len(),
                self.wf(),
                lock_views(self.all_lock_types@) == lock_views(old(self).all_lock_types@) + items_lock_records(
                    *table,
                    items@.subrange(0, i as int),
                ),
                self.all_guard_types@ == old(self).all_guard_types@,
                forall|name: Seq<char>| #[trigger] locks_under(self.instance_locks@, name)
                    == locks_under(old(self).instance_locks@, name) + named_lock_records(
                        *table,
                        items@.subrange(0, i as int),
                        name,
                    ),
                entries_total(self.instance_locks@) == entries_total(old(self).instance_locks@) + items_lock_records(
                    *table,
                    items@.subrange(0, i as int),
                ).len(),
            decreases items@.len() - i,
        {
            let ghost before_all = lock_views(self.all_lock_types@);
            let ghost before_map = self.instance_locks@;
            self.analyze_item(&items[i], table);
            proof {
                let pre = items@.subrange(0, i as int);
                let post = items@.subrange(0, i + 1);
                assert(post.drop_last() =~= pre);
                assert(post.last() == items@[i as int]);
                assert(lock_views(self.all_lock_types@) =~= lock_views(old(self).all_lock_types@)
                    + items_lock_records(*table, post));
                assert forall|name: Seq<char>| #[trigger] locks_under(self.instance_locks@, name)
                    == locks_under(old(self).instance_locks@, name) + named_lock_records(*table, post, name) by {
                    if items@[i as int].name@ == name {
                        assert(locks_under(self.instance_locks@, name) =~= locks_under(old(self).instance_locks@, name)
                            + named_lock_records(*table, post, name));
                    } else {
                        assert(locks_under(self.instance_locks@, name) == locks_under(before_map, name));
                    }
                }
            }
            i = i + 1;
        }
        assert(items@.subrange(0, items@.len() as int) =~= items@);
    }

    /// Records the lock and guard types declared in one item.
    fn analyze_item(&mut self, item: &AnalyzedItem, table: &TyTable)
        requires
            old(self).wf(),
        ensures
            final(self).wf(),
            lock_views(final(self).all_lock_types@) == lock_views(old(self).all_lock_types@) + locals_lock_records(
                *table,
                item.body.locals_spec(),
            ),
            final(self).all_guard_types@ == old(self).all_guard_types@,
            locks_under(final(self).instance_locks@, item.name@) == locks_under(old(self).instance_locks@, item.name@)
                + locals_lock_records(*table, item.body.locals_spec()),
            forall|name: Seq<char>| name != item.name@ ==> #[trigger] locks_under(final(self).instance_locks@, name)
                == locks_under(old(self).instance_locks@, name),
            entries_total(final(self).instance_locks@) == entries_total(old(self).instance_locks@) + locals_lock_records(
                *table,
                item.body.locals_spec(),
            ).len(),
    {
        self.visit_body_types(&item.name, &item.body, table);
    }

    /// Records the lock and guard types declared in `body`, under `instance_name`.
    fn visit_body_types(&mut self, instance_name: &String, body: &Body, table: &TyTable)
        requires
            old(self).wf(),
        ensures
            final(self).wf(),
            lock_views(final(self).all_lock_types@) == lock_views(old(self).all_lock_types@) + locals_lock_records(
                *table,
                body.locals_spec(),
            ),
            final(self).all_guard_types@ == old(self).all_guard_types@,
            locks_under(final(self).instance_locks@, instance_name@) == locks_under(
                old(self).instance_locks@,
                instance_name@,
            ) + locals_lock_records(*table, body.locals_spec()),
            forall|name: Seq<char>| name != instance_name@ ==> #[trigger] locks_under(final(self).instance_locks@, name)
                == locks_under(old(self).instance_locks@, name),
            entries_total(final(self).instance_locks@) == entries_total(old(self).instance_locks@) + locals_lock_records(
                *table,
                body.locals_spec(),
            ).len(),
    {
        let locals = body.locals();
        let mut k: usize = 0;
        while k < locals.len()
            invariant
                locals@ == body.locals_spec(),
                k <= locals@.len(),
                self.wf(),
                lock_views(self.all_lock_types@) == lock_views(old(self).all_lock_types@) + locals_lock_records(
                    *table,
                    locals@.subrange(0, k as int),
                ),
                self.all_guard_types@ == old(self).all_guard_types@,
                locks_under(self.instance_locks@, instance_name@) == locks_under(
                    old(self).instance_locks@,
                    instance_name@,
                ) + locals_lock_records(*table, locals@.subrange(0, k as int)),
                forall|name: Seq<char>| name != instance_name@ ==> #[trigger] locks_under(self.instance_locks@, name)
                    == locks_under(old(self).instance_locks@, name),
                entries_total(self.instance_locks@) == entries_total(old(self).instance_locks@) + locals_lock_records(
                    *table,
                    locals@.subrange(0, k as int),
                ).len(),
            decreases locals@.len() - k,
        {
            let ty = locals[k].ty;
            let ghost pre = locals@.subrange(0, k as int);
            let ghost post = locals@.subrange(0, k + 1);
            proof {
                assert(post.drop_last() =~= pre);
                assert(post.last() == locals@[k as int]);
            }
            if self.is_lock_type(&ty, table) {
                let lock_type = self.extract_lock_info(&ty, table);
                let ghost rec = lock_type@;
                let ghost before_all = self.all_lock_types@;
                self.add_instance_lock(instance_name, lock_type.clone_record());
                self.all_lock_types.push(lock_type);
                proof {
                    assert(lock_views(self.all_lock_types@) =~= lock_views(before_all).push(rec));
                }
            }
            if let Some(guard_str) = self.extract_guard_type(&ty, table) {
                self.all_guard_types.push(guard_str);
            }
            k = k + 1;
        }
        assert(locals@.subrange(0, locals@.len() as int) =~= locals@);
    }

    /// Lists `lock_type` under `name`, adding an entry for `name` where there is none.
    fn add_instance_lock(&mut self, name: &String, lock_type: LockType)
        requires
            old(self).wf(),
        ensures
            final(self).wf(),
            final(self).all_lock_types@ == old(self).all_lock_types@,
            final(self).all_guard_types@ == old(self).all_guard_types@,
            locks_under(final(self).instance_locks@, name@) == locks_under(old(self).instance_locks@, name@).push(
                lock_type@,
            ),
            forall|n: Seq<char>| n != name@ ==> #[trigger] locks_under(final(self).instance_locks@, n) == locks_under(
                old(self).instance_locks@,
                n,
            ),
            entries_total(final(self).instance_locks@) == entries_total(old(self).instance_locks@) + 1,
    {
        let mut i: usize = 0;
        while i < self.instance_locks.len()
            invariant
                i <= self.instance_locks@.len(),
                self.instance_locks@ == old(self).instance_locks@,
                self.all_lock_types@ == old(self).all_lock_types@,
                self.all_guard_types@ == old(self).all_guard_types@,
                entries_unique(self.instance_locks@),
                forall|k: int| 0 <= k < i ==> (#[trigger] self.instance_locks@[k]).0@ != name@,
            decreases self.instance_locks@.len() - i,
        {
            if self.instance_locks[i].0 == *name {
                let ghost old_entries = self.instance_locks@;
                let mut entry = self.instance_locks.remove(i);
                entry.1.push(lock_type);
                self.instance_locks.insert(i, entry);
                proof {
                    let e = self.instance_locks@;
                    assert(e =~= old_entries.update(i as int, e[i as int]));
                    lemma_entries_total_update(old_entries, i as int, e[i as int]);
                    assert forall|a: int| 0 <= a < e.len() && a != i implies e[a] == old_entries[a] by {}
                    assert forall|a: int, b: int|
                        0 <= a < e.len() && 0 <= b < e.len() && (#[trigger] e[a]).0@ == (#[trigger] e[b]).0@ implies a == b by {
                        assert(e[a].0@ == old_entries[a].0@);
                        assert(e[b].0@ == old_entries[b].0@);
                    }
                    assert(e[i as int].0@ == name@);
                    assert(locks_under(e, name@) == lock_views(e[i as int].1@));
                    assert(locks_under(old_entries, name@) == lock_views(old_entries[i as int].1@));
                    assert(lock_views(e[i as int].1@) =~= lock_views(old_entries[i as int].1@).push(lock_type@));
                    assert forall|n: Seq<char>| n != name@ implies #[trigger] locks_under(e, n) == locks_under(old_entries, n) by {
                        if exists|a: int| 0 <= a < e.len() && (#[trigger] e[a]).0@ == n {
                            let a = choose|a: int| 0 <= a < e.len() && (#[trigger] e[a]).0@ == n;
                            assert(old_entries[a].0@ == n);
                            let b = choose|b: int| 0 <= b < old_entries.len() && (#[trigger] old_entries[b]).0@ == n;
                            assert(e[b].0@ == n);
                        } else {
                            if exists|a: int| 0 <= a < old_entries.len() && (#[trigger] old_entries[a]).0@ == n {
                                let a = choose|a: int| 0 <= a < old_entries.len() && (#[trigger] old_entries[a]).0@ == n;
                                assert(e[a].0@ == n);
                            }
                        }
                    }
                }
                return;
            }
            i = i + 1;
        }
        let ghost old_entries = self.instance_locks@;
        let mut v: Vec<LockType> = Vec::new();
        v.push(lock_type);
        self.instance_locks.push((name.clone(), v));
        proof {
            let e = self.instance_locks@;
            let last = e.len() - 1;
            assert(e.drop_last() =~= old_entries);
            assert(e[last].0@ == name@);
            assert forall|a: int, b: int|
                0 <= a < e.len() && 0 <= b < e.len() && (#[trigger] e[a]).0@ == (#[trigger] e[b]).0@ implies a == b by {
                if a < last && b < last {
                    assert(e[a] == old_entries[a] && e[b] == old_entries[b]);
                } else if a < last {
                    assert(e[a] == old_entries[a]);
                } else if b < last {
                    assert(e[b] == old_entries[b]);
                }
            }
            assert(!(exists|a: int| 0 <= a < old_entries.len() && (#[trigger] old_entries[a]).0@ == name@));
            assert(locks_under(e, name@) == lock_views(e[last].1@));
            assert(lock_views(e[last].1@) =~= Seq::<(Seq<char>, Seq<char>, LockKind)>::empty().push(lock_type@));
            assert forall|n: Seq<char>| n != name@ implies #[trigger] locks_under(e, n) == locks_under(old_entries, n) by {
                if exists|a: int| 0 <= a < e.len() && (#[trigger] e[a]).0@ == n {
                    let a = choose|a: int| 0 <= a < e.len() && (#[trigger] e[a]).0@ == n;
                    assert(a != last);
                    assert(old_entries[a].0@ == n);
                    let b = choose|b: int| 0 <= b < old_entries.len() && (#[trigger] old_entries[b]).0@ == n;
                    assert(e[b].0@ == n);
                } else {
                    if exists|a: int| 0 <= a < old_entries.len() && (#[trigger] old_entries[a]).0@ == n {
                        let a = choose|a: int| 0 <= a < old_entries.len() && (#[trigger] old_entries[a]).0@ == n;
                        assert(e[a].0@ == n);
                    }
                }
            }
        }
    }

    /// Whether `ty` is a lock type: its printed form mentions `Mutex` or `RwLock`.
    fn is_lock_type(&self, ty: &Ty, table: &TyTable) -> (r: bool)
        ensures
            r == is_lock_text(table.text_of(*ty)),
    {
        let t = table.text(ty);
        str_has_sub(t.as_str(), "Mutex") || str_has_sub(t.as_str(), "RwLock")
    }

    /// What is recorded of the lock type `ty`: its printed form, its library and its kind.
    fn extract_lock_info(&self, ty: &Ty, table: &TyTable) -> (r: LockType)
        ensures
            r@ == lock_record(table.text_of(*ty)),
    {
        let ty_str = table.text(ty);
        let library = if str_has_sub(ty_str.as_str(), "parking_lot") || str_has_sub(ty_str.as_str(), "lock_api") {
            crate::text::string_of("parking_lot")
        } else if str_has_sub(ty_str.as_str(), "spin") {
            crate::text::string_of("spin")
        } else {
            crate::text::string_of("std")
        };
        let kind = if str_has_sub(ty_str.as_str(), "RwLock") {
            LockKind::RwLock
        } else {
            LockKind::Mutex
        };
        LockType { type_str: ty_str, library, kind }
    }

    /// The printed guard type of `ty`, where `ty` is a lock guard.
    fn extract_guard_type(&self, ty: &Ty, table: &TyTable) -> (r: Option<String>)
        ensures
            r is None,
    {
        match LockGuardTy::from_ty(ty, table) {
            Some(g) => Some(g.text(table)),
            None => None,
        }
    }
}

/// `after` is what recording the lock types declared in `items` makes of `before`.
pub open spec fn crate_step(before: LockTypeCollector, after: LockTypeCollector, table: TyTable, items: Seq<AnalyzedItem>) -> bool {
    &&& after.wf()
    &&& lock_views(after.all_lock_types@) == lock_views(before.all_lock_types@) + items_lock_records(table, items)
    &&& after.all_guard_types@ == before.all_guard_types@
    &&& forall|name: Seq<char>| #[trigger] locks_under(after.instance_locks@, name)
        == locks_under(before.instance_locks@, name) + named_lock_records(table, items, name)
    &&& entries_total(after.instance_locks@) == entries_total(before.instance_locks@) + items_lock_records(table, items).len()
}

/// A record of a lock type as it should be: its printed form names a mutex or a read-write
/// lock, its library is one of the three known, and its kind is a read-write lock exactly
/// where the printed form says so.
pub open spec fn well_recorded(r: (Seq<char>, Seq<char>, LockKind)) -> bool {
    &&& is_lock_text(r.0)
    &&& (r.1 == "std"@ || r.1 == "parking_lot"@ || r.1 == "spin"@)
    &&& ((r.2 == LockKind::RwLock) <==> has_sub(r.0, "RwLock"@))
}

/// Every record made of a list of declarations is as it should be.
proof fn lemma_locals_records_well(table: TyTable, locals: Seq<LocalDecl>)
    ensures
        forall|k: int| 0 <= k < locals_lock_records(table, locals).len() ==> well_recorded(#[trigger] locals_lock_records(table, locals)[k]),
    decreases locals.len(),
{
    if locals.len() > 0 {
        lemma_locals_records_well(table, locals.drop_last());
        let rest = locals_lock_records(table, locals.drop_last());
        let t = table.text_of(locals.last().ty);
        if is_lock_text(t) {
            assert(well_recorded(lock_record(t)));
            assert forall|k: int| 0 <= k < rest.push(lock_record(t)).len() implies well_recorded(#[trigger] rest.push(lock_record(t))[k]) by {
                if k < rest.len() {
                    assert(rest.push(lock_record(t))[k] == rest[k]);
                }
            }
        }
    }
}

/// Every record made of the declarations of a list of items is as it should be.
proof fn lemma_items_records_well(table: TyTable, items: Seq<AnalyzedItem>)
    ensures
        forall|k: int| 0 <= k < items_lock_records(table, items).len() ==> well_recorded(#[trigger] items_lock_records(table, items)[k]),
    decreases items.len(),
{
    if items.len() > 0 {
        let a = items_lock_records(table, items.drop_last());
        let b = locals_lock_records(table, items.last().body.locals_spec());
        lemma_items_records_well(table, items.drop_last());
        lemma_locals_records_well(table, items.last().body.locals_spec());
        assert forall|k: int| 0 <= k < (a + b).len() implies well_recorded(#[trigger] (a + b)[k]) by {
            if k >= a.len() {
                assert((a + b)[k] == b[k - a.len()]);
            }
        }
    }
}

/// Recording the lock types of a crate's items: those recorded before stay first and in
/// order, each one added is recorded as it should be, the guard types are unchanged, the
/// lists under the instances hold as many lock types as the list of all where they did
/// before, and recording no items changes nothing.
pub proof fn law_analyze_crate(before: LockTypeCollector, after: LockTypeCollector, table: TyTable, items: Seq<AnalyzedItem>)
    requires
        before.wf(),
        crate_step(before, after, table, items),
    ensures
        lock_views(after.all_lock_types@).subrange(0, before.all_lock_types@.len() as int) == lock_views(before.all_lock_types@),
        forall|k: int| before.all_lock_types@.len() <= k < after.all_lock_types@.len() ==> well_recorded(#[trigger] after.all_lock_types@[k]@),
        after.all_guard_types@ == before.all_guard_types@,
        entries_total(before.instance_locks@) == before.all_lock_types@.len() ==> entries_total(after.instance_locks@)
            == after.all_lock_types@.len(),
        items.len() == 0 ==> lock_views(after.all_lock_types@) == lock_views(before.all_lock_types@) && forall|name: Seq<char>|
            #[trigger] locks_under(after.instance_locks@, name) == locks_under(before.instance_locks@, name),
{
    let a = lock_views(before.all_lock_types@);
    let b = items_lock_records(table, items);
    lemma_items_records_well(table, items);
    assert(lock_views(after.all_lock_types@).subrange(0, a.len() as int) =~= a);
    assert forall|k: int| before.all_lock_types@.len() <= k < after.all_lock_types@.len() implies well_recorded(#[trigger] after.all_lock_types@[k]@) by {
        assert(lock_views(after.all_lock_types@)[k] == after.all_lock_types@[k]@);
        assert((a + b)[k] == b[k - a.len()]);
    }
    if items.len() == 0 {
        assert(b =~= Seq::empty());
        assert(lock_views(after.all_lock_types@) =~= a);
        assert forall|name: Seq<char>| #[trigger] locks_under(after.instance_locks@, name) == locks_under(before.instance_locks@, name) by {
            assert(locks_under(after.instance_locks@, name) == locks_under(before.instance_locks@, name) + named_lock_records(table, items, name));
            assert(locks_under(after.instance_locks@, name) =~= locks_under(before.instance_locks@, name));
        }
    }
}

/// The summary line of a lock type: its kind, then its library in brackets.
pub open spec fn lock_line(l: LockType) -> Seq<char> {
    lock_kind_text(l.kind) + " ("@ + l.library@ + ")"@
}

/// The summary lines of lock types.
pub open spec fn lock_lines(ls: Seq<LockType>) -> Seq<Seq<char>> {
    ls.map_values(|l: LockType| lock_line(l))
}

/// Each instance with its lock types, one per line.
pub open spec fn instances_text(entries: Seq<(String, Vec<LockType>)>) -> Seq<char>
    decreases entries.len(),
{
    if entries.len() == 0 {
        Seq::empty()
    } else {
        instances_text(entries.drop_last()) + "  Instance: "@ + entries.last().0@ + "\n"@ + indented(
            "    - "@,
            lock_lines(entries.last().1@),
        )
    }
}

/// A counted heading: the title, the count in brackets, a colon and a newline.
pub open spec fn heading(title: Seq<char>, n: nat) -> Seq<char> {
    title + " ("@ + crate::text::decimal(n) + "):\n"@
}

/// The summary of what a collector found.
pub open spec fn summary_text(c: LockTypeCollector) -> Seq<char> {
    if c.all_lock_types@.len() == 0 && c.all_guard_types@.len() == 0 {
        "No lock or guard types found in this crate\n"@
    } else {
        (if c.all_lock_types@.len() > 0 {
            heading("Lock Types Found"@, c.all_lock_types@.len()) + numbered("  "@, lock_lines(c.all_lock_types@))
                + "\n"@
        } else {
            Seq::empty()
        }) + (if c.all_guard_types@.len() > 0 {
            heading("Guard Types Found"@, c.all_guard_types@.len()) + numbered("  "@, views(c.all_guard_types@))
                + "\n"@
        } else {
            Seq::empty()
        }) + (if c.instance_locks@.len() > 0 {
            heading("Instances Using Locks"@, c.instance_locks@.len()) + instances_text(c.instance_locks@) + "\n"@
        } else {
            Seq::empty()
        })
    }
}

/// Appends a counted heading.
fn push_heading(out: &mut String, title: &str, n: usize)
    ensures
        final(out)@ == old(out)@ + heading(title@, n as nat),
{
    out.append(title);
    out.append(" (");
    push_decimal(out, n);
    out.append("):\n");
    assert(out@ =~= old(out)@ + heading(title@, n as nat));
}

/// The summary lines of `ls`.
fn lock_lines_of(ls: &Vec<LockType>) -> (r: Vec<String>)
    ensures
        views(r@) == lock_lines(ls@),
{
    let mut r: Vec<String> = Vec::new();
    let mut i: usize = 0;
    while i < ls.len()
        invariant
            i <= ls@.len(),
            views(r@) == lock_lines(ls@.subrange(0, i as int)),
        decreases ls@.len() - i,
    {
        let mut line = String::new();
        line.append(ls[i].kind.name());
        line.append(" (");
        line.append(ls[i].library.as_str());
        line.append(")");
        let ghost before = r@;
        r.push(line);
        proof {
            assert(line@ =~= lock_line(ls@[i as int]));
            assert(views(r@) =~= views(before).push(line@));
            assert(lock_lines(ls@.subrange(0, i + 1)) =~= lock_lines(ls@.subrange(0, i as int)).push(lock_line(ls@[i as int])));
        }
        i = i + 1;
    }
    assert(ls@.subrange(0, ls@.len() as int) =~= ls@);
    r
}

impl LockTypeCollector {
    /// The summary of what was found: the lock types and guard types, numbered, and the
    /// lock types of each instance; a single line where nothing was found.
    pub fn format_summary(&self) -> (r: String)
        ensures
            r@ == summary_text(*self),
    {
        let mut output = String::new();
        if self.all_lock_types.len() == 0 && self.all_guard_types.len() == 0 {
            output.append("No lock or guard types found in this crate\n");
            return output;
        }
        let ghost s0 = output@;
        if self.all_lock_types.len() > 0 {
            push_heading(&mut output, "Lock Types Found", self.all_lock_types.len());
            let lines = lock_lines_of(&self.all_lock_types);
            append_numbered(&mut output, "  ", &lines);
            output.append("\n");
        }
        let ghost s1 = output@;
        if self.all_guard_types.len() > 0 {
            push_heading(&mut output, "Guard Types Found", self.all_guard_types.len());
            append_numbered(&mut output, "  ", &self.all_guard_types);
            output.append("\n");
        }
        let ghost s2 = output@;
        if self.instance_locks.len() > 0 {
            push_heading(&mut output, "Instances Using Locks", self.instance_locks.len());
            let mut i: usize = 0;
            let ghost base = output@;
            while i < self.instance_locks.len()
                invariant
                    i <= self.instance_locks@.len(),
                    output@ == base + instances_text(self.instance_locks@.subrange(0, i as int)),
                decreases self.instance_locks@.len() - i,
            {
                output.append("  Instance: ");
                output.append(self.instance_locks[i].0.as_str());
                output.append("\n");
                let lines = lock_lines_of(&self.instance_locks[i].1);
                append_indented(&mut output, "    - ", &lines);
                proof {
                    let e = self.instance_locks@.subrange(0, i + 1);
                    assert(e.drop_last() =~= self.instance_locks@.subrange(0, i as int));
                    assert(e.last() == self.instance_locks@[i as int]);
                    assert(output@ =~= base + instances_text(e));
                }
                i = i + 1;
            }
            assert(self.instance_locks@.subrange(0, self.instance_locks@.len() as int) =~= self.instance_locks@);
            output.append("\n");
        }
        proof {
            assert(output@ =~= summary_text(*self));
        }
        output
    }
}

impl Default for LockTypeCollector {
    fn default() -> (r: Self)
        ensures
            r.wf(),
            r.instance_locks@.len() == 0,
            r.all_lock_types@.len() == 0,
            r.all_guard_types@.len() == 0,
    {
        Self::new()
    }
}

impl LockType {
    /// A copy of this record.
    pub fn clone_record(&self) -> (r: LockType)
        ensures
            r@ == self@,
    {
        LockType { type_str: self.type_str.clone(), library: self.library.clone(), kind: self.kind }
    }
}


// ---------------------------------------------------------------------------
// Type signatures, and the types a body's code mentions
// ---------------------------------------------------------------------------

/// A type, by its printed form.
#[derive(Clone, Debug, PartialEq, Eq, Hash)]
pub struct TySignature {
    pub type_str: String,
}

impl TySignature {
    /// The signature of `ty`: its printed form.
    pub fn from_ty(ty: &Ty, table: &TyTable) -> (r: Self)
        ensures
            r.type_str@ == table.text_of(*ty),
    {
        Self { type_str: table.text(ty) }
    }

    /// Whether the signature is of a lock: it mentions `Mutex` or `RwLock`.
    pub fn is_lock_type(&self) -> (r: bool)
        ensures
            r == is_lock_text(self.type_str@),
    {
        str_has_sub(self.type_str.as_str(), "Mutex") || str_has_sub(self.type_str.as_str(), "RwLock")
    }

    /// Whether the signature is of a lock guard.
    pub fn is_guard_type(&self) -> (r: bool)
        ensures
            r == is_guard_text(self.type_str@),
    {
        str_has_sub(self.type_str.as_str(), "MutexGuard") || str_has_sub(self.type_str.as_str(), "RwLockReadGuard")
            || str_has_sub(self.type_str.as_str(), "RwLockWriteGuard")
    }

    /// A copy of this signature.
    pub fn copy(&self) -> (r: Self)
        ensures
            r.type_str@ == self.type_str@,
    {
        TySignature { type_str: self.type_str.clone() }
    }
}

/// A type the code mentions, with the place it is the type of where there is one.
pub type TyCheck = (Ty, Option<Place>);

/// The check of place `p`: its type, where it has one.
pub open spec fn place_check(table: TyTable, locals: Seq<LocalDecl>, p: Place) -> Seq<TyCheck> {
    match place_ty_spec(table, locals, p) {
        Some(t) => seq![(t, Some(p))],
        None => Seq::empty(),
    }
}

/// The check of the type of operand `op`, with no place.
pub open spec fn operand_check(table: TyTable, locals: Seq<LocalDecl>, op: Operand) -> Seq<TyCheck> {
    match operand_ty_spec(table, locals, op) {
        Some(t) => seq![(t, None)],
        None => Seq::empty(),
    }
}

/// The check of the place an operand reads, where it reads one.
pub open spec fn operand_visit(table: TyTable, locals: Seq<LocalDecl>, op: Operand) -> Seq<TyCheck> {
    match op {
        Operand::Copy(p) | Operand::Move(p) => place_check(table, locals, p),
        _ => Seq::empty(),
    }
}

/// The type checks of each operand, then the checks of the places they read, operand by operand.
pub open spec fn operands_checked_visited(table: TyTable, locals: Seq<LocalDecl>, ops: Seq<Operand>) -> Seq<TyCheck>
    decreases ops.len(),
{
    if ops.len() == 0 {
        Seq::empty()
    } else {
        operands_checked_visited(table, locals, ops.drop_last()) + operand_check(table, locals, ops.last())
            + operand_visit(table, locals, ops.last())
    }
}

/// The type checks of each operand, in order.
pub open spec fn operands_checked(table: TyTable, locals: Seq<LocalDecl>, ops: Seq<Operand>) -> Seq<TyCheck>
    decreases ops.len(),
{
    if ops.len() == 0 {
        Seq::empty()
    } else {
        operands_checked(table, locals, ops.drop_last()) + operand_check(table, locals, ops.last())
    }
}

/// The checks of the places the operands read, in order.
pub open spec fn operands_visited(table: TyTable, locals: Seq<LocalDecl>, ops: Seq<Operand>) -> Seq<TyCheck>
    decreases ops.len(),
{
    if ops.len() == 0 {
        Seq::empty()
    } else {
        operands_visited(table, locals, ops.drop_last()) + operand_visit(table, locals, ops.last())
    }
}

/// The checks an rvalue makes.
pub open spec fn rvalue_checks(table: TyTable, locals: Seq<LocalDecl>, rv: Rvalue) -> Seq<TyCheck> {
    match rv {
        Rvalue::Use(op) | Rvalue::Repeat(op, _) | Rvalue::Cast(_, op, _) => operand_check(table, locals, op)
            + operand_visit(table, locals, op),
        Rvalue::Ref(_, _, p) => place_check(table, locals, p) + place_check(table, locals, p),
        Rvalue::BinaryOp(_, a, b) | Rvalue::CheckedBinaryOp(_, a, b) => operand_check(table, locals, a)
            + operand_check(table, locals, b) + operand_visit(table, locals, a) + operand_visit(table, locals, b),
        Rvalue::UnaryOp(_, a) => operand_check(table, locals, a) + operand_visit(table, locals, a),
        Rvalue::Aggregate(_, ops) => operands_checked_visited(table, locals, ops@),
        Rvalue::AddressOf(_, p) | Rvalue::CopyForDeref(p) | Rvalue::Discriminant(p) | Rvalue::Len(p) => place_check(
            table,
            locals,
            p,
        ),
        Rvalue::ShallowInitBox(op, _) => operand_visit(table, locals, op),
        Rvalue::ThreadLocalRef(_) => Seq::empty(),
    }
}

/// The checks a statement makes.
pub open spec fn statement_checks(table: TyTable, locals: Seq<LocalDecl>, s: Statement) -> Seq<TyCheck> {
    match s.kind {
        StatementKind::Assign(p, rv) => place_check(table, locals, p) + rvalue_checks(table, locals, rv),
        StatementKind::FakeRead(_, p) => place_check(table, locals, p),
        StatementKind::SetDiscriminant { place, .. } => place_check(table, locals, place),
        StatementKind::Retag(_, p) => place_check(table, locals, p),
        StatementKind::PlaceMention(p) => place_check(table, locals, p),
        StatementKind::AscribeUserType { place, .. } => place_check(table, locals, place),
        StatementKind::Intrinsic(NonDivergingIntrinsic::Assume(op)) => operand_visit(table, locals, op),
        StatementKind::Intrinsic(NonDivergingIntrinsic::CopyForDeref(p)) => place_check(table, locals, p),
        _ => Seq::empty(),
    }
}

/// The checks of the operands of an assertion message.
pub open spec fn message_visits(table: TyTable, locals: Seq<LocalDecl>, m: AssertMessage) -> Seq<TyCheck> {
    match m {
        AssertMessage::BoundsCheck { len, index } => operand_visit(table, locals, len) + operand_visit(table, locals, index),
        AssertMessage::Overflow(_, a, b) => operand_visit(table, locals, a) + operand_visit(table, locals, b),
        AssertMessage::DivisionByZero(op) | AssertMessage::RemainderByZero(op) => operand_visit(table, locals, op),
        AssertMessage::Message(_) => Seq::empty(),
    }
}

/// The checks of the operands of inline assembly, in order.
pub open spec fn asm_visits(table: TyTable, locals: Seq<LocalDecl>, ops: Seq<InlineAsmOperand>) -> Seq<TyCheck>
    decreases ops.len(),
{
    if ops.len() == 0 {
        Seq::empty()
    } else {
        asm_visits(table, locals, ops.drop_last()) + match ops.last().value {
            Some(op) => operand_visit(table, locals, op),
            None => Seq::empty(),
        }
    }
}

/// The checks a terminator makes: those of its own, then those of the places its operands read.
pub open spec fn terminator_checks(table: TyTable, locals: Seq<LocalDecl>, k: TerminatorKind) -> Seq<TyCheck> {
    (match k {
        TerminatorKind::Call { func, args, destination, .. } => operand_check(table, locals, func) + place_check(
            table,
            locals,
            destination,
        ) + operands_checked(table, locals, args@),
        TerminatorKind::Drop { place, .. } => place_check(table, locals, place),
        TerminatorKind::Assert { cond, .. } => operand_check(table, locals, cond),
        _ => Seq::empty(),
    }) + match k {
        TerminatorKind::SwitchInt { discr, .. } => operand_visit(table, locals, discr),
        TerminatorKind::Drop { place, .. } => place_check(table, locals, place),
        TerminatorKind::Call { func, args, destination, .. } => operand_visit(table, locals, func) + operands_visited(
            table,
            locals,
            args@,
        ) + place_check(table, locals, destination),
        TerminatorKind::Assert { cond, msg, .. } => operand_visit(table, locals, cond) + message_visits(table, locals, msg),
        TerminatorKind::InlineAsm { operands, .. } => asm_visits(table, locals, operands@),
        _ => Seq::empty(),
    }
}

/// The checks of statements `stmts`, in order.
pub open spec fn statements_checks(table: TyTable, locals: Seq<LocalDecl>, stmts: Seq<Statement>) -> Seq<TyCheck>
    decreases stmts.len(),
{
    if stmts.len() == 0 {
        Seq::empty()
    } else {
        statements_checks(table, locals, stmts.drop_last()) + statement_checks(table, locals, stmts.last())
    }
}

/// The checks of blocks `blocks`, each block's statements then its terminator.
pub open spec fn blocks_checks(table: TyTable, locals: Seq<LocalDecl>, blocks: Seq<BasicBlock>) -> Seq<TyCheck>
    decreases blocks.len(),
{
    if blocks.len() == 0 {
        Seq::empty()
    } else {
        blocks_checks(table, locals, blocks.drop_last()) + statements_checks(table, locals, blocks.last().statements@)
            + terminator_checks(table, locals, blocks.last().terminator.kind)
    }
}

/// The checks the code of `body` makes.
pub open spec fn body_checks(table: TyTable, body: Body) -> Seq<TyCheck> {
    blocks_checks(table, body.locals_spec(), body.blocks_spec())
}

/// Two checks agree: the same type, and the same place or none.
pub open spec fn check_eq(a: TyCheck, b: TyCheck) -> bool {
    a.0 == b.0 && match (a.1, b.1) {
        (Some(p), Some(q)) => crate::stable_mir::mir::place::same_place(p, q),
        (None, None) => true,
        _ => false,
    }
}

/// Two check sequences agree element by element.
pub open spec fn checks_eq(a: Seq<TyCheck>, b: Seq<TyCheck>) -> bool {
    a.len() == b.len() && forall|k: int| 0 <= k < a.len() ==> #[trigger] check_eq(a[k], b[k])
}

/// Collects the checks a body's code makes, in order.
struct CheckCollector<'a> {
    locals: &'a [LocalDecl],
    table: &'a TyTable,
    checks: Vec<TyCheck>,
}

proof fn lemma_checks_eq_append(a: Seq<TyCheck>, b: Seq<TyCheck>, c: Seq<TyCheck>, d: Seq<TyCheck>)
    requires
        checks_eq(a, b),
        checks_eq(c, d),
    ensures
        checks_eq(a + c, b + d),
{
    assert forall|k: int| 0 <= k < (a + c).len() implies #[trigger] check_eq((a + c)[k], (b + d)[k]) by {
        if k < a.len() {
            assert(check_eq(a[k], b[k]));
        } else {
            assert(check_eq(c[k - a.len()], d[k - a.len()]));
        }
    }
}

impl<'a> CheckCollector<'a> {
    /// Records the check of place `p`.
    fn place(&mut self, p: &Place)
        ensures
            final(self).locals == old(self).locals,
            final(self).table == old(self).table,
            checks_eq(final(self).checks@, old(self).checks@ + place_check(*old(self).table, old(self).locals@, *p)),
    {
        let ghost before = self.checks@;
        if let Ok(t) = p.ty(self.locals, self.table) {
            self.checks.push((t, Some(copy_place(p))));
        }
        proof {
            assert forall|k: int| 0 <= k < self.checks@.len() implies #[trigger] check_eq(self.checks@[k], (before + place_check(*self.table, self.locals@, *p))[k]) by {
                if k < before.len() {
                    assert(self.checks@[k] == before[k]);
                }
            }
        }
    }

    /// Records the check of the type of `op`.
    fn operand_ty(&mut self, op: &Operand)
        ensures
            final(self).locals == old(self).locals,
            final(self).table == old(self).table,
            checks_eq(final(self).checks@, old(self).checks@ + operand_check(*old(self).table, old(self).locals@, *op)),
    {
        let ghost before = self.checks@;
        if let Ok(t) = op.ty(self.locals, self.table) {
            self.checks.push((t, None));
        }
        proof {
            assert forall|k: int| 0 <= k < self.checks@.len() implies #[trigger] check_eq(self.checks@[k], (before + operand_check(*self.table, self.locals@, *op))[k]) by {
                if k < before.len() {
                    assert(self.checks@[k] == before[k]);
                }
            }
        }
    }

    /// Records the check of the place `op` reads, where it reads one.
    fn operand_place(&mut self, op: &Operand)
        ensures
            final(self).locals == old(self).locals,
            final(self).table == old(self).table,
            checks_eq(final(self).checks@, old(self).checks@ + operand_visit(*old(self).table, old(self).locals@, *op)),
    {
        match op {
            Operand::Copy(p) | Operand::Move(p) => self.place(p),
            _ => {
                proof {
                    assert(self.checks@ + operand_visit(*self.table, self.locals@, *op) =~= self.checks@);
                    assert forall|k: int| 0 <= k < self.checks@.len() implies #[trigger] check_eq(self.checks@[k], self.checks@[k]) by {
                        crate::stable_mir::mir::place::lemma_same_place_refl_opt(self.checks@[k].1);
                    }
                }
            },
        }
    }
}


proof fn lemma_checks_eq_refl(a: Seq<TyCheck>)
    ensures
        checks_eq(a, a),
{
    assert forall|k: int| 0 <= k < a.len() implies #[trigger] check_eq(a[k], a[k]) by {
        crate::stable_mir::mir::place::lemma_same_place_refl_opt(a[k].1);
    }
}

/// Two steps of recording, each agreeing with what it should add, agree with both additions.
proof fn lemma_chain(s0: Seq<TyCheck>, s1: Seq<TyCheck>, s2: Seq<TyCheck>, a: Seq<TyCheck>, b: Seq<TyCheck>)
    requires
        checks_eq(s1, s0 + a),
        checks_eq(s2, s1 + b),
    ensures
        checks_eq(s2, s0 + (a + b)),
{
    lemma_checks_eq_refl(b);
    lemma_checks_eq_append(s1, s0 + a, b, b);
    assert(s0 + a + b =~= s0 + (a + b));
    assert forall|k: int| 0 <= k < s2.len() implies #[trigger] check_eq(s2[k], (s0 + (a + b))[k]) by {
        assert(check_eq(s2[k], (s1 + b)[k]));
        assert(check_eq((s1 + b)[k], (s0 + a + b)[k]));
    }
}

impl<'a> CheckCollector<'a> {
    /// Records the type check of each operand, then the check of the place it reads.
    fn operands_checked_visited(&mut self, ops: &Vec<Operand>)
        ensures
            final(self).locals == old(self).locals,
            final(self).table == old(self).table,
            checks_eq(final(self).checks@, old(self).checks@ + operands_checked_visited(*old(self).table, old(self).locals@, ops@)),
    {
        let ghost s0 = self.checks@;
        proof {
            assert(s0 + operands_checked_visited(*self.table, self.locals@, ops@.subrange(0, 0)) =~= s0);
            lemma_checks_eq_refl(s0);
        }
        let mut i: usize = 0;
        while i < ops.len()
            invariant
                i <= ops@.len(),
                self.locals == old(self).locals,
                self.table == old(self).table,
                s0 == old(self).checks@,
                checks_eq(self.checks@, s0 + operands_checked_visited(*self.table, self.locals@, ops@.subrange(0, i as int))),
            decreases ops@.len() - i,
        {
            let ghost s1 = self.checks@;
            self.operand_ty(&ops[i]);
            let ghost s2 = self.checks@;
            self.operand_place(&ops[i]);
            proof {
                let pre = operands_checked_visited(*self.table, self.locals@, ops@.subrange(0, i as int));
                let a = operand_check(*self.table, self.locals@, ops@[i as int]);
                let b = operand_visit(*self.table, self.locals@, ops@[i as int]);
                lemma_chain(s1, s2, self.checks@, a, b);
                lemma_chain(s0, s1, self.checks@, pre, a + b);
                assert(ops@.subrange(0, i + 1).drop_last() =~= ops@.subrange(0, i as int));
                assert(pre + (a + b) =~= operands_checked_visited(*self.table, self.locals@, ops@.subrange(0, i + 1)));
            }
            i = i + 1;
        }
        assert(ops@.subrange(0, ops@.len() as int) =~= ops@);
    }

    /// Records the type check of each operand.
    fn operands_checked(&mut self, ops: &Vec<Operand>)
        ensures
            final(self).locals == old(self).locals,
            final(self).table == old(self).table,
            checks_eq(final(self).checks@, old(self).checks@ + operands_checked(*old(self).table, old(self).locals@, ops@)),
    {
        let ghost s0 = self.checks@;
        proof {
            assert(s0 + operands_checked(*self.table, self.locals@, ops@.subrange(0, 0)) =~= s0);
            lemma_checks_eq_refl(s0);
        }
        let mut i: usize = 0;
        while i < ops.len()
            invariant
                i <= ops@.len(),
                self.locals == old(self).locals,
                self.table == old(self).table,
                s0 == old(self).checks@,
                checks_eq(self.checks@, s0 + operands_checked(*self.table, self.locals@, ops@.subrange(0, i as int))),
            decreases ops@.len() - i,
        {
            let ghost s1 = self.checks@;
            self.operand_ty(&ops[i]);
            proof {
                let pre = operands_checked(*self.table, self.locals@, ops@.subrange(0, i as int));
                let a = operand_check(*self.table, self.locals@, ops@[i as int]);
                lemma_chain(s0, s1, self.checks@, pre, a);
                assert(ops@.subrange(0, i + 1).drop_last() =~= ops@.subrange(0, i as int));
            }
            i = i + 1;
        }
        assert(ops@.subrange(0, ops@.len() as int) =~= ops@);
    }

    /// Records the check of the place each operand reads.
    fn operands_visited(&mut self, ops: &Vec<Operand>)
        ensures
            final(self).locals == old(self).locals,
            final(self).table == old(self).table,
            checks_eq(final(self).checks@, old(self).checks@ + operands_visited(*old(self).table, old(self).locals@, ops@)),
    {
        let ghost s0 = self.checks@;
        proof {
            assert(s0 + operands_visited(*self.table, self.locals@, ops@.subrange(0, 0)) =~= s0);
            lemma_checks_eq_refl(s0);
        }
        let mut i: usize = 0;
        while i < ops.len()
            invariant
                i <= ops@.len(),
                self.locals == old(self).locals,
                self.table == old(self).table,
                s0 == old(self).checks@,
                checks_eq(self.checks@, s0 + operands_visited(*self.table, self.locals@, ops@.subrange(0, i as int))),
            decreases ops@.len() - i,
        {
            let ghost s1 = self.checks@;
            self.operand_place(&ops[i]);
            proof {
                let pre = operands_visited(*self.table, self.locals@, ops@.subrange(0, i as int));
                let a = operand_visit(*self.table, self.locals@, ops@[i as int]);
                lemma_chain(s0, s1, self.checks@, pre, a);
                assert(ops@.subrange(0, i + 1).drop_last() =~= ops@.subrange(0, i as int));
            }
            i = i + 1;
        }
        assert(ops@.subrange(0, ops@.len() as int) =~= ops@);
    }

    /// Records the checks an rvalue makes.
    fn rvalue(&mut self, rv: &Rvalue)
        ensures
            final(self).locals == old(self).locals,
            final(self).table == old(self).table,
            checks_eq(final(self).checks@, old(self).checks@ + rvalue_checks(*old(self).table, old(self).locals@, *rv)),
    {
        let ghost s0 = self.checks@;
        let ghost t = *self.table;
        let ghost l = self.locals@;
        match rv {
            Rvalue::Use(op) | Rvalue::Repeat(op, _) | Rvalue::Cast(_, op, _) => {
                self.operand_ty(op);
                let ghost s1 = self.checks@;
                self.operand_place(op);
                proof { lemma_chain(s0, s1, self.checks@, operand_check(t, l, *op), operand_visit(t, l, *op)); }
            },
            Rvalue::Ref(_, _, p) => {
                self.place(p);
                let ghost s1 = self.checks@;
                self.place(p);
                proof { lemma_chain(s0, s1, self.checks@, place_check(t, l, *p), place_check(t, l, *p)); }
            },
            Rvalue::BinaryOp(_, a, b) | Rvalue::CheckedBinaryOp(_, a, b) => {
                self.operand_ty(a);
                let ghost s1 = self.checks@;
                self.operand_ty(b);
                let ghost s2 = self.checks@;
                self.operand_place(a);
                let ghost s3 = self.checks@;
                self.operand_place(b);
                proof {
                    lemma_chain(s0, s1, s2, operand_check(t, l, *a), operand_check(t, l, *b));
                    lemma_chain(s0, s2, s3, operand_check(t, l, *a) + operand_check(t, l, *b), operand_visit(t, l, *a));
                    lemma_chain(s0, s3, self.checks@, operand_check(t, l, *a) + operand_check(t, l, *b) + operand_visit(t, l, *a), operand_visit(t, l, *b));
                    assert(operand_check(t, l, *a) + operand_check(t, l, *b) + operand_visit(t, l, *a) + operand_visit(t, l, *b) =~= rvalue_checks(t, l, *rv));
                }
            },
            Rvalue::UnaryOp(_, a) => {
                self.operand_ty(a);
                let ghost s1 = self.checks@;
                self.operand_place(a);
                proof { lemma_chain(s0, s1, self.checks@, operand_check(t, l, *a), operand_visit(t, l, *a)); }
            },
            Rvalue::Aggregate(_, ops) => {
                self.operands_checked_visited(ops);
            },
            Rvalue::AddressOf(_, p) | Rvalue::CopyForDeref(p) | Rvalue::Discriminant(p) | Rvalue::Len(p) => {
                self.place(p);
            },
            Rvalue::ShallowInitBox(op, _) => {
                self.operand_place(op);
            },
            Rvalue::ThreadLocalRef(_) => {
                proof {
                    assert(s0 + rvalue_checks(t, l, *rv) =~= s0);
                    lemma_checks_eq_refl(s0);
                }
            },
        }
    }

    /// Records the checks a statement makes.
    fn statement(&mut self, s: &Statement)
        ensures
            final(self).locals == old(self).locals,
            final(self).table == old(self).table,
            checks_eq(final(self).checks@, old(self).checks@ + statement_checks(*old(self).table, old(self).locals@, *s)),
    {
        let ghost s0 = self.checks@;
        let ghost t = *self.table;
        let ghost l = self.locals@;
        match &s.kind {
            StatementKind::Assign(p, rv) => {
                self.place(p);
                let ghost s1 = self.checks@;
                self.rvalue(rv);
                proof { lemma_chain(s0, s1, self.checks@, place_check(t, l, *p), rvalue_checks(t, l, *rv)); }
            },
            StatementKind::FakeRead(_, p) => self.place(p),
            StatementKind::SetDiscriminant { place, .. } => self.place(place),
            StatementKind::Retag(_, p) => self.place(p),
            StatementKind::PlaceMention(p) => self.place(p),
            StatementKind::AscribeUserType { place, .. } => self.place(place),
            StatementKind::Intrinsic(NonDivergingIntrinsic::Assume(op)) => self.operand_place(op),
            StatementKind::Intrinsic(NonDivergingIntrinsic::CopyForDeref(p)) => self.place(p),
            _ => {
                proof {
                    assert(s0 + statement_checks(t, l, *s) =~= s0);
                    lemma_checks_eq_refl(s0);
                }
            },
        }
    }

    /// Records the checks of an assertion message's operands.
    fn message(&mut self, m: &AssertMessage)
        ensures
            final(self).locals == old(self).locals,
            final(self).table == old(self).table,
            checks_eq(final(self).checks@, old(self).checks@ + message_visits(*old(self).table, old(self).locals@, *m)),
    {
        let ghost s0 = self.checks@;
        let ghost t = *self.table;
        let ghost l = self.locals@;
        match m {
            AssertMessage::BoundsCheck { len, index } => {
                self.operand_place(len);
                let ghost s1 = self.checks@;
                self.operand_place(index);
                proof { lemma_chain(s0, s1, self.checks@, operand_visit(t, l, *len), operand_visit(t, l, *index)); }
            },
            AssertMessage::Overflow(_, a, b) => {
                self.operand_place(a);
                let ghost s1 = self.checks@;
                self.operand_place(b);
                proof { lemma_chain(s0, s1, self.checks@, operand_visit(t, l, *a), operand_visit(t, l, *b)); }
            },
            AssertMessage::DivisionByZero(op) | AssertMessage::RemainderByZero(op) => self.operand_place(op),
            AssertMessage::Message(_) => {
                proof {
                    assert(s0 + message_visits(t, l, *m) =~= s0);
                    lemma_checks_eq_refl(s0);
                }
            },
        }
    }

    /// Records the checks of inline assembly operands.
    fn asm_operands(&mut self, ops: &Vec<InlineAsmOperand>)
        ensures
            final(self).locals == old(self).locals,
            final(self).table == old(self).table,
            checks_eq(final(self).checks@, old(self).checks@ + asm_visits(*old(self).table, old(self).locals@, ops@)),
    {
        let ghost s0 = self.checks@;
        proof {
            assert(s0 + asm_visits(*self.table, self.locals@, ops@.subrange(0, 0)) =~= s0);
            lemma_checks_eq_refl(s0);
        }
        let mut i: usize = 0;
        while i < ops.len()
            invariant
                i <= ops@.len(),
                self.locals == old(self).locals,
                self.table == old(self).table,
                s0 == old(self).checks@,
                checks_eq(self.checks@, s0 + asm_visits(*self.table, self.locals@, ops@.subrange(0, i as int))),
            decreases ops@.len() - i,
        {
            let ghost s1 = self.checks@;
            let ghost here = match ops@[i as int].value {
                Some(op) => operand_visit(*self.table, self.locals@, op),
                None => Seq::empty(),
            };
            match &ops[i].value {
                Some(op) => self.operand_place(op),
                None => {
                    proof {
                        assert(s1 + here =~= s1);
                        lemma_checks_eq_refl(s1);
                    }
                },
            }
            proof {
                let pre = asm_visits(*self.table, self.locals@, ops@.subrange(0, i as int));
                lemma_chain(s0, s1, self.checks@, pre, here);
                assert(ops@.subrange(0, i + 1).drop_last() =~= ops@.subrange(0, i as int));
            }
            i = i + 1;
        }
        assert(ops@.subrange(0, ops@.len() as int) =~= ops@);
    }

    /// Records the checks a terminator makes.
    fn terminator(&mut self, k: &TerminatorKind)
        ensures
            final(self).locals == old(self).locals,
            final(self).table == old(self).table,
            checks_eq(final(self).checks@, old(self).checks@ + terminator_checks(*old(self).table, old(self).locals@, *k)),
    {
        let ghost s0 = self.checks@;
        let ghost t = *self.table;
        let ghost l = self.locals@;
        match k {
            TerminatorKind::Call { func, args, destination, .. } => {
                self.operand_ty(func);
                let ghost s1 = self.checks@;
                self.place(destination);
                let ghost s2 = self.checks@;
                self.operands_checked(args);
                let ghost s3 = self.checks@;
                self.operand_place(func);
                let ghost s4 = self.checks@;
                self.operands_visited(args);
                let ghost s5 = self.checks@;
                self.place(destination);
                proof {
                    let a = operand_check(t, l, *func);
                    let b = place_check(t, l, *destination);
                    let c = operands_checked(t, l, args@);
                    let d = operand_visit(t, l, *func);
                    let e = operands_visited(t, l, args@);
                    let f = place_check(t, l, *destination);
                    lemma_chain(s0, s1, s2, a, b);
                    lemma_chain(s0, s2, s3, a + b, c);
                    lemma_chain(s0, s3, s4, a + b + c, d);
                    lemma_chain(s0, s4, s5, a + b + c + d, e);
                    lemma_chain(s0, s5, self.checks@, a + b + c + d + e, f);
                    assert(a + b + c + d + e + f =~= terminator_checks(t, l, *k));
                }
            },
            TerminatorKind::Drop { place, .. } => {
                self.place(place);
                let ghost s1 = self.checks@;
                self.place(place);
                proof {
                    lemma_chain(s0, s1, self.checks@, place_check(t, l, *place), place_check(t, l, *place));
                }
            },
            TerminatorKind::Assert { cond, msg, .. } => {
                self.operand_ty(cond);
                let ghost s1 = self.checks@;
                self.operand_place(cond);
                let ghost s2 = self.checks@;
                self.message(msg);
                proof {
                    lemma_chain(s0, s1, s2, operand_check(t, l, *cond), operand_visit(t, l, *cond));
                    lemma_chain(s0, s2, self.checks@, operand_check(t, l, *cond) + operand_visit(t, l, *cond), message_visits(t, l, *msg));
                    assert(operand_check(t, l, *cond) + operand_visit(t, l, *cond) + message_visits(t, l, *msg) =~= terminator_checks(t, l, *k));
                }
            },
            TerminatorKind::SwitchInt { discr, .. } => {
                self.operand_place(discr);
                proof { assert(terminator_checks(t, l, *k) =~= operand_visit(t, l, *discr)); }
            },
            TerminatorKind::InlineAsm { operands, .. } => {
                self.asm_operands(operands);
                proof { assert(terminator_checks(t, l, *k) =~= asm_visits(t, l, operands@)); }
            },
            _ => {
                proof {
                    assert(s0 + terminator_checks(t, l, *k) =~= s0);
                    lemma_checks_eq_refl(s0);
                }
            },
        }
    }
}

/// The checks the code of `body` makes, block by block.
pub fn collect_body_checks(body: &Body, table: &TyTable) -> (r: Vec<TyCheck>)
    ensures
        checks_eq(r@, body_checks(*table, *body)),
{
    let blocks = body.basic_blocks();
    let mut c = CheckCollector { locals: body.locals(), table, checks: Vec::new() };
    proof {
        assert(c.checks@ =~= blocks_checks(*table, body.locals_spec(), blocks@.subrange(0, 0)));
        lemma_checks_eq_refl(c.checks@);
    }
    let mut b: usize = 0;
    while b < blocks.len()
        invariant
            b <= blocks@.len(),
            blocks@ == body.blocks_spec(),
            c.locals@ == body.locals_spec(),
            c.table == table,
            checks_eq(c.checks@, blocks_checks(*table, body.locals_spec(), blocks@.subrange(0, b as int))),
        decreases blocks@.len() - b,
    {
        let bb = &blocks[b];
        let ghost s_start = c.checks@;
        let ghost pre_b = blocks_checks(*table, body.locals_spec(), blocks@.subrange(0, b as int));
        let mut k: usize = 0;
        proof {
            assert(s_start + statements_checks(*table, body.locals_spec(), bb.statements@.subrange(0, 0)) =~= s_start);
            lemma_checks_eq_refl(s_start);
        }
        while k < bb.statements.len()
            invariant
                k <= bb.statements@.len(),
                c.locals@ == body.locals_spec(),
                c.table == table,
                checks_eq(c.checks@, s_start + statements_checks(*table, body.locals_spec(), bb.statements@.subrange(0, k as int))),
            decreases bb.statements@.len() - k,
        {
            let ghost s1 = c.checks@;
            c.statement(&bb.statements[k]);
            proof {
                let pre = statements_checks(*table, body.locals_spec(), bb.statements@.subrange(0, k as int));
                lemma_chain(s_start, s1, c.checks@, pre, statement_checks(*table, body.locals_spec(), bb.statements@[k as int]));
                assert(bb.statements@.subrange(0, k + 1).drop_last() =~= bb.statements@.subrange(0, k as int));
            }
            k = k + 1;
        }
        let ghost s2 = c.checks@;
        c.terminator(&bb.terminator.kind);
        proof {
            assert(bb.statements@.subrange(0, bb.statements@.len() as int) =~= bb.statements@);
            let st = statements_checks(*table, body.locals_spec(), bb.statements@);
            let te = terminator_checks(*table, body.locals_spec(), bb.terminator.kind);
            lemma_chain(s_start, s2, c.checks@, st, te);
            lemma_checks_eq_refl(st + te);
            lemma_checks_eq_append(s_start, pre_b, st + te, st + te);
            assert forall|i: int| 0 <= i < c.checks@.len() implies #[trigger] check_eq(c.checks@[i], (pre_b + (st + te))[i]) by {
                assert(check_eq(c.checks@[i], (s_start + (st + te))[i]));
                assert(check_eq((s_start + (st + te))[i], (pre_b + (st + te))[i]));
            }
            assert(blocks@.subrange(0, b + 1).drop_last() =~= blocks@.subrange(0, b as int));
            assert(blocks@.subrange(0, b + 1).last() == *bb);
            assert(pre_b + (st + te) =~= blocks_checks(*table, body.locals_spec(), blocks@.subrange(0, b + 1)));
        }
        b = b + 1;
    }
    proof {
        assert(blocks@.subrange(0, blocks@.len() as int) =~= blocks@);
    }
    c.checks
}


/// The texts of a list of signatures.
pub open spec fn sig_texts(v: Seq<TySignature>) -> Set<Seq<char>> {
    v.map_values(|x: TySignature| x.type_str@).to_set()
}

/// The printed types among `checks` for which `pred` holds.
pub open spec fn checked_texts(table: TyTable, checks: Seq<TyCheck>, pred: spec_fn(Seq<char>) -> bool) -> Set<Seq<char>> {
    Set::new(|t: Seq<char>| exists|k: int| 0 <= k < checks.len() && table.text_of((#[trigger] checks[k]).0) == t && pred(t))
}

/// The printed type of the last check among `checks` of a place of `local` for which `pred`
/// holds.
pub open spec fn last_text_for(table: TyTable, checks: Seq<TyCheck>, local: Local, pred: spec_fn(Seq<char>) -> bool) -> Option<Seq<char>>
    decreases checks.len(),
{
    if checks.len() == 0 {
        None
    } else {
        let c = checks.last();
        if c.1 matches Some(p) && p.local == local && pred(table.text_of(c.0)) {
            Some(table.text_of(c.0))
        } else {
            last_text_for(table, checks.drop_last(), local, pred)
        }
    }
}

/// The signature listed for `local`, where there is one.
pub open spec fn sig_for(m: Seq<(Local, TySignature)>, local: Local) -> Option<Seq<char>> {
    if exists|i: int| 0 <= i < m.len() && (#[trigger] m[i]).0 == local {
        Some(m[choose|i: int| 0 <= i < m.len() && (#[trigger] m[i]).0 == local].1.type_str@)
    } else {
        None
    }
}

/// Each local is listed once.
pub open spec fn locals_unique(m: Seq<(Local, TySignature)>) -> bool {
    forall|i: int, j: int| 0 <= i < m.len() && 0 <= j < m.len() && (#[trigger] m[i]).0 == (#[trigger] m[j]).0 ==> i == j
}

/// Adds `sig` to `v` unless a signature with its text is there.
fn insert_sig(v: &mut Vec<TySignature>, sig: TySignature)
    ensures
        sig_texts(final(v)@) == sig_texts(old(v)@).insert(sig.type_str@),
{
    let mut i: usize = 0;
    while i < v.len()
        invariant
            i <= v@.len(),
            v@ == old(v)@,
        decreases v@.len() - i,
    {
        if v[i].type_str == sig.type_str {
            proof {
                assert(v@.map_values(|x: TySignature| x.type_str@)[i as int] == sig.type_str@);
                assert(sig_texts(v@) =~= sig_texts(v@).insert(sig.type_str@));
            }
            return;
        }
        i = i + 1;
    }
    let ghost before = v@;
    v.push(sig);
    proof {
        assert(v@.map_values(|x: TySignature| x.type_str@) =~= before.map_values(|x: TySignature| x.type_str@).push(sig.type_str@));
        assert(sig_texts(v@) =~= sig_texts(before).insert(sig.type_str@));
    }
}

/// Lists `sig` for `local`, replacing what was listed for it.
fn set_local_sig(m: &mut Vec<(Local, TySignature)>, local: Local, sig: TySignature)
    requires
        locals_unique(old(m)@),
    ensures
        locals_unique(final(m)@),
        sig_for(final(m)@, local) == Some(sig.type_str@),
        forall|l: Local| l != local ==> #[trigger] sig_for(final(m)@, l) == sig_for(old(m)@, l),
{
    let mut i: usize = 0;
    while i < m.len()
        invariant
            i <= m@.len(),
            m@ == old(m)@,
            locals_unique(m@),
            forall|k: int| 0 <= k < i ==> (#[trigger] m@[k]).0 != local,
        decreases m@.len() - i,
    {
        if m[i].0 == local {
            let ghost before = m@;
            m.set(i, (local, sig));
            proof {
                assert forall|a: int, b: int| 0 <= a < m@.len() && 0 <= b < m@.len() && (#[trigger] m@[a]).0 == (#[trigger] m@[b]).0 implies a == b by {
                    assert(m@[a].0 == before[a].0 && m@[b].0 == before[b].0);
                }
                assert forall|l: Local| l != local implies #[trigger] sig_for(m@, l) == sig_for(before, l) by {
                    if exists|a: int| 0 <= a < m@.len() && (#[trigger] m@[a]).0 == l {
                        let a = choose|a: int| 0 <= a < m@.len() && (#[trigger] m@[a]).0 == l;
                        assert(before[a].0 == l);
                        let b = choose|b: int| 0 <= b < before.len() && (#[trigger] before[b]).0 == l;
                        assert(m@[b].0 == l);
                    } else if exists|a: int| 0 <= a < before.len() && (#[trigger] before[a]).0 == l {
                        let a = choose|a: int| 0 <= a < before.len() && (#[trigger] before[a]).0 == l;
                        assert(m@[a].0 == l);
                    }
                }
                assert(m@[i as int].0 == local);
            }
            return;
        }
        i = i + 1;
    }
    let ghost before = m@;
    m.push((local, sig));
    proof {
        let last = m@.len() - 1;
        assert(m@[last].0 == local);
        assert forall|a: int, b: int| 0 <= a < m@.len() && 0 <= b < m@.len() && (#[trigger] m@[a]).0 == (#[trigger] m@[b]).0 implies a == b by {
            if a < last && b < last {
                assert(m@[a] == before[a] && m@[b] == before[b]);
            } else if a < last {
                assert(m@[a] == before[a]);
            } else if b < last {
                assert(m@[b] == before[b]);
            }
        }
        assert forall|l: Local| l != local implies #[trigger] sig_for(m@, l) == sig_for(before, l) by {
            if exists|a: int| 0 <= a < m@.len() && (#[trigger] m@[a]).0 == l {
                let a = choose|a: int| 0 <= a < m@.len() && (#[trigger] m@[a]).0 == l;
                assert(a != last);
                assert(before[a].0 == l);
                let b = choose|b: int| 0 <= b < before.len() && (#[trigger] before[b]).0 == l;
                assert(m@[b].0 == l);
            } else if exists|a: int| 0 <= a < before.len() && (#[trigger] before[a]).0 == l {
                let a = choose|a: int| 0 <= a < before.len() && (#[trigger] before[a]).0 == l;
                assert(m@[a].0 == l);
            }
        }
    }
}

/// The lock and guard types that the code of a body mentions, and the locals and places
/// that have them.
pub struct MirVisitorTypeCollector<'a> {
    body: &'a Body,
    table: &'a TyTable,
    instance_name: String,
    lock_signatures: Vec<TySignature>,
    guard_signatures: Vec<TySignature>,
    locals_with_locks: Vec<(Local, TySignature)>,
    locals_with_guards: Vec<(Local, TySignature)>,
    lock_places: Vec<Place>,
    guard_places: Vec<Place>,
}

/// `t` is the printed form of a lock.
pub open spec fn lock_pred() -> spec_fn(Seq<char>) -> bool {
    |t: Seq<char>| is_lock_text(t)
}

/// `t` is the printed form of a lock guard.
pub open spec fn guard_pred() -> spec_fn(Seq<char>) -> bool {
    |t: Seq<char>| is_guard_text(t)
}

impl<'a> MirVisitorTypeCollector<'a> {
    /// The texts of the lock types found.
    pub closed spec fn lock_texts(&self) -> Set<Seq<char>> {
        sig_texts(self.lock_signatures@)
    }

    /// The texts of the guard types found.
    pub closed spec fn guard_texts(&self) -> Set<Seq<char>> {
        sig_texts(self.guard_signatures@)
    }

    /// The lock type found last for `local`.
    pub closed spec fn lock_of_local(&self, local: Local) -> Option<Seq<char>> {
        sig_for(self.locals_with_locks@, local)
    }

    /// The guard type found last for `local`.
    pub closed spec fn guard_of_local(&self, local: Local) -> Option<Seq<char>> {
        sig_for(self.locals_with_guards@, local)
    }

    /// The name of the instance the collector reads.
    pub closed spec fn instance_text(&self) -> Seq<char> {
        self.instance_name@
    }

    /// The lock types found, in order.
    pub closed spec fn lock_sigs(&self) -> Seq<TySignature> {
        self.lock_signatures@
    }

    /// The guard types found, in order.
    pub closed spec fn guard_sigs(&self) -> Seq<TySignature> {
        self.guard_signatures@
    }

    /// The locals found with a lock type.
    pub closed spec fn lock_locals(&self) -> Seq<(Local, TySignature)> {
        self.locals_with_locks@
    }

    /// The locals found with a guard type.
    pub closed spec fn guard_locals(&self) -> Seq<(Local, TySignature)> {
        self.locals_with_guards@
    }

    /// The summary of what was found.
    pub open spec fn summary_spec(&self) -> Seq<char> {
        visitor_summary(self.instance_text(), self.lock_sigs(), self.guard_sigs(), self.lock_locals().len(), self.guard_locals().len())
    }

    /// What was found hangs together: each guard type is a lock type, each lock
    /// type names a lock and each guard type a guard, each local with a guard
    /// type also has a lock type, and the type found for a local is among the
    /// types found.
    pub open spec fn consistent(&self) -> bool {
        &&& forall|t: Seq<char>| #[trigger] self.guard_texts().contains(t) ==> self.lock_texts().contains(t) && is_guard_text(t)
        &&& forall|t: Seq<char>| #[trigger] self.lock_texts().contains(t) ==> is_lock_text(t)
        &&& forall|l: Local| #[trigger] self.guard_of_local(l) is Some ==> self.lock_of_local(l) is Some
        &&& forall|l: Local| #[trigger] self.lock_of_local(l) is Some ==> self.lock_texts().contains(self.lock_of_local(l).unwrap())
        &&& forall|l: Local| #[trigger] self.guard_of_local(l) is Some ==> self.guard_texts().contains(self.guard_of_local(l).unwrap())
    }

    /// The texts found are those of the signatures found.
    pub proof fn lemma_texts(&self)
        ensures
            self.lock_texts() == sig_texts(self.lock_sigs()),
            self.guard_texts() == sig_texts(self.guard_sigs()),
            forall|l: Local| #[trigger] self.lock_of_local(l) == sig_for(self.lock_locals(), l),
            forall|l: Local| #[trigger] self.guard_of_local(l) == sig_for(self.guard_locals(), l),
    {
    }

    /// The body and table the collector reads.
    pub closed spec fn source(&self) -> (Body, TyTable) {
        (*self.body, *self.table)
    }

    /// The collector's maps list each local once.
    pub closed spec fn wf(&self) -> bool {
        locals_unique(self.locals_with_locks@) && locals_unique(self.locals_with_guards@)
    }

    /// A collector for `body` of the instance `instance_name` that has found nothing yet.
    pub fn new(body: &'a Body, instance_name: String, table: &'a TyTable) -> (r: Self)
        ensures
            r.wf(),
            r.source() == (*body, *table),
            r.lock_texts() == Set::<Seq<char>>::empty(),
            r.guard_texts() == Set::<Seq<char>>::empty(),
            forall|l: Local| #[trigger] r.lock_of_local(l) is None && r.guard_of_local(l) is None,
            r.instance_text() == instance_name@,
            r.lock_sigs().len() == 0,
            r.guard_sigs().len() == 0,
            r.lock_locals().len() == 0,
            r.guard_locals().len() == 0,
            r.consistent(),
    {
        let r = Self {
            body,
            table,
            instance_name,
            lock_signatures: Vec::new(),
            guard_signatures: Vec::new(),
            locals_with_locks: Vec::new(),
            locals_with_guards: Vec::new(),
            lock_places: Vec::new(),
            guard_places: Vec::new(),
        };
        proof {
            assert(sig_texts(r.lock_signatures@) =~= Set::<Seq<char>>::empty());
            assert(sig_texts(r.guard_signatures@) =~= Set::<Seq<char>>::empty());
        }
        r
    }

    /// Records every lock and guard type that the body's code mentions, with the local of
    /// the place it is the type of, where there is one.
    pub fn analyze(&mut self)
        requires
            old(self).wf(),
        ensures
            final(self).wf(),
            final(self).source() == old(self).source(),
            final(self).instance_text() == old(self).instance_text(),
            final(self).lock_texts() == old(self).lock_texts().union(
                checked_texts(old(self).source().1, body_checks(old(self).source().1, old(self).source().0), lock_pred()),
            ),
            final(self).guard_texts() == old(self).guard_texts().union(
                checked_texts(old(self).source().1, body_checks(old(self).source().1, old(self).source().0), guard_pred()),
            ),
            forall|l: Local| #[trigger] final(self).lock_of_local(l) == match last_text_for(old(self).source().1, body_checks(old(self).source().1, old(self).source().0), l, lock_pred()) {
                Some(t) => Some(t),
                None => old(self).lock_of_local(l),
            },
            forall|l: Local| #[trigger] final(self).guard_of_local(l) == match last_text_for(old(self).source().1, body_checks(old(self).source().1, old(self).source().0), l, guard_pred()) {
                Some(t) => Some(t),
                None => old(self).guard_of_local(l),
            },
    {
        let checks = collect_body_checks(self.body, self.table);
        let ghost spec_checks = body_checks(*self.table, *self.body);
        let ghost t = *self.table;
        let ghost locks0 = sig_texts(self.lock_signatures@);
        let ghost guards0 = sig_texts(self.guard_signatures@);
        let ghost lm0 = self.locals_with_locks@;
        let ghost gm0 = self.locals_with_guards@;
        let mut i: usize = 0;
        while i < checks.len()
            invariant
                i <= checks@.len(),
                checks_eq(checks@, spec_checks),
                self.instance_name@ == old(self).instance_name@,
                t == *self.table,
                self.body == old(self).body,
                self.table == old(self).table,
                locals_unique(self.locals_with_locks@),
                locals_unique(self.locals_with_guards@),
                sig_texts(self.lock_signatures@) == locks0.union(checked_texts(t, checks@.subrange(0, i as int), lock_pred())),
                sig_texts(self.guard_signatures@) == guards0.union(checked_texts(t, checks@.subrange(0, i as int), guard_pred())),
                forall|l: Local| #[trigger] sig_for(self.locals_with_locks@, l) == match last_text_for(t, checks@.subrange(0, i as int), l, lock_pred()) {
                    Some(x) => Some(x),
                    None => sig_for(lm0, l),
                },
                forall|l: Local| #[trigger] sig_for(self.locals_with_guards@, l) == match last_text_for(t, checks@.subrange(0, i as int), l, guard_pred()) {
                    Some(x) => Some(x),
                    None => sig_for(gm0, l),
                },
            decreases checks@.len() - i,
        {
            let ghost pre = checks@.subrange(0, i as int);
            let ghost post = checks@.subrange(0, i + 1);
            let ghost c = checks@[i as int];
            let place = match &checks[i].1 {
                Some(p) => Some(p),
                None => None,
            };
            self.check_ty_signature(&checks[i].0, place);
            proof {
                assert(post.drop_last() =~= pre);
                assert(post.last() == c);
                assert(checked_texts(t, post, lock_pred()) =~= if is_lock_text(t.text_of(c.0)) {
                    checked_texts(t, pre, lock_pred()).insert(t.text_of(c.0))
                } else {
                    checked_texts(t, pre, lock_pred())
                });
                assert(checked_texts(t, post, guard_pred()) =~= if is_guard_text(t.text_of(c.0)) {
                    checked_texts(t, pre, guard_pred()).insert(t.text_of(c.0))
                } else {
                    checked_texts(t, pre, guard_pred())
                });
            }
            i = i + 1;
        }
        proof {
            assert(checks@.subrange(0, checks@.len() as int) =~= checks@);
            lemma_checked_texts_eq(t, checks@, spec_checks, lock_pred());
            lemma_checked_texts_eq(t, checks@, spec_checks, guard_pred());
            assert forall|l: Local| #[trigger] last_text_for(t, checks@, l, lock_pred()) == last_text_for(t, spec_checks, l, lock_pred()) by {
                lemma_last_text_eq(t, checks@, spec_checks, l, lock_pred());
            }
            assert forall|l: Local| #[trigger] last_text_for(t, checks@, l, guard_pred()) == last_text_for(t, spec_checks, l, guard_pred()) by {
                lemma_last_text_eq(t, checks@, spec_checks, l, guard_pred());
            }
        }
    }

    /// Records `ty` where it is a lock or a guard type, with the local of `place`.
    fn check_ty_signature(&mut self, ty: &Ty, place: Option<&Place>)
        requires
            locals_unique(old(self).locals_with_locks@),
            locals_unique(old(self).locals_with_guards@),
        ensures
            final(self).body == old(self).body,
            final(self).table == old(self).table,
            final(self).instance_name@ == old(self).instance_name@,
            locals_unique(final(self).locals_with_locks@),
            locals_unique(final(self).locals_with_guards@),
            sig_texts(final(self).lock_signatures@) == if is_lock_text(old(self).table.text_of(*ty)) {
                sig_texts(old(self).lock_signatures@).insert(old(self).table.text_of(*ty))
            } else {
                sig_texts(old(self).lock_signatures@)
            },
            sig_texts(final(self).guard_signatures@) == if is_guard_text(old(self).table.text_of(*ty)) {
                sig_texts(old(self).guard_signatures@).insert(old(self).table.text_of(*ty))
            } else {
                sig_texts(old(self).guard_signatures@)
            },
            forall|l: Local| #[trigger] sig_for(final(self).locals_with_locks@, l) == if place matches Some(p) && p.local == l && is_lock_text(old(self).table.text_of(*ty)) {
                Some(old(self).table.text_of(*ty))
            } else {
                sig_for(old(self).locals_with_locks@, l)
            },
            forall|l: Local| #[trigger] sig_for(final(self).locals_with_guards@, l) == if place matches Some(p) && p.local == l && is_guard_text(old(self).table.text_of(*ty)) {
                Some(old(self).table.text_of(*ty))
            } else {
                sig_for(old(self).locals_with_guards@, l)
            },
    {
        let sig = TySignature::from_ty(ty, self.table);
        if sig.is_lock_type() {
            insert_sig(&mut self.lock_signatures, sig.copy());
            if let Some(p) = place {
                self.lock_places.push(copy_place(p));
                set_local_sig(&mut self.locals_with_locks, p.local, sig.copy());
            }
        }
        if sig.is_guard_type() {
            insert_sig(&mut self.guard_signatures, sig.copy());
            if let Some(p) = place {
                self.guard_places.push(copy_place(p));
                set_local_sig(&mut self.locals_with_guards, p.local, sig.copy());
            }
        }
    }

    /// The lock types found.
    pub fn lock_signatures(&self) -> (r: &Vec<TySignature>)
        ensures
            r@ == self.lock_sigs(),
            sig_texts(r@) == self.lock_texts(),
    {
        &self.lock_signatures
    }

    /// The guard types found.
    pub fn guard_signatures(&self) -> (r: &Vec<TySignature>)
        ensures
            r@ == self.guard_sigs(),
            sig_texts(r@) == self.guard_texts(),
    {
        &self.guard_signatures
    }

    /// The locals found with a lock type, each with the last one found for it.
    pub fn locals_with_locks(&self) -> (r: &Vec<(Local, TySignature)>)
        ensures
            r@ == self.lock_locals(),
            locals_unique(r@) <== self.wf(),
            forall|l: Local| #[trigger] sig_for(r@, l) == self.lock_of_local(l),
    {
        &self.locals_with_locks
    }

    /// The locals found with a guard type, each with the last one found for it.
    pub fn locals_with_guards(&self) -> (r: &Vec<(Local, TySignature)>)
        ensures
            r@ == self.guard_locals(),
            locals_unique(r@) <== self.wf(),
            forall|l: Local| #[trigger] sig_for(r@, l) == self.guard_of_local(l),
    {
        &self.locals_with_guards
    }

    /// Whether any lock or guard type was found.
    pub fn has_lock_types(&self) -> (r: bool)
        ensures
            r == (self.lock_texts().len() > 0 || self.guard_texts().len() > 0),
    {
        proof {
            lemma_sig_texts_empty(self.lock_signatures@);
            lemma_sig_texts_empty(self.guard_signatures@);
        }
        self.lock_signatures.len() > 0 || self.guard_signatures.len() > 0
    }

    /// A summary of what was found: the instance, the lock and guard types, and how many
    /// locals have each.
    #[verifier::spinoff_prover]
    #[verifier::rlimit(50)]
    pub fn format_summary(&self) -> (r: String)
        ensures
            r@ == self.summary_spec(),
    {
        let mut output = String::new();
        output.append("Instance: ");
        output.append(self.instance_name.as_str());
        output.append("\n");
        let ghost s0 = output@;
        let ghost locks = self.lock_signatures@;
        let ghost guards = self.guard_signatures@;
        let ghost sec1 = if locks.len() > 0 {
            "  Lock types found: "@ + crate::text::decimal(locks.len()) + "\n"@ + indented("    - "@, locks.map_values(|x: TySignature| x.type_str@))
        } else {
            Seq::empty()
        };
        let ghost sec2 = if guards.len() > 0 {
            "  Guard types found: "@ + crate::text::decimal(guards.len()) + "\n"@ + indented("    - "@, guards.map_values(|x: TySignature| x.type_str@))
        } else {
            Seq::empty()
        };
        if self.lock_signatures.len() > 0 {
            output.append("  Lock types found: ");
            push_decimal(&mut output, self.lock_signatures.len());
            output.append("\n");
            let lines = sig_lines(&self.lock_signatures);
            append_indented(&mut output, "    - ", &lines);
        }
        assert(output@ =~= s0 + sec1);
        let ghost s1 = output@;
        if self.guard_signatures.len() > 0 {
            output.append("  Guard types found: ");
            push_decimal(&mut output, self.guard_signatures.len());
            output.append("\n");
            let lines = sig_lines(&self.guard_signatures);
            append_indented(&mut output, "    - ", &lines);
        }
        assert(output@ =~= s1 + sec2);
        let ghost s2 = output@;
        if self.locals_with_locks.len() > 0 {
            output.append("  Locals with locks: ");
            push_decimal(&mut output, self.locals_with_locks.len());
            output.append("\n");
        }
        let ghost s3 = output@;
        if self.locals_with_guards.len() > 0 {
            output.append("  Locals with guards: ");
            push_decimal(&mut output, self.locals_with_guards.len());
            output.append("\n");
        }
        proof {
            assert(output@ =~= visitor_summary(self.instance_name@, self.lock_signatures@, self.guard_signatures@,
                self.locals_with_locks@.len(), self.locals_with_guards@.len()));
        }
        output
    }
}

/// The summary of a type collector's findings.
pub open spec fn visitor_summary(
    name: Seq<char>,
    locks: Seq<TySignature>,
    guards: Seq<TySignature>,
    n_lock_locals: nat,
    n_guard_locals: nat,
) -> Seq<char> {
    "Instance: "@ + name + "\n"@ + (if locks.len() > 0 {
        "  Lock types found: "@ + crate::text::decimal(locks.len()) + "\n"@ + indented(
            "    - "@,
            locks.map_values(|x: TySignature| x.type_str@),
        )
    } else {
        Seq::empty()
    }) + (if guards.len() > 0 {
        "  Guard types found: "@ + crate::text::decimal(guards.len()) + "\n"@ + indented(
            "    - "@,
            guards.map_values(|x: TySignature| x.type_str@),
        )
    } else {
        Seq::empty()
    }) + (if n_lock_locals > 0 {
        "  Locals with locks: "@ + crate::text::decimal(n_lock_locals) + "\n"@
    } else {
        Seq::empty()
    }) + (if n_guard_locals > 0 {
        "  Locals with guards: "@ + crate::text::decimal(n_guard_locals) + "\n"@
    } else {
        Seq::empty()
    })
}

/// The texts of signatures, as strings.
fn sig_lines(v: &Vec<TySignature>) -> (r: Vec<String>)
    ensures
        views(r@) == v@.map_values(|x: TySignature| x.type_str@),
{
    let mut r: Vec<String> = Vec::new();
    let mut i: usize = 0;
    while i < v.len()
        invariant
            i <= v@.len(),
            views(r@) == v@.subrange(0, i as int).map_values(|x: TySignature| x.type_str@),
        decreases v@.len() - i,
    {
        let ghost before = r@;
        r.push(v[i].type_str.clone());
        proof {
            assert(views(r@) =~= views(before).push(v@[i as int].type_str@));
            assert(v@.subrange(0, i + 1).map_values(|x: TySignature| x.type_str@) =~= v@.subrange(0, i as int).map_values(|x: TySignature| x.type_str@).push(v@[i as int].type_str@));
        }
        i = i + 1;
    }
    assert(v@.subrange(0, v@.len() as int) =~= v@);
    r
}

proof fn lemma_sig_texts_empty(v: Seq<TySignature>)
    ensures
        (sig_texts(v).len() > 0) == (v.len() > 0),
{
    let m = v.map_values(|x: TySignature| x.type_str@);
    vstd::seq_lib::seq_to_set_is_finite(m);
    if v.len() > 0 {
        assert(m.to_set().contains(m[0]));
        if m.to_set().len() == 0 {
            m.to_set().lemma_len0_is_empty();
        }
    } else {
        assert(m =~= Seq::<Seq<char>>::empty());
        assert(m.to_set() =~= Set::<Seq<char>>::empty());
    }
}

proof fn lemma_checked_texts_eq(table: TyTable, a: Seq<TyCheck>, b: Seq<TyCheck>, pred: spec_fn(Seq<char>) -> bool)
    requires
        checks_eq(a, b),
    ensures
        checked_texts(table, a, pred) == checked_texts(table, b, pred),
{
    assert forall|t: Seq<char>| checked_texts(table, a, pred).contains(t) <==> checked_texts(table, b, pred).contains(t) by {
        if checked_texts(table, a, pred).contains(t) {
            let k = choose|k: int| 0 <= k < a.len() && table.text_of((#[trigger] a[k]).0) == t && pred(t);
            assert(check_eq(a[k], b[k]));
        }
        if checked_texts(table, b, pred).contains(t) {
            let k = choose|k: int| 0 <= k < b.len() && table.text_of((#[trigger] b[k]).0) == t && pred(t);
            assert(check_eq(a[k], b[k]));
        }
    }
    assert(checked_texts(table, a, pred) =~= checked_texts(table, b, pred));
}

proof fn lemma_last_text_eq(table: TyTable, a: Seq<TyCheck>, b: Seq<TyCheck>, local: Local, pred: spec_fn(Seq<char>) -> bool)
    requires
        checks_eq(a, b),
    ensures
        last_text_for(table, a, local, pred) == last_text_for(table, b, local, pred),
    decreases a.len(),
{
    if a.len() > 0 {
        assert(check_eq(a[a.len() - 1], b[b.len() - 1]));
        assert(checks_eq(a.drop_last(), b.drop_last())) by {
            assert forall|k: int| 0 <= k < a.drop_last().len() implies #[trigger] check_eq(a.drop_last()[k], b.drop_last()[k]) by {
                assert(check_eq(a[k], b[k]));
            }
        }
        lemma_last_text_eq(table, a.drop_last(), b.drop_last(), local, pred);
    }
}

/// A printed guard type of a mutex or a read-write lock names the lock too.
proof fn lemma_guard_text_is_lock_text(t: Seq<char>)
    requires
        is_guard_text(t),
    ensures
        is_lock_text(t),
{
    reveal_strlit("MutexGuard");
    reveal_strlit("RwLockReadGuard");
    reveal_strlit("RwLockWriteGuard");
    reveal_strlit("Mutex");
    reveal_strlit("RwLock");
    if has_sub(t, "MutexGuard"@) {
        let i = choose|i: int| crate::text::occurs_at(t, "MutexGuard"@, i);
        assert(t.subrange(i, i + 5) =~= t.subrange(i, i + 10).subrange(0, 5));
        assert("MutexGuard"@.subrange(0, 5) =~= "Mutex"@);
        assert(crate::text::occurs_at(t, "Mutex"@, i));
    } else if has_sub(t, "RwLockReadGuard"@) {
        let i = choose|i: int| crate::text::occurs_at(t, "RwLockReadGuard"@, i);
        assert(t.subrange(i, i + 6) =~= t.subrange(i, i + 15).subrange(0, 6));
        assert("RwLockReadGuard"@.subrange(0, 6) =~= "RwLock"@);
        assert(crate::text::occurs_at(t, "RwLock"@, i));
    } else {
        let i = choose|i: int| crate::text::occurs_at(t, "RwLockWriteGuard"@, i);
        assert(t.subrange(i, i + 6) =~= t.subrange(i, i + 16).subrange(0, 6));
        assert("RwLockWriteGuard"@.subrange(0, 6) =~= "RwLock"@);
        assert(crate::text::occurs_at(t, "RwLock"@, i));
    }
}

/// Where the checks give a local a guard type they also give it a lock type.
proof fn lemma_last_guard_is_lock(table: TyTable, checks: Seq<TyCheck>, local: Local)
    ensures
        last_text_for(table, checks, local, guard_pred()) is Some ==> last_text_for(table, checks, local, lock_pred()) is Some,
    decreases checks.len(),
{
    if checks.len() > 0 {
        lemma_last_guard_is_lock(table, checks.drop_last(), local);
        let c = checks.last();
        if c.1 matches Some(p) && p.local == local && is_guard_text(table.text_of(c.0)) {
            lemma_guard_text_is_lock_text(table.text_of(c.0));
        }
    }
}

/// `after` is what analysing the body of `before` makes of it: the types its code mentions
/// are added, and each local's type is the last one found for it, where there is one.
pub open spec fn analysis_step(before: MirVisitorTypeCollector, after: MirVisitorTypeCollector) -> bool {
    let table = before.source().1;
    let checks = body_checks(before.source().1, before.source().0);
    &&& after.source() == before.source()
    &&& after.lock_texts() == before.lock_texts().union(checked_texts(table, checks, lock_pred()))
    &&& after.guard_texts() == before.guard_texts().union(checked_texts(table, checks, guard_pred()))
    &&& forall|l: Local| #[trigger] after.lock_of_local(l) == match last_text_for(table, checks, l, lock_pred()) {
        Some(t) => Some(t),
        None => before.lock_of_local(l),
    }
    &&& forall|l: Local| #[trigger] after.guard_of_local(l) == match last_text_for(table, checks, l, guard_pred()) {
        Some(t) => Some(t),
        None => before.guard_of_local(l),
    }
}

/// The last type found for a local is among the types found.
proof fn lemma_last_text_checked(table: TyTable, checks: Seq<TyCheck>, local: Local, pred: spec_fn(Seq<char>) -> bool)
    ensures
        last_text_for(table, checks, local, pred) is Some ==> checked_texts(table, checks, pred).contains(
            last_text_for(table, checks, local, pred).unwrap(),
        ),
    decreases checks.len(),
{
    if checks.len() > 0 {
        lemma_last_text_checked(table, checks.drop_last(), local, pred);
        let c = checks.last();
        if c.1 matches Some(p) && p.local == local && pred(table.text_of(c.0)) {
            assert(table.text_of(checks[checks.len() - 1].0) == table.text_of(c.0));
        } else if last_text_for(table, checks.drop_last(), local, pred) is Some {
            let t = last_text_for(table, checks.drop_last(), local, pred).unwrap();
            let k = choose|k: int| 0 <= k < checks.drop_last().len() && table.text_of((#[trigger] checks.drop_last()[k]).0) == t && pred(t);
            assert(checks[k] == checks.drop_last()[k]);
        }
    }
}

/// Analysing a body keeps what a type collector found consistent: a guard
/// type found is a lock type found, every lock type names a lock and every
/// guard type a guard, a local with a guard type has a lock type, and the
/// type found for a local is among the types found.
pub proof fn law_analyze_consistent(before: MirVisitorTypeCollector, after: MirVisitorTypeCollector)
    requires
        before.consistent(),
        analysis_step(before, after),
    ensures
        after.consistent(),
{
    let table = before.source().1;
    let checks = body_checks(before.source().1, before.source().0);
    assert forall|t: Seq<char>| #[trigger] after.guard_texts().contains(t) implies after.lock_texts().contains(t) && is_guard_text(t) by {
        if !before.guard_texts().contains(t) {
            assert(checked_texts(table, checks, guard_pred()).contains(t));
            let k = choose|k: int| 0 <= k < checks.len() && table.text_of((#[trigger] checks[k]).0) == t && guard_pred()(t);
            lemma_guard_text_is_lock_text(t);
            assert(checked_texts(table, checks, lock_pred()).contains(t));
        }
    }
    assert forall|t: Seq<char>| #[trigger] after.lock_texts().contains(t) implies is_lock_text(t) by {
        if !before.lock_texts().contains(t) {
            assert(checked_texts(table, checks, lock_pred()).contains(t));
        }
    }
    assert forall|l: Local| #[trigger] after.guard_of_local(l) is Some implies after.lock_of_local(l) is Some by {
        lemma_last_guard_is_lock(table, checks, l);
        if last_text_for(table, checks, l, guard_pred()) is None {
            assert(before.guard_of_local(l) is Some);
        }
    }
    assert forall|l: Local| #[trigger] after.lock_of_local(l) is Some implies after.lock_texts().contains(after.lock_of_local(l).unwrap()) by {
        lemma_last_text_checked(table, checks, l, lock_pred());
    }
    assert forall|l: Local| #[trigger] after.guard_of_local(l) is Some implies after.guard_texts().contains(after.guard_of_local(l).unwrap()) by {
        lemma_last_text_checked(table, checks, l, guard_pred());
    }
}

/// Analysing a body loses nothing found before: every lock and guard type found stays found,
/// and every local that had a lock or guard type still has one.
pub proof fn law_analyze_keeps(before: MirVisitorTypeCollector, after: MirVisitorTypeCollector)
    requires
        analysis_step(before, after),
    ensures
        before.lock_texts().subset_of(after.lock_texts()),
        before.guard_texts().subset_of(after.guard_texts()),
        forall|l: Local| #[trigger] before.lock_of_local(l) is Some ==> after.lock_of_local(l) is Some,
        forall|l: Local| #[trigger] before.guard_of_local(l) is Some ==> after.guard_of_local(l) is Some,
{
    assert forall|l: Local| #[trigger] before.lock_of_local(l) is Some implies after.lock_of_local(l) is Some by {
        assert(after.lock_of_local(l) == match last_text_for(before.source().1, body_checks(before.source().1, before.source().0), l, lock_pred()) {
            Some(t) => Some(t),
            None => before.lock_of_local(l),
        });
    }
    assert forall|l: Local| #[trigger] before.guard_of_local(l) is Some implies after.guard_of_local(l) is Some by {
        assert(after.guard_of_local(l) == match last_text_for(before.source().1, body_checks(before.source().1, before.source().0), l, guard_pred()) {
            Some(t) => Some(t),
            None => before.guard_of_local(l),
        });
    }
}

/// How likely taking guard `b` while guard `a` is held is to deadlock, by the guards' kinds
/// and the printed types they protect: two mutex guards of one library, or a read and a
/// write guard of a std `RwLock` (in either order), over the same type probably deadlock; two
/// std read guards over the same type possibly do; guards over different types, and all other
/// pairs, are unlikely to. The judgement does not depend on which guard is held.
pub proof fn law_deadlock_judgement(table: TyTable, x: Ty, y: Ty, a: LockGuardTy, b: LockGuardTy)
    ensures
        deadlock_with_spec(table, LockGuardTy::StdMutex(x), LockGuardTy::StdMutex(y)) == if same_ty_text(table, x, y) {
            DeadlockPossibility::Probably
        } else {
            DeadlockPossibility::Unlikely
        },
        deadlock_with_spec(table, LockGuardTy::ParkingLotMutex(x), LockGuardTy::ParkingLotMutex(y)) == if same_ty_text(table, x, y) {
            DeadlockPossibility::Probably
        } else {
            DeadlockPossibility::Unlikely
        },
        deadlock_with_spec(table, LockGuardTy::SpinMutex(x), LockGuardTy::SpinMutex(y)) == if same_ty_text(table, x, y) {
            DeadlockPossibility::Probably
        } else {
            DeadlockPossibility::Unlikely
        },
        deadlock_with_spec(table, LockGuardTy::StdRwLockRead(x), LockGuardTy::StdRwLockWrite(y)) == if same_ty_text(table, x, y) {
            DeadlockPossibility::Probably
        } else {
            DeadlockPossibility::Unlikely
        },
        deadlock_with_spec(table, LockGuardTy::StdRwLockWrite(x), LockGuardTy::StdRwLockRead(y)) == if same_ty_text(table, x, y) {
            DeadlockPossibility::Probably
        } else {
            DeadlockPossibility::Unlikely
        },
        deadlock_with_spec(table, LockGuardTy::StdRwLockRead(x), LockGuardTy::StdRwLockRead(y)) == if same_ty_text(table, x, y) {
            DeadlockPossibility::Possibly
        } else {
            DeadlockPossibility::Unlikely
        },
        !same_ty_text(table, guard_data(a), guard_data(b)) ==> deadlock_with_spec(table, a, b) == DeadlockPossibility::Unlikely,
        guard_head(a) != guard_head(b) && !(a is StdRwLockRead && b is StdRwLockWrite) && !(a is StdRwLockWrite && b is StdRwLockRead)
            ==> deadlock_with_spec(table, a, b) == DeadlockPossibility::Unlikely,
        deadlock_with_spec(table, a, b) == deadlock_with_spec(table, b, a),
{
    reveal_strlit("MutexGuard<");
    reveal_strlit("RwLockReadGuard<");
    reveal_strlit("RwLockWriteGuard<");
    assert("MutexGuard<"@ != "RwLockReadGuard<"@ && "MutexGuard<"@ != "RwLockWriteGuard<"@ && "RwLockReadGuard<"@ != "RwLockWriteGuard<"@) by {
        assert("MutexGuard<"@.len() != "RwLockReadGuard<"@.len());
        assert("MutexGuard<"@.len() != "RwLockWriteGuard<"@.len());
        assert("RwLockReadGuard<"@.len() != "RwLockWriteGuard<"@.len());
    }
}

/// What is recorded of a lock by its printed type: the library is parking_lot where the text
/// names `parking_lot` or `lock_api`, else spin where it names `spin`, else std; the kind is a
/// read-write lock exactly where it names `RwLock`, else a mutex.
pub proof fn law_lock_record_by_text(t: Seq<char>)
    ensures
        lock_record(t).0 == t,
        has_sub(t, "parking_lot"@) || has_sub(t, "lock_api"@) ==> lock_record(t).1 == "parking_lot"@,
        !has_sub(t, "parking_lot"@) && !has_sub(t, "lock_api"@) && has_sub(t, "spin"@) ==> lock_record(t).1 == "spin"@,
        !has_sub(t, "parking_lot"@) && !has_sub(t, "lock_api"@) && !has_sub(t, "spin"@) ==> lock_record(t).1 == "std"@,
        (lock_record(t).2 == LockKind::RwLock) <==> has_sub(t, "RwLock"@),
{
}

} // verus!
