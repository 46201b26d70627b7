//! Lock guards, their types, and where they are acquired and released.

use vstd::prelude::*;
use core::cmp::Ordering;

use crate::lockbud::ullbc::{
    copy_place, copy_ty, same_place, same_ty, BlockId, FnOperand, FunDeclId, LocalId, Name,
    PathElem, Place, Span, Ty, TyKind, TypeId, TranslatedCrate,
};
use crate::lockbud::engine::{DataflowEntity, LiveSet};
use crate::text::{before_char, chars_of, has_sub, seq_before_char, vec_has};

verus! {

// ---------------------------------------------------------------------------
// Names
// ---------------------------------------------------------------------------

/// The printed form of one path segment.
pub open spec fn elem_text(e: PathElem) -> Seq<char> {
    match e {
        PathElem::Ident(s) => s@,
        PathElem::Impl => "{impl}"@,
        PathElem::Instantiated(_) => "{inst}"@,
    }
}

/// The segments of a path joined by `::`.
pub open spec fn join_elems(elems: Seq<PathElem>) -> Seq<char>
    decreases elems.len(),
{
    if elems.len() == 0 {
        Seq::empty()
    } else if elems.len() == 1 {
        elem_text(elems[0])
    } else {
        join_elems(elems.drop_last()) + "::"@ + elem_text(elems.last())
    }
}

/// The printed form of a name.
pub open spec fn name_text(n: Name) -> Seq<char> {
    join_elems(n.name@)
}

/// The printed form of a name: its segments joined by `::`.
pub fn format_name(name: &Name) -> (r: String)
    ensures
        r@ == name_text(*name),
{
    let mut out = String::new();
    let mut i: usize = 0;
    while i < name.name.len()
        invariant
            i <= name.name@.len(),
            out@ == join_elems(name.name@.subrange(0, i as int)),
        decreases name.name@.len() - i,
    {
        let ghost before = out@;
        if i > 0 {
            out.append("::");
        }
        match &name.name[i] {
            PathElem::Ident(s) => out.append(s.as_str()),
            PathElem::Impl => out.append("{impl}"),
            PathElem::Instantiated(_) => out.append("{inst}"),
        }
        proof {
            let pre = name.name@.subrange(0, i as int);
            let post = name.name@.subrange(0, i + 1);
            assert(post.drop_last() =~= pre);
            assert(post.last() == name.name@[i as int]);
            if i == 0 {
                assert(out@ =~= elem_text(name.name@[0]));
            } else {
                assert(out@ =~= before + "::"@ + elem_text(name.name@[i as int]));
            }
        }
        i = i + 1;
    }
    assert(name.name@.subrange(0, name.name@.len() as int) =~= name.name@);
    out
}

/// The printed name of the function that a call targets, if it is a declared function.
pub open spec fn callee_name(func: FnOperand, krate: TranslatedCrate) -> Option<Seq<char>> {
    match func {
        FnOperand::Fun(id) => match krate.fun_decl(id as int) {
            Some(d) => Some(name_text(d.name)),
            None => None,
        },
        _ => None,
    }
}

/// The printed name of the function that a call targets, if it is a declared function.
pub fn callee_name_of(func: &FnOperand, krate: &TranslatedCrate) -> (r: Option<String>)
    ensures
        match r {
            Some(s) => callee_name(*func, *krate) == Some(s@),
            None => callee_name(*func, *krate) is None,
        },
{
    match func {
        FnOperand::Fun(id) => {
            if *id < krate.fun_decls.len() {
                match &krate.fun_decls[*id] {
                    Some(d) => Some(format_name(&d.name)),
                    None => None,
                }
            } else {
                None
            }
        },
        _ => None,
    }
}

/// The printed name of function `f` of the crate.
pub open spec fn fun_name(krate: TranslatedCrate, f: int) -> Option<Seq<char>> {
    match krate.fun_decl(f) {
        Some(d) => Some(name_text(d.name)),
        None => None,
    }
}

// ---------------------------------------------------------------------------
// Lock guard identity
// ---------------------------------------------------------------------------

/// Uniquely identifies a lock guard in a crate: the function and the local holding it.
#[derive(Clone, Copy, Debug, PartialEq, Eq, PartialOrd, Ord, Hash, Structural)]
pub struct LockGuardId {
    pub fun_id: FunDeclId,
    pub local: LocalId,
}

impl LockGuardId {
    pub fn new(fun_id: FunDeclId, local: LocalId) -> (r: Self)
        ensures
            r.fun_id == fun_id,
            r.local == local,
    {
        Self { fun_id, local }
    }
}

/// The possibility of deadlock.
#[derive(Clone, Copy, Debug, PartialEq, Eq, Structural)]
pub enum DeadlockPossibility {
    Probably,
    Possibly,
    Unlikely,
    Unknown,
}

/// The strength of a possibility: `Probably` is the strongest, `Unknown` the weakest.
pub open spec fn possibility_rank(p: DeadlockPossibility) -> int {
    match p {
        DeadlockPossibility::Probably => 3,
        DeadlockPossibility::Possibly => 2,
        DeadlockPossibility::Unlikely => 1,
        DeadlockPossibility::Unknown => 0,
    }
}

/// How two possibilities compare by strength.
pub open spec fn possibility_order(a: DeadlockPossibility, b: DeadlockPossibility) -> Option<Ordering> {
    if possibility_rank(a) == possibility_rank(b) {
        Some(Ordering::Equal)
    } else if possibility_rank(a) > possibility_rank(b) {
        Some(Ordering::Greater)
    } else {
        Some(Ordering::Less)
    }
}

impl DeadlockPossibility {
    /// The strength of this possibility (see `possibility_rank`).
    pub fn rank(&self) -> (r: u8)
        ensures
            r == possibility_rank(*self),
    {
        match self {
            DeadlockPossibility::Probably => 3,
            DeadlockPossibility::Possibly => 2,
            DeadlockPossibility::Unlikely => 1,
            DeadlockPossibility::Unknown => 0,
        }
    }

    /// The name of this possibility.
    pub fn name(&self) -> (r: &'static str) {
        match self {
            DeadlockPossibility::Probably => "Probably",
            DeadlockPossibility::Possibly => "Possibly",
            DeadlockPossibility::Unlikely => "Unlikely",
            DeadlockPossibility::Unknown => "Unknown",
        }
    }
}

impl PartialOrd for DeadlockPossibility {
    fn partial_cmp(&self, other: &Self) -> (r: Option<Ordering>) {
        let a = self.rank();
        let b = other.rank();
        if a == b {
            Some(Ordering::Equal)
        } else if a > b {
            Some(Ordering::Greater)
        } else {
            Some(Ordering::Less)
        }
    }
}

impl vstd::std_specs::cmp::PartialOrdSpecImpl for DeadlockPossibility {
    open spec fn obeys_partial_cmp_spec() -> bool {
        true
    }

    open spec fn partial_cmp_spec(&self, other: &Self) -> Option<Ordering> {
        possibility_order(*self, *other)
    }
}


// ---------------------------------------------------------------------------
// Lock guard types
// ---------------------------------------------------------------------------

/// The kind of a lock guard, with the type of the data it protects.
#[derive(Debug)]
pub enum LockGuardTy {
    StdMutex(Ty),
    ParkingLotMutex(Ty),
    SpinMutex(Ty),
    StdRwLockRead(Ty),
    StdRwLockWrite(Ty),
    ParkingLotRead(Ty),
    ParkingLotWrite(Ty),
    SpinRead(Ty),
    SpinWrite(Ty),
    Unknown,
}

/// The type arguments of the first instantiated segment of a path.
pub open spec fn first_instantiated(elems: Seq<PathElem>) -> Option<Seq<Ty>>
    decreases elems.len(),
{
    if elems.len() == 0 {
        None
    } else {
        match elems[0] {
            PathElem::Instantiated(ts) => Some(ts@),
            _ => first_instantiated(elems.drop_first()),
        }
    }
}

/// The `k`-th type argument that a name was instantiated with.
pub open spec fn name_type_arg(n: Name, k: int) -> Option<Ty> {
    match first_instantiated(n.name@) {
        Some(ts) => if 0 <= k < ts.len() {
            Some(ts[k])
        } else {
            None
        },
        None => None,
    }
}

/// The `k`-th type argument that a name was instantiated with.
fn extract_type_arg_from_name(name: &Name, k: usize) -> (r: Option<Ty>)
    ensures
        r == name_type_arg(*name, k as int),
{
    let mut i: usize = 0;
    assert(name.name@.subrange(0, name.name@.len() as int) =~= name.name@);
    while i < name.name.len()
        invariant
            i <= name.name@.len(),
            first_instantiated(name.name@) == first_instantiated(name.name@.subrange(i as int, name.name@.len() as int)),
        decreases name.name@.len() - i,
    {
        let ghost rest = name.name@.subrange(i as int, name.name@.len() as int);
        assert(rest[0] == name.name@[i as int]);
        if let PathElem::Instantiated(types) = &name.name[i] {
            if k < types.len() {
                return Some(copy_ty(&types[k]));
            } else {
                return None;
            }
        }
        assert(rest.drop_first() =~= name.name@.subrange(i + 1, name.name@.len() as int));
        i = i + 1;
    }
    assert(name.name@.subrange(i as int, name.name@.len() as int) =~= Seq::<PathElem>::empty());
    None
}

/// The first type argument of an instantiated name.
pub fn extract_first_type_arg_from_name(name: &Name) -> (r: Option<Ty>)
    ensures
        r == name_type_arg(*name, 0),
{
    extract_type_arg_from_name(name, 0)
}

/// The second type argument of an instantiated name.
pub fn extract_second_type_arg_from_name(name: &Name) -> (r: Option<Ty>)
    ensures
        r == name_type_arg(*name, 1),
{
    extract_type_arg_from_name(name, 1)
}

/// The guard flavour named by a path: 0 for a mutex, 1 for a read guard, 2 for a write guard.
pub open spec fn guard_ty_of(flavour: int, library: int, t: Ty) -> LockGuardTy {
    if flavour == 0 {
        if library == 0 {
            LockGuardTy::SpinMutex(t)
        } else if library == 1 {
            LockGuardTy::ParkingLotMutex(t)
        } else {
            LockGuardTy::StdMutex(t)
        }
    } else if flavour == 1 {
        if library == 0 {
            LockGuardTy::SpinRead(t)
        } else if library == 1 {
            LockGuardTy::ParkingLotRead(t)
        } else {
            LockGuardTy::StdRwLockRead(t)
        }
    } else {
        if library == 0 {
            LockGuardTy::SpinWrite(t)
        } else if library == 1 {
            LockGuardTy::ParkingLotWrite(t)
        } else {
            LockGuardTy::StdRwLockWrite(t)
        }
    }
}

/// Guards of async runtimes and model checkers are not tracked.
pub open spec fn unsupported_guard_path(fp: Seq<char>) -> bool {
    has_sub(fp, "async"@) || has_sub(fp, "tokio"@) || has_sub(fp, "future"@) || has_sub(fp, "loom"@)
}

/// The library a guard path belongs to: 0 for spin, 1 for parking_lot (lock_api), 2 for std.
pub open spec fn guard_library(fp: Seq<char>) -> int {
    if has_sub(fp, "spin"@) {
        0
    } else if has_sub(fp, "lock_api"@) || has_sub(fp, "parking_lot"@) {
        1
    } else {
        2
    }
}

/// The lock guard type named by the path of a type declaration, if any.
pub open spec fn guard_from_path(path: Seq<char>, n: Name) -> Option<LockGuardTy> {
    if !(has_sub(path, "MutexGuard"@) || has_sub(path, "RwLockReadGuard"@) || has_sub(path, "RwLockWriteGuard"@)) {
        None
    } else {
        let fp = before_char(path, '<');
        let flavour = if has_sub(fp, "MutexGuard"@) {
            0int
        } else if has_sub(fp, "RwLockReadGuard"@) {
            1int
        } else if has_sub(fp, "RwLockWriteGuard"@) {
            2int
        } else {
            -1int
        };
        if flavour < 0 || unsupported_guard_path(fp) {
            None
        } else {
            let lib = guard_library(fp);
            let arg = if lib == 1 { name_type_arg(n, 1) } else { name_type_arg(n, 0) };
            match arg {
                Some(t) => Some(guard_ty_of(flavour, lib, t)),
                None => None,
            }
        }
    }
}

/// The lock guard type of a type, if it is a lock guard.
pub open spec fn guard_from_ty(ty: Ty, krate: TranslatedCrate) -> Option<LockGuardTy> {
    match ty.kind {
        TyKind::Adt(TypeId::Adt(id)) => match krate.type_decl(id as int) {
            Some(decl) => guard_from_path(name_text(decl.name), decl.name),
            None => None,
        },
        _ => None,
    }
}

/// The possibility that two guard types deadlock when the second is taken while
/// the first is held.
pub open spec fn deadlock_with_spec(a: LockGuardTy, b: LockGuardTy) -> DeadlockPossibility {
    match (a, b) {
        (LockGuardTy::StdMutex(x), LockGuardTy::StdMutex(y))
        | (LockGuardTy::ParkingLotMutex(x), LockGuardTy::ParkingLotMutex(y))
        | (LockGuardTy::SpinMutex(x), LockGuardTy::SpinMutex(y))
        | (LockGuardTy::StdRwLockWrite(x), LockGuardTy::StdRwLockWrite(y))
        | (LockGuardTy::StdRwLockWrite(x), LockGuardTy::StdRwLockRead(y))
        | (LockGuardTy::StdRwLockRead(x), LockGuardTy::StdRwLockWrite(y))
        | (LockGuardTy::ParkingLotWrite(x), LockGuardTy::ParkingLotWrite(y))
        | (LockGuardTy::ParkingLotWrite(x), LockGuardTy::ParkingLotRead(y))
        | (LockGuardTy::ParkingLotRead(x), LockGuardTy::ParkingLotWrite(y))
        | (LockGuardTy::SpinWrite(x), LockGuardTy::SpinWrite(y))
        | (LockGuardTy::SpinWrite(x), LockGuardTy::SpinRead(y))
        | (LockGuardTy::SpinRead(x), LockGuardTy::SpinWrite(y)) => if same_ty(x, y) {
            DeadlockPossibility::Probably
        } else {
            DeadlockPossibility::Unlikely
        },
        (LockGuardTy::StdRwLockRead(x), LockGuardTy::StdRwLockRead(y))
        | (LockGuardTy::ParkingLotRead(x), LockGuardTy::ParkingLotRead(y)) => if same_ty(x, y) {
            DeadlockPossibility::Possibly
        } else {
            DeadlockPossibility::Unlikely
        },
        _ => DeadlockPossibility::Unlikely,
    }
}

/// The flavour of a guard: 0 mutex, 1 read, 2 write, 3 unknown.
pub open spec fn guard_flavour(g: LockGuardTy) -> int {
    match g {
        LockGuardTy::StdMutex(_) | LockGuardTy::ParkingLotMutex(_) | LockGuardTy::SpinMutex(_) => 0,
        LockGuardTy::StdRwLockRead(_) | LockGuardTy::ParkingLotRead(_) | LockGuardTy::SpinRead(_) => 1,
        LockGuardTy::StdRwLockWrite(_) | LockGuardTy::ParkingLotWrite(_) | LockGuardTy::SpinWrite(_) => 2,
        LockGuardTy::Unknown => 3,
    }
}

impl LockGuardTy {
    /// The lock guard type of `ty`, if `ty` is the guard of a supported lock.
    pub fn from_ty(ty: &Ty, crate_data: &TranslatedCrate) -> (r: Option<Self>)
        ensures
            r == guard_from_ty(*ty, *crate_data),
    {
        let type_decl_id = match &ty.kind {
            TyKind::Adt(TypeId::Adt(id)) => *id,
            _ => return None,
        };
        if type_decl_id >= crate_data.type_decls.len() {
            return None;
        }
        let decl = match &crate_data.type_decls[type_decl_id] {
            Some(d) => d,
            None => return None,
        };
        let path_string = format_name(&decl.name);
        let path = chars_of(path_string.as_str());
        if !(vec_has(&path, "MutexGuard") || vec_has(&path, "RwLockReadGuard") || vec_has(&path, "RwLockWriteGuard")) {
            return None;
        }
        let first_part = seq_before_char(&path, '<');
        let flavour: u8 = if vec_has(&first_part, "MutexGuard") {
            0
        } else if vec_has(&first_part, "RwLockReadGuard") {
            1
        } else if vec_has(&first_part, "RwLockWriteGuard") {
            2
        } else {
            return None;
        };
        if vec_has(&first_part, "async") || vec_has(&first_part, "tokio") || vec_has(&first_part, "future")
            || vec_has(&first_part, "loom") {
            return None;
        }
        let library: u8 = if vec_has(&first_part, "spin") {
            0
        } else if vec_has(&first_part, "lock_api") || vec_has(&first_part, "parking_lot") {
            1
        } else {
            2
        };
        let arg = if library == 1 {
            extract_second_type_arg_from_name(&decl.name)
        } else {
            extract_first_type_arg_from_name(&decl.name)
        };
        match arg {
            None => None,
            Some(t) => Some(
                if flavour == 0 {
                    if library == 0 {
                        LockGuardTy::SpinMutex(t)
                    } else if library == 1 {
                        LockGuardTy::ParkingLotMutex(t)
                    } else {
                        LockGuardTy::StdMutex(t)
                    }
                } else if flavour == 1 {
                    if library == 0 {
                        LockGuardTy::SpinRead(t)
                    } else if library == 1 {
                        LockGuardTy::ParkingLotRead(t)
                    } else {
                        LockGuardTy::StdRwLockRead(t)
                    }
                } else {
                    if library == 0 {
                        LockGuardTy::SpinWrite(t)
                    } else if library == 1 {
                        LockGuardTy::ParkingLotWrite(t)
                    } else {
                        LockGuardTy::StdRwLockWrite(t)
                    }
                },
            ),
        }
    }

    /// The possibility that acquiring a guard of type `other` deadlocks while a guard
    /// of this type is held.
    pub fn deadlock_with(&self, other: &Self) -> (r: DeadlockPossibility)
        ensures
            r == deadlock_with_spec(*self, *other),
    {
        match (self, other) {
            (LockGuardTy::StdMutex(a), LockGuardTy::StdMutex(b))
            | (LockGuardTy::ParkingLotMutex(a), LockGuardTy::ParkingLotMutex(b))
            | (LockGuardTy::SpinMutex(a), LockGuardTy::SpinMutex(b))
            | (LockGuardTy::StdRwLockWrite(a), LockGuardTy::StdRwLockWrite(b))
            | (LockGuardTy::StdRwLockWrite(a), LockGuardTy::StdRwLockRead(b))
            | (LockGuardTy::StdRwLockRead(a), LockGuardTy::StdRwLockWrite(b))
            | (LockGuardTy::ParkingLotWrite(a), LockGuardTy::ParkingLotWrite(b))
            | (LockGuardTy::ParkingLotWrite(a), LockGuardTy::ParkingLotRead(b))
            | (LockGuardTy::ParkingLotRead(a), LockGuardTy::ParkingLotWrite(b))
            | (LockGuardTy::SpinWrite(a), LockGuardTy::SpinWrite(b))
            | (LockGuardTy::SpinWrite(a), LockGuardTy::SpinRead(b))
            | (LockGuardTy::SpinRead(a), LockGuardTy::SpinWrite(b)) => {
                if a.id == b.id {
                    DeadlockPossibility::Probably
                } else {
                    DeadlockPossibility::Unlikely
                }
            },
            (LockGuardTy::StdRwLockRead(a), LockGuardTy::StdRwLockRead(b))
            | (LockGuardTy::ParkingLotRead(a), LockGuardTy::ParkingLotRead(b)) => {
                if a.id == b.id {
                    DeadlockPossibility::Possibly
                } else {
                    DeadlockPossibility::Unlikely
                }
            },
            _ => DeadlockPossibility::Unlikely,
        }
    }

    /// A copy of this guard type.
    pub fn copy(&self) -> (r: Self)
        ensures
            r == *self,
    {
        match self {
            LockGuardTy::StdMutex(t) => LockGuardTy::StdMutex(copy_ty(t)),
            LockGuardTy::ParkingLotMutex(t) => LockGuardTy::ParkingLotMutex(copy_ty(t)),
            LockGuardTy::SpinMutex(t) => LockGuardTy::SpinMutex(copy_ty(t)),
            LockGuardTy::StdRwLockRead(t) => LockGuardTy::StdRwLockRead(copy_ty(t)),
            LockGuardTy::StdRwLockWrite(t) => LockGuardTy::StdRwLockWrite(copy_ty(t)),
            LockGuardTy::ParkingLotRead(t) => LockGuardTy::ParkingLotRead(copy_ty(t)),
            LockGuardTy::ParkingLotWrite(t) => LockGuardTy::ParkingLotWrite(copy_ty(t)),
            LockGuardTy::SpinRead(t) => LockGuardTy::SpinRead(copy_ty(t)),
            LockGuardTy::SpinWrite(t) => LockGuardTy::SpinWrite(copy_ty(t)),
            LockGuardTy::Unknown => LockGuardTy::Unknown,
        }
    }
}


impl DataflowEntity for LockGuardId {
    fn same_entity(&self, other: &Self) -> (r: bool) {
        self.fun_id == other.fun_id && self.local == other.local
    }
}

// ---------------------------------------------------------------------------
// Locations and guard information
// ---------------------------------------------------------------------------

/// A location inside a function body: a block and a statement index; the index
/// equal to the number of statements means the terminator.
#[derive(Clone, Copy, Debug, PartialEq, Eq, PartialOrd, Ord, Hash, Structural)]
pub struct Location {
    pub block: BlockId,
    pub statement_index: usize,
}

impl Location {
    pub fn new(block: BlockId, statement_index: usize) -> (r: Self)
        ensures
            r.block == block,
            r.statement_index == statement_index,
    {
        Self { block, statement_index }
    }
}

/// What is known of one lock guard.
#[derive(Debug)]
pub struct LockGuardInfo {
    pub lockguard_ty: LockGuardTy,
    pub span: Span,
    /// Where the guard is acquired.
    pub gen_locs: Vec<Location>,
    /// Where the guard is released.
    pub kill_locs: Vec<Location>,
    /// The place that is the receiver of the `lock()` call.
    pub receiver_place: Option<Place>,
    /// Whether this guard was generated by a `read_recursive()` call.
    pub is_recursive_read: bool,
    /// If this guard is an alias of another guard (via move/copy), the original guard.
    pub alias_of: Option<LockGuardId>,
}

impl LockGuardInfo {
    pub fn new(lockguard_ty: LockGuardTy, span: Span) -> (r: Self)
        ensures
            r.lockguard_ty == lockguard_ty,
            r.span == span,
            r.gen_locs@ == Seq::<Location>::empty(),
            r.kill_locs@ == Seq::<Location>::empty(),
            r.receiver_place is None,
            !r.is_recursive_read,
            r.alias_of is None,
    {
        Self {
            lockguard_ty,
            span,
            gen_locs: Vec::new(),
            kill_locs: Vec::new(),
            receiver_place: None,
            is_recursive_read: false,
            alias_of: None,
        }
    }
}

/// The lock guards of a crate with what is known of each; each guard appears once.
#[derive(Debug)]
pub struct LockGuardMap {
    pub entries: Vec<(LockGuardId, LockGuardInfo)>,
}

impl LockGuardMap {
    /// No guard has two entries.
    pub open spec fn wf(&self) -> bool {
        forall|i: int, j: int|
            0 <= i < j < self.entries@.len() ==> (#[trigger] self.entries@[i]).0 != (#[trigger] self.entries@[j]).0
    }

    /// The guard has an entry.
    pub open spec fn has(&self, id: LockGuardId) -> bool {
        exists|i: int| 0 <= i < self.entries@.len() && (#[trigger] self.entries@[i]).0 == id
    }

    /// The position of the guard's entry.
    pub open spec fn pos(&self, id: LockGuardId) -> int {
        choose|i: int| 0 <= i < self.entries@.len() && (#[trigger] self.entries@[i]).0 == id
    }

    /// What is known of the guard.
    pub open spec fn info(&self, id: LockGuardId) -> LockGuardInfo {
        self.entries@[self.pos(id)].1
    }

    pub fn new() -> (r: Self)
        ensures
            r.wf(),
            r.entries@.len() == 0,
    {
        LockGuardMap { entries: Vec::new() }
    }

    /// The number of guards.
    pub fn len(&self) -> (r: usize)
        ensures
            r == self.entries@.len(),
    {
        self.entries.len()
    }

    /// The position of the guard's entry, if it has one.
    pub fn find(&self, id: &LockGuardId) -> (r: Option<usize>)
        requires
            self.wf(),
        ensures
            match r {
                Some(i) => i < self.entries@.len() && self.entries@[i as int].0 == *id && self.pos(*id) == i,
                None => !self.has(*id),
            },
    {
        let mut i: usize = 0;
        while i < self.entries.len()
            invariant
                self.wf(),
                i <= self.entries@.len(),
                forall|k: int| 0 <= k < i ==> (#[trigger] self.entries@[k]).0 != *id,
            decreases self.entries@.len() - i,
        {
            if self.entries[i].0 == *id {
                assert(self.has(*id));
                let ghost p = self.pos(*id);
                assert(self.entries@[p].0 == *id);
                assert(p == i as int) by {
                    if p != i as int {
                        if p < i as int {
                            assert(self.entries@[p].0 != self.entries@[i as int].0);
                        } else {
                            assert(self.entries@[i as int].0 != self.entries@[p].0);
                        }
                    }
                }
                return Some(i);
            }
            i = i + 1;
        }
        None
    }

    /// Whether the guard has an entry.
    pub fn contains_key(&self, id: &LockGuardId) -> (r: bool)
        requires
            self.wf(),
        ensures
            r == self.has(*id),
    {
        self.find(id).is_some()
    }

    /// What is known of the guard, if it has an entry.
    pub fn get(&self, id: &LockGuardId) -> (r: Option<&LockGuardInfo>)
        requires
            self.wf(),
        ensures
            match r {
                Some(info) => self.has(*id) && *info == self.info(*id),
                None => !self.has(*id),
            },
    {
        match self.find(id) {
            Some(i) => Some(&self.entries[i].1),
            None => None,
        }
    }

    /// Records `info` for guard `id`, replacing what was recorded for it.
    pub fn insert(&mut self, id: LockGuardId, info: LockGuardInfo)
        requires
            old(self).wf(),
        ensures
            final(self).wf(),
            final(self).has(id),
            final(self).info(id) == info,
            forall|j: LockGuardId| j != id ==> (#[trigger] final(self).has(j) == old(self).has(j)),
            forall|j: LockGuardId| j != id && old(self).has(j) ==> #[trigger] final(self).info(j) == old(self).info(j),
    {
        match self.find(&id) {
            Some(i) => {
                let ghost before = self.entries@;
                self.entries.set(i, (id, info));
                proof {
                    let e = self.entries@;
                    assert forall|a: int, b: int| 0 <= a < b < e.len() implies (#[trigger] e[a]).0 != (#[trigger] e[b]).0 by {
                        assert(e[a].0 == before[a].0 && e[b].0 == before[b].0);
                    }
                    assert(e[i as int].0 == id);
                    assert(self.pos(id) == i as int) by {
                        let p = self.pos(id);
                        assert(e[p].0 == id);
                        if p != i as int {
                            if p < i { assert(e[p].0 != e[i as int].0); } else { assert(e[i as int].0 != e[p].0); }
                        }
                    }
                    assert forall|j: LockGuardId| j != id implies (#[trigger] self.has(j) == old(self).has(j)) by {
                        if self.has(j) {
                            let a = choose|a: int| 0 <= a < e.len() && (#[trigger] e[a]).0 == j;
                            assert(before[a].0 == j);
                        }
                        if old(self).has(j) {
                            let a = choose|a: int| 0 <= a < before.len() && (#[trigger] before[a]).0 == j;
                            assert(e[a].0 == j);
                        }
                    }
                    assert forall|j: LockGuardId| j != id && old(self).has(j) implies #[trigger] self.info(j) == old(self).info(j) by {
                        let p = old(self).pos(j);
                        assert(before[p].0 == j);
                        assert(e[p] == before[p]);
                        let q = self.pos(j);
                        assert(e[q].0 == j);
                        if p != q {
                            if p < q { assert(e[p].0 != e[q].0); } else { assert(e[q].0 != e[p].0); }
                        }
                    }
                }
            },
            None => {
                let ghost before = self.entries@;
                self.insert_new(id, info);
                proof {
                    let e = self.entries@;
                    let last = e.len() - 1;
                    assert(e[last].0 == id);
                    assert(self.pos(id) == last) by {
                        let p = self.pos(id);
                        if p != last {
                            assert(e[p] == before[p]);
                        }
                    }
                    assert forall|j: LockGuardId| j != id implies (#[trigger] self.has(j) == old(self).has(j)) by {
                        if self.has(j) {
                            let a = choose|a: int| 0 <= a < e.len() && (#[trigger] e[a]).0 == j;
                            assert(a != last);
                            assert(before[a].0 == j);
                        }
                        if old(self).has(j) {
                            let a = choose|a: int| 0 <= a < before.len() && (#[trigger] before[a]).0 == j;
                            assert(e[a].0 == j);
                        }
                    }
                    assert forall|j: LockGuardId| j != id && old(self).has(j) implies #[trigger] self.info(j) == old(self).info(j) by {
                        let p = old(self).pos(j);
                        assert(before[p].0 == j);
                        assert(e[p] == before[p]);
                        let q = self.pos(j);
                        assert(e[q].0 == j);
                        if p != q {
                            if p < q { assert(e[p].0 != e[q].0); } else { assert(e[q].0 != e[p].0); }
                        }
                    }
                }
            },
        }
    }

    /// Adds a guard that has no entry yet.
    pub fn insert_new(&mut self, id: LockGuardId, info: LockGuardInfo)
        requires
            old(self).wf(),
            !old(self).has(id),
        ensures
            final(self).wf(),
            final(self).entries@ == old(self).entries@.push((id, info)),
    {
        self.entries.push((id, info));
        assert forall|i: int, j: int| 0 <= i < j < self.entries@.len() implies (#[trigger] self.entries@[i]).0 != (#[trigger] self.entries@[j]).0 by {
            if j == old(self).entries@.len() {
                assert(old(self).entries@[i].0 != id);
            }
        }
    }
}

/// A set of live lock guards.
#[derive(Debug)]
pub struct LiveLockGuards(pub LiveSet<LockGuardId>);

impl View for LiveLockGuards {
    type V = Set<LockGuardId>;

    open spec fn view(&self) -> Set<LockGuardId> {
        self.0@
    }
}

impl LiveLockGuards {
    pub open spec fn wf(&self) -> bool {
        self.0.wf()
    }

    pub fn new() -> (r: Self)
        ensures
            r.wf(),
            r@ == Set::<LockGuardId>::empty(),
    {
        LiveLockGuards(LiveSet::new())
    }

    pub fn insert(&mut self, id: LockGuardId) -> (r: bool)
        requires
            old(self).wf(),
        ensures
            final(self).wf(),
            final(self)@ == old(self)@.insert(id),
            r == !old(self)@.contains(id),
    {
        self.0.insert(id)
    }

    pub fn remove(&mut self, id: &LockGuardId) -> (r: bool)
        requires
            old(self).wf(),
        ensures
            final(self).wf(),
            final(self)@ == old(self)@.remove(*id),
            r == old(self)@.contains(*id),
    {
        self.0.remove(id)
    }

    pub fn union(&mut self, other: &Self) -> (r: bool)
        requires
            old(self).wf(),
        ensures
            final(self).wf(),
            final(self)@ == old(self)@.union(other@),
            r == !other@.subset_of(old(self)@),
    {
        self.0.union(&other.0)
    }

    pub fn difference(&mut self, other: &Self) -> (r: bool)
        requires
            old(self).wf(),
        ensures
            final(self).wf(),
            final(self)@ == old(self)@.difference(other@),
            r == !old(self)@.disjoint(other@),
    {
        self.0.difference(&other.0)
    }

    pub fn is_empty(&self) -> (r: bool)
        ensures
            r == (self@ == Set::<LockGuardId>::empty()),
    {
        self.0.is_empty()
    }

    pub fn iter(&self) -> (r: Vec<LockGuardId>)
        ensures
            r@ == self.0.0@,
    {
        self.0.iter()
    }
}

/// How likely two guards deadlock, by their library, their flavour and the type they guard,
/// where the second is taken while the first is held: guards of one library and one kind of
/// lock (both mutexes, or both on a read-write lock) over the same type probably deadlock,
/// unless both are read guards, which possibly deadlock (spin read guards, never); any other
/// pair, and any pair with an unknown guard, is unlikely to. The judgement does not depend on
/// which of the two is held.
pub proof fn law_deadlock_judgement(fa: int, la: int, x: Ty, fb: int, lb: int, y: Ty, g: LockGuardTy)
    requires
        0 <= fa <= 2,
        0 <= la <= 2,
        0 <= fb <= 2,
        0 <= lb <= 2,
    ensures
        deadlock_with_spec(guard_ty_of(fa, la, x), guard_ty_of(fb, lb, y)) == if la == lb && (fa == 0) == (fb == 0) && same_ty(x, y) {
            if fa == 1 && fb == 1 {
                if la == 0 {
                    DeadlockPossibility::Unlikely
                } else {
                    DeadlockPossibility::Possibly
                }
            } else {
                DeadlockPossibility::Probably
            }
        } else {
            DeadlockPossibility::Unlikely
        },
        deadlock_with_spec(guard_ty_of(fa, la, x), guard_ty_of(fb, lb, y)) == deadlock_with_spec(guard_ty_of(fb, lb, y), guard_ty_of(fa, la, x)),
        deadlock_with_spec(LockGuardTy::Unknown, g) == DeadlockPossibility::Unlikely,
        deadlock_with_spec(g, LockGuardTy::Unknown) == DeadlockPossibility::Unlikely,
{
}

/// What the path of a type declaration says of the guard it is. A path that names no mutex,
/// read or write guard is none. Read before its generic arguments, the path gives the flavour
/// (a mutex guard where it names `MutexGuard`, else a read guard where it names
/// `RwLockReadGuard`, else a write guard) and the library (spin where it names `spin`, else
/// parking_lot where it names `lock_api` or `parking_lot`, else std); guards of async
/// runtimes and model checkers are none; the guarded type is the first type argument of the
/// name, the second for parking_lot, whose first is the raw lock.
pub proof fn law_guard_from_path(path: Seq<char>, n: Name)
    ensures
        !crate::text::has_sub(path, "MutexGuard"@) && !crate::text::has_sub(path, "RwLockReadGuard"@) && !crate::text::has_sub(path, "RwLockWriteGuard"@) ==> guard_from_path(path, n) is None,
        !(!crate::text::has_sub(before_char(path, '<'), "async"@) && !crate::text::has_sub(before_char(path, '<'), "tokio"@) && !crate::text::has_sub(before_char(path, '<'), "future"@) && !crate::text::has_sub(before_char(path, '<'), "loom"@)) ==> guard_from_path(path, n) is None,
        (crate::text::has_sub(before_char(path, '<'), "MutexGuard"@)) && (!crate::text::has_sub(before_char(path, '<'), "async"@) && !crate::text::has_sub(before_char(path, '<'), "tokio"@) && !crate::text::has_sub(before_char(path, '<'), "future"@) && !crate::text::has_sub(before_char(path, '<'), "loom"@)) && (crate::text::has_sub(before_char(path, '<'), "spin"@)) ==> guard_from_path(path, n) == match name_type_arg(n, 0) {
            Some(t) => Some(LockGuardTy::SpinMutex(t)),
            None => None,
        },
        (crate::text::has_sub(before_char(path, '<'), "MutexGuard"@)) && (!crate::text::has_sub(before_char(path, '<'), "async"@) && !crate::text::has_sub(before_char(path, '<'), "tokio"@) && !crate::text::has_sub(before_char(path, '<'), "future"@) && !crate::text::has_sub(before_char(path, '<'), "loom"@)) && (!crate::text::has_sub(before_char(path, '<'), "spin"@) && (crate::text::has_sub(before_char(path, '<'), "lock_api"@) || crate::text::has_sub(before_char(path, '<'), "parking_lot"@))) ==> guard_from_path(path, n) == match name_type_arg(n, 1) {
            Some(t) => Some(LockGuardTy::ParkingLotMutex(t)),
            None => None,
        },
        (crate::text::has_sub(before_char(path, '<'), "MutexGuard"@)) && (!crate::text::has_sub(before_char(path, '<'), "async"@) && !crate::text::has_sub(before_char(path, '<'), "tokio"@) && !crate::text::has_sub(before_char(path, '<'), "future"@) && !crate::text::has_sub(before_char(path, '<'), "loom"@)) && (!crate::text::has_sub(before_char(path, '<'), "spin"@) && !crate::text::has_sub(before_char(path, '<'), "lock_api"@) && !crate::text::has_sub(before_char(path, '<'), "parking_lot"@)) ==> guard_from_path(path, n) == match name_type_arg(n, 0) {
            Some(t) => Some(LockGuardTy::StdMutex(t)),
            None => None,
        },
        (!crate::text::has_sub(before_char(path, '<'), "MutexGuard"@) && crate::text::has_sub(before_char(path, '<'), "RwLockReadGuard"@)) && (!crate::text::has_sub(before_char(path, '<'), "async"@) && !crate::text::has_sub(before_char(path, '<'), "tokio"@) && !crate::text::has_sub(before_char(path, '<'), "future"@) && !crate::text::has_sub(before_char(path, '<'), "loom"@)) && (crate::text::has_sub(before_char(path, '<'), "spin"@)) ==> guard_from_path(path, n) == match name_type_arg(n, 0) {
            Some(t) => Some(LockGuardTy::SpinRead(t)),
            None => None,
        },
        (!crate::text::has_sub(before_char(path, '<'), "MutexGuard"@) && crate::text::has_sub(before_char(path, '<'), "RwLockReadGuard"@)) && (!crate::text::has_sub(before_char(path, '<'), "async"@) && !crate::text::has_sub(before_char(path, '<'), "tokio"@) && !crate::text::has_sub(before_char(path, '<'), "future"@) && !crate::text::has_sub(before_char(path, '<'), "loom"@)) && (!crate::text::has_sub(before_char(path, '<'), "spin"@) && (crate::text::has_sub(before_char(path, '<'), "lock_api"@) || crate::text::has_sub(before_char(path, '<'), "parking_lot"@))) ==> guard_from_path(path, n) == match name_type_arg(n, 1) {
            Some(t) => Some(LockGuardTy::ParkingLotRead(t)),
            None => None,
        },
        (!crate::text::has_sub(before_char(path, '<'), "MutexGuard"@) && crate::text::has_sub(before_char(path, '<'), "RwLockReadGuard"@)) && (!crate::text::has_sub(before_char(path, '<'), "async"@) && !crate::text::has_sub(before_char(path, '<'), "tokio"@) && !crate::text::has_sub(before_char(path, '<'), "future"@) && !crate::text::has_sub(before_char(path, '<'), "loom"@)) && (!crate::text::has_sub(before_char(path, '<'), "spin"@) && !crate::text::has_sub(before_char(path, '<'), "lock_api"@) && !crate::text::has_sub(before_char(path, '<'), "parking_lot"@)) ==> guard_from_path(path, n) == match name_type_arg(n, 0) {
            Some(t) => Some(LockGuardTy::StdRwLockRead(t)),
            None => None,
        },
        (!crate::text::has_sub(before_char(path, '<'), "MutexGuard"@) && !crate::text::has_sub(before_char(path, '<'), "RwLockReadGuard"@) && crate::text::has_sub(before_char(path, '<'), "RwLockWriteGuard"@)) && (!crate::text::has_sub(before_char(path, '<'), "async"@) && !crate::text::has_sub(before_char(path, '<'), "tokio"@) && !crate::text::has_sub(before_char(path, '<'), "future"@) && !crate::text::has_sub(before_char(path, '<'), "loom"@)) && (crate::text::has_sub(before_char(path, '<'), "spin"@)) ==> guard_from_path(path, n) == match name_type_arg(n, 0) {
            Some(t) => Some(LockGuardTy::SpinWrite(t)),
            None => None,
        },
        (!crate::text::has_sub(before_char(path, '<'), "MutexGuard"@) && !crate::text::has_sub(before_char(path, '<'), "RwLockReadGuard"@) && crate::text::has_sub(before_char(path, '<'), "RwLockWriteGuard"@)) && (!crate::text::has_sub(before_char(path, '<'), "async"@) && !crate::text::has_sub(before_char(path, '<'), "tokio"@) && !crate::text::has_sub(before_char(path, '<'), "future"@) && !crate::text::has_sub(before_char(path, '<'), "loom"@)) && (!crate::text::has_sub(before_char(path, '<'), "spin"@) && (crate::text::has_sub(before_char(path, '<'), "lock_api"@) || crate::text::has_sub(before_char(path, '<'), "parking_lot"@))) ==> guard_from_path(path, n) == match name_type_arg(n, 1) {
            Some(t) => Some(LockGuardTy::ParkingLotWrite(t)),
            None => None,
        },
        (!crate::text::has_sub(before_char(path, '<'), "MutexGuard"@) && !crate::text::has_sub(before_char(path, '<'), "RwLockReadGuard"@) && crate::text::has_sub(before_char(path, '<'), "RwLockWriteGuard"@)) && (!crate::text::has_sub(before_char(path, '<'), "async"@) && !crate::text::has_sub(before_char(path, '<'), "tokio"@) && !crate::text::has_sub(before_char(path, '<'), "future"@) && !crate::text::has_sub(before_char(path, '<'), "loom"@)) && (!crate::text::has_sub(before_char(path, '<'), "spin"@) && !crate::text::has_sub(before_char(path, '<'), "lock_api"@) && !crate::text::has_sub(before_char(path, '<'), "parking_lot"@)) ==> guard_from_path(path, n) == match name_type_arg(n, 0) {
            Some(t) => Some(LockGuardTy::StdRwLockWrite(t)),
            None => None,
        },
{
    let fp = before_char(path, '<');
    crate::text::lemma_before_char_prefix(path, '<');
    crate::text::lemma_prefix_is_sub(path, fp);
    if crate::text::has_sub(fp, "MutexGuard"@) {
        crate::text::lemma_sub_of_sub(path, fp, "MutexGuard"@);
    }
    if crate::text::has_sub(fp, "RwLockReadGuard"@) {
        crate::text::lemma_sub_of_sub(path, fp, "RwLockReadGuard"@);
    }
    if crate::text::has_sub(fp, "RwLockWriteGuard"@) {
        crate::text::lemma_sub_of_sub(path, fp, "RwLockWriteGuard"@);
    }
}

} // verus!
