//! Which mutex a lock guard locks, and when two guards lock the same one.

use vstd::prelude::*;

use crate::stable_analysis::lock_types::{copy_instance, instance_eq, same_instance};
use crate::stable_mir::mir::place::{copy_place, place_eq, same_place, place_ty_spec};
use crate::stable_mir::mir::{BasicBlock, Body, Instance, Local, Operand, Place, Statement, StatementKind, TerminatorKind};
use crate::stable_mir::ty::{RigidTy, Ty, TyKind, TyTable};
use crate::text::{chars_of, has_sub, push_decimal, str_has_sub, utf8_len, utf8_len_exceeds, vec_has};

verus! {

/// Where a mutex lives.
#[derive(Clone, Debug)]
pub enum MutexIdentity {
    /// A local variable of an instance.
    Local { instance: Instance, local: Local },
    /// A static variable.
    Static { name: String },
    /// A parameter of an instance.
    Parameter { instance: Instance, local: Local },
    /// Behind an `Arc`, reached through this place.
    Arc { inner_place: Place },
    /// Captured by a closure.
    ClosureUpvar { closure_instance: Instance, upvar_index: usize },
}

/// Two identities are the same value.
pub open spec fn identity_eq(a: MutexIdentity, b: MutexIdentity) -> bool {
    match (a, b) {
        (MutexIdentity::Local { instance: i1, local: l1 }, MutexIdentity::Local { instance: i2, local: l2 }) => same_instance(i1, i2) && l1 == l2,
        (MutexIdentity::Static { name: n1 }, MutexIdentity::Static { name: n2 }) => n1@ == n2@,
        (MutexIdentity::Parameter { instance: i1, local: l1 }, MutexIdentity::Parameter { instance: i2, local: l2 }) => same_instance(i1, i2) && l1 == l2,
        (MutexIdentity::Arc { inner_place: p1 }, MutexIdentity::Arc { inner_place: p2 }) => same_place(p1, p2),
        (
            MutexIdentity::ClosureUpvar { closure_instance: c1, upvar_index: u1 },
            MutexIdentity::ClosureUpvar { closure_instance: c2, upvar_index: u2 },
        ) => same_instance(c1, c2) && u1 == u2,
        _ => false,
    }
}

/// The name of an instance, as the session prints its definition.
pub open spec fn instance_name(table: TyTable, instance: Instance) -> Seq<char> {
    table.def_text_of(instance.def)
}

/// The printed form of a place inside an `Arc`: `arc_local` and its local.
pub open spec fn place_text(place: Place) -> Seq<char> {
    "arc_local"@ + crate::text::decimal(place.local as nat)
}

/// The printed form of an identity, which keys it in the lock graph.
pub open spec fn identity_text(table: TyTable, id: MutexIdentity) -> Seq<char> {
    match id {
        MutexIdentity::Local { instance, local } => instance_name(table, instance) + "::local"@ + crate::text::decimal(
            local as nat,
        ),
        MutexIdentity::Static { name } => "static("@ + name@ + ")"@,
        MutexIdentity::Parameter { instance, local } => instance_name(table, instance) + "::param"@
            + crate::text::decimal(local as nat),
        MutexIdentity::Arc { inner_place } => "arc("@ + place_text(inner_place) + ")"@,
        MutexIdentity::ClosureUpvar { closure_instance, upvar_index } => instance_name(table, closure_instance)
            + "::upvar"@ + crate::text::decimal(upvar_index as nat),
    }
}

impl MutexIdentity {
    /// A copy of this identity.
    pub fn copy(&self) -> (r: Self)
        ensures
            identity_eq(r, *self),
    {
        match self {
            MutexIdentity::Local { instance, local } => MutexIdentity::Local { instance: copy_instance(instance), local: *local },
            MutexIdentity::Static { name } => MutexIdentity::Static { name: name.clone() },
            MutexIdentity::Parameter { instance, local } => MutexIdentity::Parameter {
                instance: copy_instance(instance),
                local: *local,
            },
            MutexIdentity::Arc { inner_place } => MutexIdentity::Arc { inner_place: copy_place(inner_place) },
            MutexIdentity::ClosureUpvar { closure_instance, upvar_index } => MutexIdentity::ClosureUpvar {
                closure_instance: copy_instance(closure_instance),
                upvar_index: *upvar_index,
            },
        }
    }

    /// The printed form of this identity.
    pub fn text(&self, table: &TyTable) -> (r: String)
        ensures
            r@ == identity_text(*table, *self),
    {
        let mut s = String::new();
        match self {
            MutexIdentity::Local { instance, local } => {
                let name = table.def_text(instance.def);
                s.append(name.as_str());
                s.append("::local");
                push_decimal(&mut s, *local);
            },
            MutexIdentity::Static { name } => {
                s.append("static(");
                s.append(name.as_str());
                s.append(")");
            },
            MutexIdentity::Parameter { instance, local } => {
                let name = table.def_text(instance.def);
                s.append(name.as_str());
                s.append("::param");
                push_decimal(&mut s, *local);
            },
            MutexIdentity::Arc { inner_place } => {
                s.append("arc(");
                let p = place_to_readable_string(inner_place);
                s.append(p.as_str());
                s.append(")");
            },
            MutexIdentity::ClosureUpvar { closure_instance, upvar_index } => {
                let name = table.def_text(closure_instance.def);
                s.append(name.as_str());
                s.append("::upvar");
                push_decimal(&mut s, *upvar_index);
            },
        }
        proof {
            assert(s@ =~= identity_text(*table, *self));
        }
        s
    }
}

/// A short readable name of a lock type printed as `t`.
pub open spec fn readable_ty_text(t: Seq<char>) -> Seq<char> {
    if has_sub(t, "Mutex"@) {
        if has_sub(t, "I32"@) || has_sub(t, "i32"@) {
            "Mutex<i32>"@
        } else if has_sub(t, "Bool"@) || has_sub(t, "bool"@) {
            "Mutex<bool>"@
        } else if has_sub(t, "U8"@) || has_sub(t, "u8"@) {
            "Mutex<u8>"@
        } else if has_sub(t, "USize"@) || has_sub(t, "usize"@) {
            "Mutex<usize>"@
        } else {
            "Mutex<static>"@
        }
    } else if has_sub(t, "RwLock"@) {
        if has_sub(t, "I32"@) || has_sub(t, "i32"@) {
            "RwLock<i32>"@
        } else {
            "RwLock<static>"@
        }
    } else if utf8_len(t) > 40 {
        "static_mutex"@
    } else {
        t
    }
}

/// A short readable name of the type `ty`: the kind of lock and the type it protects where
/// that is a common integer or `bool`, or else the printed type where it is short.
pub fn ty_to_readable_string(ty: &Ty, table: &TyTable) -> (r: String)
    ensures
        r@ == readable_ty_text(table.text_of(*ty)),
{
    let ty_str = table.text(ty);
    let t = chars_of(ty_str.as_str());
    if vec_has(&t, "Mutex") {
        if vec_has(&t, "I32") || vec_has(&t, "i32") {
            return crate::text::string_of("Mutex<i32>");
        }
        if vec_has(&t, "Bool") || vec_has(&t, "bool") {
            return crate::text::string_of("Mutex<bool>");
        }
        if vec_has(&t, "U8") || vec_has(&t, "u8") {
            return crate::text::string_of("Mutex<u8>");
        }
        if vec_has(&t, "USize") || vec_has(&t, "usize") {
            return crate::text::string_of("Mutex<usize>");
        }
        return crate::text::string_of("Mutex<static>");
    }
    if vec_has(&t, "RwLock") {
        if vec_has(&t, "I32") || vec_has(&t, "i32") {
            return crate::text::string_of("RwLock<i32>");
        }
        return crate::text::string_of("RwLock<static>");
    }
    if utf8_len_exceeds(&t, 40) {
        crate::text::string_of("static_mutex")
    } else {
        ty_str
    }
}

/// A readable name of a place inside an `Arc`: `arc_local` and its local.
pub fn place_to_readable_string(place: &Place) -> (r: String)
    ensures
        r@ == place_text(*place),
{
    let mut s = String::new();
    s.append("arc_local");
    push_decimal(&mut s, place.local);
    s
}

/// Two identities are known to be the same mutex: the same local, static, parameter, place
/// behind an `Arc` or closure capture.
pub open spec fn same_mutex_spec(a: MutexIdentity, b: MutexIdentity) -> bool {
    identity_eq(a, b)
}

/// The identity of the mutex locked by a call with arguments `args`, made in `instance`.
pub open spec fn mutex_identity_of_call(
    table: TyTable,
    args: Seq<Operand>,
    body: Body,
    instance: Instance,
) -> Option<MutexIdentity> {
    if args.len() == 0 {
        None
    } else {
        match args[0] {
            Operand::Copy(place) | Operand::Move(place) => match place_ty_spec(table, body.locals_spec(), place) {
                None => None,
                Some(ty) => Some(
                    if arc_reached(table, ty) {
                        MutexIdentity::Arc { inner_place: place }
                    } else if is_parameter_spec(place.local, body) {
                        MutexIdentity::Parameter { instance, local: place.local }
                    } else if is_closure_name(instance_name(table, instance)) {
                        MutexIdentity::ClosureUpvar { closure_instance: instance, upvar_index: place.local }
                    } else {
                        MutexIdentity::Local { instance, local: place.local }
                    },
                ),
            },
            _ => None,
        }
    }
}

/// A type is an `Arc`: an ADT whose definition prints with `sync::Arc` or `Arc<`.
pub open spec fn is_arc_ty(table: TyTable, ty: Ty) -> bool {
    match table.kind_in(ty) {
        Some(TyKind::RigidTy(RigidTy::Adt(adt, _))) => has_sub(table.def_text_of(adt), "sync::Arc"@) || has_sub(
            table.def_text_of(adt),
            "Arc<"@,
        ),
        _ => false,
    }
}

/// The argument type is an `Arc`, or a reference or pointer to one.
pub open spec fn arc_reached(table: TyTable, ty: Ty) -> bool {
    match table.kind_in(ty) {
        Some(TyKind::RigidTy(RigidTy::Ref(_, inner, _))) => is_arc_ty(table, inner),
        Some(TyKind::RigidTy(RigidTy::RawPtr(inner, _))) => is_arc_ty(table, inner),
        _ => is_arc_ty(table, ty),
    }
}

/// A local is taken for a parameter: one of the first three after the return value.
pub open spec fn is_parameter_spec(local: Local, body: Body) -> bool {
    local < body.locals_spec().len() && 0 < local <= 3
}

/// An instance is a closure: its name mentions `closure` or `Closure`.
pub open spec fn is_closure_name(name: Seq<char>) -> bool {
    has_sub(name, "closure"@) || has_sub(name, "Closure"@)
}

/// The statement assigns to a place based on `local`.
pub open spec fn stmt_assigns(s: Statement, local: Local) -> bool {
    s.kind matches StatementKind::Assign(p, _) && p.local == local
}

/// The call that ends block `bb` writes its result to a place based on `local`.
pub open spec fn call_writes(bb: BasicBlock, local: Local) -> bool {
    bb.terminator.kind matches TerminatorKind::Call { destination, .. } && destination.local == local
}

/// How block `bb` first mentions `local`: 1 where its call writes it, 2 where one of its
/// statements assigns it, 0 where neither.
pub open spec fn block_creates(bb: BasicBlock, local: Local) -> int {
    if call_writes(bb, local) {
        1
    } else if exists|k: int| 0 <= k < bb.statements@.len() && stmt_assigns(#[trigger] bb.statements@[k], local) {
        2
    } else {
        0
    }
}

/// The identity of the mutex whose guard is `local`, from block `i` of `body` on.
pub open spec fn identity_from(table: TyTable, body: Body, local: Local, instance: Instance, i: int) -> Option<
    MutexIdentity,
>
    decreases body.blocks_spec().len() - i,
{
    if i < 0 || i >= body.blocks_spec().len() {
        None
    } else {
        let bb = body.blocks_spec()[i];
        if block_creates(bb, local) == 1 {
            match bb.terminator.kind {
                TerminatorKind::Call { args, .. } => mutex_identity_of_call(table, args@, body, instance),
                _ => None,
            }
        } else if block_creates(bb, local) == 2 {
            Some(MutexIdentity::Local { instance, local })
        } else {
            identity_from(table, body, local, instance, i + 1)
        }
    }
}

/// Two optional identities agree.
pub open spec fn opt_identity_eq(a: Option<MutexIdentity>, b: Option<MutexIdentity>) -> bool {
    match (a, b) {
        (Some(x), Some(y)) => identity_eq(x, y),
        (None, None) => true,
        _ => false,
    }
}

/// Works out which mutex each lock guard locks.
pub struct MutexIdentityAnalyzer {
    identities: Vec<(Place, MutexIdentity)>,
}

impl MutexIdentityAnalyzer {
    /// An analyzer that knows no identity yet.
    pub fn new() -> (r: Self) {
        Self { identities: Vec::new() }
    }

    /// The identity of the mutex whose guard is `guard_local` of `guard_instance`: taken from
    /// the first block whose call writes the guard (from the call's receiver) or one of whose
    /// statements assigns it (a local mutex); none where no block does.
    pub fn analyze_mutex_from_guard(
        &mut self,
        guard_local: Local,
        guard_instance: &Instance,
        body: &Body,
        table: &TyTable,
    ) -> (r: Option<MutexIdentity>)
        ensures
            opt_identity_eq(r, identity_from(*table, *body, guard_local, *guard_instance, 0)),
    {
        let blocks = body.basic_blocks();
        let mut i: usize = 0;
        while i < blocks.len()
            invariant
                blocks@ == body.blocks_spec(),
                i <= blocks@.len(),
                identity_from(*table, *body, guard_local, *guard_instance, 0) == identity_from(
                    *table,
                    *body,
                    guard_local,
                    *guard_instance,
                    i as int,
                ),
            decreases blocks@.len() - i,
        {
            let bb = &blocks[i];
            if let TerminatorKind::Call { args, destination, .. } = &bb.terminator.kind {
                if destination.local == guard_local {
                    return self.extract_mutex_identity(args, body, guard_instance, table);
                }
            }
            let ghost not_call = !call_writes(*bb, guard_local);
            assert(not_call);
            let mut k: usize = 0;
            while k < bb.statements.len()
                invariant
                    not_call == !call_writes(*bb, guard_local),
                    not_call,
                    blocks@ == body.blocks_spec(),
                    i < blocks@.len(),
                    *bb == blocks@[i as int],
                    identity_from(*table, *body, guard_local, *guard_instance, 0) == identity_from(
                        *table,
                        *body,
                        guard_local,
                        *guard_instance,
                        i as int,
                    ),
                    k <= bb.statements@.len(),
                    forall|j: int| 0 <= j < k ==> !stmt_assigns(#[trigger] bb.statements@[j], guard_local),
                decreases bb.statements@.len() - k,
            {
                if let StatementKind::Assign(place, _) = &bb.statements[k].kind {
                    if place.local == guard_local {
                        assert(stmt_assigns(bb.statements@[k as int], guard_local));
                        assert(block_creates(*bb, guard_local) == 2);
                        return Some(MutexIdentity::Local { instance: copy_instance(guard_instance), local: guard_local });
                    }
                }
                k = k + 1;
            }
            assert(block_creates(*bb, guard_local) == 0);
            i = i + 1;
        }
        None
    }

    /// The identity of the mutex that a lock call with arguments `args` locks, made in
    /// `instance`: from the type and local of its first argument.
    pub fn extract_mutex_identity(
        &mut self,
        args: &Vec<Operand>,
        body: &Body,
        instance: &Instance,
        table: &TyTable,
    ) -> (r: Option<MutexIdentity>)
        ensures
            opt_identity_eq(r, mutex_identity_of_call(*table, args@, *body, *instance)),
    {
        if args.len() == 0 {
            return None;
        }
        let mutex_place = match &args[0] {
            Operand::Move(place) | Operand::Copy(place) => place,
            _ => return None,
        };
        let ty = match mutex_place.ty(body.locals(), table) {
            Ok(t) => t,
            Err(_) => return None,
        };
        let local = mutex_place.local;
        let is_arc = match table.kind(&ty) {
            Some(TyKind::RigidTy(RigidTy::Ref(_, inner, _))) => self.is_arc_mutex(inner, table),
            Some(TyKind::RigidTy(RigidTy::RawPtr(inner, _))) => self.is_arc_mutex(inner, table),
            _ => self.is_arc_mutex(&ty, table),
        };
        if is_arc {
            return Some(MutexIdentity::Arc { inner_place: copy_place(mutex_place) });
        }
        if self.is_parameter(local, body) {
            return Some(MutexIdentity::Parameter { instance: copy_instance(instance), local });
        }
        if self.is_closure_upvar(local, body, instance, table) {
            return Some(MutexIdentity::ClosureUpvar { closure_instance: copy_instance(instance), upvar_index: local });
        }
        Some(MutexIdentity::Local { instance: copy_instance(instance), local })
    }

    /// Whether `local` is taken for a parameter: one of the first three locals after the
    /// return value.
    pub fn is_parameter(&self, local: Local, body: &Body) -> (r: bool)
        ensures
            r == is_parameter_spec(local, *body),
    {
        local < body.local_count() && local > 0 && local <= 3
    }

    /// Whether `instance` is a closure, so that its locals are captures.
    pub fn is_closure_upvar(&self, local: Local, body: &Body, instance: &Instance, table: &TyTable) -> (r: bool)
        ensures
            r == is_closure_name(instance_name(*table, *instance)),
    {
        let name = table.def_text(instance.def);
        str_has_sub(name.as_str(), "closure") || str_has_sub(name.as_str(), "Closure")
    }

    /// Whether `ty` is an `Arc`.
    pub fn is_arc_mutex(&self, ty: &Ty, table: &TyTable) -> (r: bool)
        ensures
            r == is_arc_ty(*table, *ty),
    {
        match table.kind(ty) {
            Some(TyKind::RigidTy(RigidTy::Adt(adt, _))) => {
                let path = table.def_text(*adt);
                str_has_sub(path.as_str(), "sync::Arc") || str_has_sub(path.as_str(), "Arc<")
            },
            _ => false,
        }
    }

    /// Whether `ty` is a reference or a raw pointer.
    pub fn is_static_reference(&self, ty: &Ty, table: &TyTable) -> (r: bool)
        ensures
            r == (table.kind_in(*ty) matches Some(TyKind::RigidTy(rigid)) && (rigid is Ref || rigid is RawPtr)),
    {
        match table.kind(ty) {
            Some(TyKind::RigidTy(RigidTy::Ref(_, _, _))) => true,
            Some(TyKind::RigidTy(RigidTy::RawPtr(_, _))) => true,
            _ => false,
        }
    }

    /// Whether `id1` and `id2` are known to be the same mutex.
    pub fn same_mutex(&self, id1: &MutexIdentity, id2: &MutexIdentity) -> (r: bool)
        ensures
            r == same_mutex_spec(*id1, *id2),
    {
        match (id1, id2) {
            (MutexIdentity::Local { instance: i1, local: l1 }, MutexIdentity::Local { instance: i2, local: l2 }) => {
                instance_eq(i1, i2) && *l1 == *l2
            },
            (MutexIdentity::Static { name: n1 }, MutexIdentity::Static { name: n2 }) => *n1 == *n2,
            (MutexIdentity::Parameter { instance: i1, local: l1 }, MutexIdentity::Parameter { instance: i2, local: l2 }) => {
                instance_eq(i1, i2) && *l1 == *l2
            },
            (MutexIdentity::Arc { inner_place: p1 }, MutexIdentity::Arc { inner_place: p2 }) => place_eq(p1, p2),
            (
                MutexIdentity::ClosureUpvar { closure_instance: c1, upvar_index: u1 },
                MutexIdentity::ClosureUpvar { closure_instance: c2, upvar_index: u2 },
            ) => {
                if !instance_eq(c1, c2) {
                    return false;
                }
                *u1 == *u2
            },
            _ => false,
        }
    }
}

/// Whether two mutex identities are the same is symmetric: the order of the guards does not
/// matter.
pub proof fn lemma_same_mutex_symmetric(a: MutexIdentity, b: MutexIdentity)
    ensures
        same_mutex_spec(a, b) == same_mutex_spec(b, a),
{
}

} // verus!
