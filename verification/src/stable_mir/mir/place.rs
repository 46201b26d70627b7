//! Places: locations in memory.

use vstd::prelude::*;

use crate::stable_mir::mir::{Local, LocalDecl};
use crate::stable_mir::ty::{RigidTy, Ty, TyKind, TyTable};

verus! {

/// Index of a field of a struct or tuple.
pub type FieldIdx = usize;

/// Index of an enum variant.
pub type VariantIdx = usize;

/// A local, then the projections taken from it.
#[derive(Debug, Clone, PartialEq, Eq, Hash)]
pub struct Place {
    /// The local the place starts from.
    pub local: Local,
    /// Field accesses, dereferences and indexing, in order.
    pub projection: Vec<ProjectionElem>,
}

/// One step of a projection.
#[derive(Debug, Clone, Copy, PartialEq, Eq, Structural, Hash)]
pub enum ProjectionElem {
    Deref,
    Field(FieldIdx, Ty),
    Index(Local),
    ConstantIndex { offset: u64, min_length: u64, from_end: bool },
    Subslice { from: u64, to: u64, from_end: bool },
    Downcast(VariantIdx),
    OpaqueCast(Ty),
}

/// Two places are the same: the same local and the same steps.
pub open spec fn same_place(a: Place, b: Place) -> bool {
    a.local == b.local && a.projection@ == b.projection@
}

/// Every place, where there is one, is the same place as itself.
pub proof fn lemma_same_place_refl_opt(p: Option<Place>)
    ensures
        p matches Some(q) ==> same_place(q, q),
{
}

/// Whether `a` and `b` are the same place.
pub fn place_eq(a: &Place, b: &Place) -> (r: bool)
    ensures
        r == same_place(*a, *b),
{
    if a.local != b.local || a.projection.len() != b.projection.len() {
        return false;
    }
    let mut i: usize = 0;
    while i < a.projection.len()
        invariant
            a.projection@.len() == b.projection@.len(),
            i <= a.projection@.len(),
            forall|k: int| 0 <= k < i ==> a.projection@[k] == b.projection@[k],
        decreases a.projection@.len() - i,
    {
        if a.projection[i] != b.projection[i] {
            return false;
        }
        i = i + 1;
    }
    assert(a.projection@ =~= b.projection@);
    true
}

/// A copy of a place.
pub fn copy_place(a: &Place) -> (r: Place)
    ensures
        same_place(r, *a),
{
    let mut projection: Vec<ProjectionElem> = Vec::new();
    let mut i: usize = 0;
    while i < a.projection.len()
        invariant
            i <= a.projection@.len(),
            projection@ == a.projection@.subrange(0, i as int),
        decreases a.projection@.len() - i,
    {
        projection.push(a.projection[i]);
        i = i + 1;
    }
    assert(projection@ =~= a.projection@);
    Place { local: a.local, projection }
}

/// The type that one projection step leads to from a value of type `t`, if it applies.
pub open spec fn elem_ty(table: TyTable, t: Ty, e: ProjectionElem) -> Option<Ty> {
    match e {
        ProjectionElem::Deref => match table.kind_in(t) {
            Some(TyKind::RigidTy(RigidTy::Ref(_, inner, _))) => Some(inner),
            Some(TyKind::RigidTy(RigidTy::RawPtr(inner, _))) => Some(inner),
            _ => None,
        },
        ProjectionElem::Field(_, f) => Some(f),
        ProjectionElem::Index(_) | ProjectionElem::ConstantIndex { .. } => match table.kind_in(t) {
            Some(TyKind::RigidTy(RigidTy::Array(inner, _))) => Some(inner),
            Some(TyKind::RigidTy(RigidTy::Slice(inner))) => Some(inner),
            _ => None,
        },
        ProjectionElem::Subslice { .. } => match table.kind_in(t) {
            Some(TyKind::RigidTy(RigidTy::Slice(_))) => Some(t),
            _ => None,
        },
        ProjectionElem::Downcast(_) => Some(t),
        ProjectionElem::OpaqueCast(c) => Some(c),
    }
}

/// The type reached from `base` through the steps `elems`, in order.
pub open spec fn projected_ty(table: TyTable, base: Ty, elems: Seq<ProjectionElem>) -> Option<Ty>
    decreases elems.len(),
{
    if elems.len() == 0 {
        Some(base)
    } else {
        match projected_ty(table, base, elems.drop_last()) {
            Some(t) => elem_ty(table, t, elems.last()),
            None => None,
        }
    }
}

/// The type of a place in a body with these locals.
pub open spec fn place_ty_spec(table: TyTable, locals: Seq<LocalDecl>, place: Place) -> Option<Ty> {
    if place.local < locals.len() {
        projected_ty(table, locals[place.local as int].ty, place.projection@)
    } else {
        None
    }
}

/// The type one projection step leads to.
fn elem_ty_of(table: &TyTable, t: Ty, e: &ProjectionElem) -> (r: Option<Ty>)
    ensures
        r == elem_ty(*table, t, *e),
{
    match e {
        ProjectionElem::Deref => match table.kind(&t) {
            Some(TyKind::RigidTy(RigidTy::Ref(_, inner, _))) => Some(*inner),
            Some(TyKind::RigidTy(RigidTy::RawPtr(inner, _))) => Some(*inner),
            _ => None,
        },
        ProjectionElem::Field(_, f) => Some(*f),
        ProjectionElem::Index(_) | ProjectionElem::ConstantIndex { .. } => match table.kind(&t) {
            Some(TyKind::RigidTy(RigidTy::Array(inner, _))) => Some(*inner),
            Some(TyKind::RigidTy(RigidTy::Slice(inner))) => Some(*inner),
            _ => None,
        },
        ProjectionElem::Subslice { .. } => match table.kind(&t) {
            Some(TyKind::RigidTy(RigidTy::Slice(_))) => Some(t),
            _ => None,
        },
        ProjectionElem::Downcast(_) => Some(t),
        ProjectionElem::OpaqueCast(c) => Some(*c),
    }
}

impl Place {
    /// The type of this place, in a body with these locals; an error where a step does not
    /// apply to the type it is taken from.
    pub fn ty(&self, locals: &[LocalDecl], table: &TyTable) -> (r: Result<Ty, ()>)
        ensures
            r matches Ok(t) ==> place_ty_spec(*table, locals@, *self) == Some(t),
            r is Err ==> place_ty_spec(*table, locals@, *self) is None,
    {
        if self.local >= locals.len() {
            return Err(());
        }
        let mut t = locals[self.local].ty;
        let mut i: usize = 0;
        while i < self.projection.len()
            invariant
                self.local < locals@.len(),
                i <= self.projection@.len(),
                projected_ty(*table, locals@[self.local as int].ty, self.projection@.subrange(0, i as int)) == Some(t),
            decreases self.projection@.len() - i,
        {
            let ghost pre = self.projection@.subrange(0, i as int);
            assert(self.projection@.subrange(0, i + 1).drop_last() =~= pre);
            match elem_ty_of(table, t, &self.projection[i]) {
                Some(n) => {
                    t = n;
                },
                None => {
                    assert(self.projection@.subrange(0, i + 1).last() == self.projection@[i as int]);
                    proof {
                        lemma_projected_none_extends(*table, locals@[self.local as int].ty, self.projection@, i as int + 1);
                    }
                    return Err(());
                },
            }
            i = i + 1;
        }
        assert(self.projection@.subrange(0, self.projection@.len() as int) =~= self.projection@);
        Ok(t)
    }
}

/// Once a step does not apply, no longer sequence of steps applies either.
proof fn lemma_projected_none_extends(table: TyTable, base: Ty, elems: Seq<ProjectionElem>, k: int)
    requires
        0 <= k <= elems.len(),
        projected_ty(table, base, elems.subrange(0, k)) is None,
    ensures
        projected_ty(table, base, elems) is None,
    decreases elems.len() - k,
{
    if k < elems.len() {
        assert(elems.subrange(0, k + 1).drop_last() =~= elems.subrange(0, k));
        lemma_projected_none_extends(table, base, elems, k + 1);
    } else {
        assert(elems.subrange(0, k) =~= elems);
    }
}

/// A constant in a type.
#[derive(Debug, Clone)]
pub struct TyConst {
    pub inner: String,
}

} // verus!
