//! The values that rvalues and terminators use.

use vstd::prelude::*;

use crate::stable_mir::crate_def::Span;
use crate::stable_mir::mir::{LocalDecl, Place};
use crate::stable_mir::mir::place::place_ty_spec;
use crate::stable_mir::ty::{Ty, TyTable};

verus! {

/// A value used as input.
#[derive(Debug, Clone)]
pub enum Operand {
    /// A copy of the value in a place.
    Copy(Place),
    /// The value in a place, moved out.
    Move(Place),
    /// A constant.
    Constant(ConstOperand),
    /// A check made at run time.
    RuntimeChecks(RuntimeChecks),
}

/// The type of an operand, in a body with these locals.
pub open spec fn operand_ty_spec(table: TyTable, locals: Seq<LocalDecl>, op: Operand) -> Option<Ty> {
    match op {
        Operand::Copy(p) | Operand::Move(p) => place_ty_spec(table, locals, p),
        Operand::Constant(c) => match c.const_ {
            MirConst::Typed(t, _) => Some(t),
            _ => None,
        },
        Operand::RuntimeChecks(_) => None,
    }
}

impl Operand {
    /// The type of this operand, in a body with these locals; an error where it cannot be told.
    pub fn ty(&self, locals: &[LocalDecl], table: &TyTable) -> (r: Result<Ty, ()>)
        ensures
            r matches Ok(t) ==> operand_ty_spec(*table, locals@, *self) == Some(t),
            r is Err ==> operand_ty_spec(*table, locals@, *self) is None,
    {
        match self {
            Operand::Copy(p) | Operand::Move(p) => p.ty(locals, table),
            Operand::Constant(c) => match &c.const_ {
                MirConst::Typed(t, _) => Ok(*t),
                _ => Err(()),
            },
            Operand::RuntimeChecks(_) => Err(()),
        }
    }
}

/// A constant operand.
#[derive(Debug, Clone)]
pub struct ConstOperand {
    pub span: Span,
    pub user_ty: Option<usize>,
    pub const_: MirConst,
}

/// A constant of a body.
#[derive(Debug, Clone)]
pub enum MirConst {
    /// A value of a type.
    Typed(Ty, ConstValue),
    /// The allocation of a static or constant item.
    Items(usize),
    /// A value of a zero-sized type.
    ZeroSized,
    /// A constant not evaluated yet.
    Unevaluated(DefWithTyId, GenericArgs),
}

/// A definition with a type.
pub type DefWithTyId = usize;

/// The types that instantiate a generic item.
pub type GenericArgs = Vec<Ty>;

/// The value of a constant.
#[derive(Debug, Clone)]
pub enum ConstValue {
    Scalar(Scalar),
    Slice(Vec<u8>),
    Allocation(Allocation),
}

/// A scalar value.
#[derive(Debug, Clone)]
pub enum Scalar {
    /// An integer.
    Int(u128),
    /// A floating-point number, by its bits.
    Float(u64),
    Bool(bool),
    Char(char),
    /// An address.
    Ptr(u64),
}

/// An allocation in memory.
#[derive(Debug, Clone)]
pub struct Allocation {
    /// Its bytes.
    pub bytes: Vec<u8>,
    /// Pointers to other allocations: offset and definition.
    pub relocations: Vec<(usize, usize)>,
    /// Whether it may be written.
    pub mutability: bool,
}

/// A check made at run time.
#[derive(Debug, Clone)]
pub struct RuntimeChecks {
    reserved: bool,
}

} // verus!
