//! Rvalues: expressions that produce a value.

use vstd::prelude::*;

use crate::stable_mir::crate_def::{AdtDef, ClosureDef, CoroutineClosureDef, CoroutineDef, EnumDef, StructDef};
use crate::stable_mir::mir::{Operand, Place};
use crate::stable_mir::ty::{GenericArgs, Ty};

verus! {

pub type VariantIdx = usize;

/// An expression that produces a value.
#[derive(Debug, Clone)]
pub enum Rvalue {
    AddressOf(RawPtrKind, Place),
    Aggregate(AggregateKind, Vec<Operand>),
    BinaryOp(BinOp, Operand, Operand),
    Cast(CastKind, Operand, Ty),
    CheckedBinaryOp(BinOp, Operand, Operand),
    CopyForDeref(Place),
    Discriminant(Place),
    Len(Place),
    Ref(Region, BorrowKind, Place),
    Repeat(Operand, TyConst),
    ShallowInitBox(Operand, Ty),
    ThreadLocalRef(ThreadLocalDef),
    UnaryOp(UnOp, Operand),
    Use(Operand),
}

/// The kind of a raw pointer.
#[derive(Debug, Clone, Copy, PartialEq, Eq, Structural)]
pub enum RawPtrKind {
    Mutable,
    Immutable,
}

/// What an aggregate builds.
#[derive(Debug, Clone)]
pub enum AggregateKind {
    Struct(StructDef, GenericArgs),
    Tuple,
    Array(Ty),
    EnumVariant(EnumDef, VariantIdx, GenericArgs),
    Closure(ClosureDef, GenericArgs),
    Coroutine(CoroutineDef, GenericArgs),
    CoroutineClosure(CoroutineClosureDef, GenericArgs),
    Adt(AdtDef, VariantIdx, GenericArgs, Option<usize>),
}

/// A binary operation.
#[derive(Debug, Clone, Copy, PartialEq, Eq, Structural)]
pub enum BinOp {
    Add,
    Sub,
    Mul,
    Div,
    Rem,
    BitXor,
    BitAnd,
    BitOr,
    Shl,
    Shr,
    Eq,
    Lt,
    Le,
    Ne,
    Ge,
    Gt,
    Offset,
}

/// The kind of a cast.
#[derive(Debug, Clone, Copy, PartialEq, Eq, Structural)]
pub enum CastKind {
    PointerExposeAddress,
    PointerFromExposedAddress,
    Pointer(AddressCastKind),
    IntToInt(IntCastKind),
    FloatToInt,
    FloatToFloat,
    IntToFloat,
    FnPtrToPtr,
    PtrToPtr,
    PointerToExposedAddress,
}

/// The kind of an address cast.
#[derive(Debug, Clone, Copy, PartialEq, Eq, Structural)]
pub enum AddressCastKind {
    PtrToPtr,
    InBounds,
}

/// The kind of an integer cast.
#[derive(Debug, Clone, Copy, PartialEq, Eq, Structural)]
pub enum IntCastKind {
    Signed,
    Unsigned,
}

/// A unary operation.
#[derive(Debug, Clone, Copy, PartialEq, Eq, Structural)]
pub enum UnOp {
    Neg,
    Not,
    /// The metadata of a wide pointer.
    RawPtrMetadataOp,
}

/// The kind of a borrow.
#[derive(Debug, Clone, Copy, PartialEq, Eq, Structural)]
pub enum BorrowKind {
    Shared,
    Mut { kind: MutRefKind },
    TwoPhaseMut { kind: MutRefKind },
    Frozen,
    Shallow,
}

/// The kind of a mutable borrow.
#[derive(Debug, Clone, Copy, PartialEq, Eq, Structural)]
pub enum MutRefKind {
    Default,
    /// A closure capture taken where the closure is declared.
    CaptureAtDecl,
}

/// A lifetime, erased.
#[derive(Debug, Clone)]
pub enum Region {
    Erased,
}

/// A constant in a type, such as an array length.
#[derive(Debug, Clone)]
pub struct TyConst {
    pub inner: String,
}

/// A thread-local static.
pub type ThreadLocalDef = usize;

} // verus!
