//! Statements: the instructions of a block before its terminator.

use vstd::prelude::*;

use crate::stable_mir::crate_def::Span;
use crate::stable_mir::mir::{Local, Operand, Place, Rvalue};
use crate::stable_mir::ty::Ty;

verus! {

/// An instruction that does not end a block.
#[derive(Debug, Clone)]
pub struct Statement {
    pub kind: StatementKind,
    pub span: Span,
}

/// The kinds of statements.
#[derive(Debug, Clone)]
pub enum StatementKind {
    Assign(Place, Rvalue),
    FakeRead(FakeReadCause, Place),
    SetDiscriminant { place: Place, variant_index: usize },
    StorageLive(Local),
    StorageDead(Local),
    Retag(RetagKind, Place),
    PlaceMention(Place),
    AscribeUserType { place: Place, projections: Vec<UserTypeProjection>, variance: Variance },
    Coverage(Coverage),
    Intrinsic(NonDivergingIntrinsic),
    ConstEvalCounter,
    Nop,
}

/// Why a value is read without being used.
#[derive(Debug, Clone, Copy, PartialEq, Eq, Structural)]
pub enum FakeReadCause {
    ForMatchGuard,
    ForMatchedPlace,
    ForLet,
    ForClosureCapture,
    ForIndex,
}

/// The kind of a retag.
#[derive(Debug, Clone, Copy, PartialEq, Eq, Structural)]
pub enum RetagKind {
    FnEntry,
    TwoWay,
    Raw,
    Default,
}

/// A projection of a user type annotation.
#[derive(Debug, Clone)]
pub struct UserTypeProjection {
    pub base: usize,
    pub projections: Vec<TypeProjection>,
}

/// One step of a type projection.
#[derive(Debug, Clone)]
pub enum TypeProjection {
    Field(usize, Ty),
    FieldProj(String, usize),
    Index(Ty),
    Subtype(Ty),
}

/// The variance of a type ascription.
#[derive(Debug, Clone, Copy, PartialEq, Eq, Structural)]
pub enum Variance {
    Covariant,
    Invariant,
    Contravariant,
    Bivariant,
}

/// Coverage instrumentation.
#[derive(Debug, Clone)]
pub struct Coverage {
    pub kind: CoverageKind,
    pub code_region: Option<String>,
}

/// The kind of a coverage instrumentation.
#[derive(Debug, Clone)]
pub enum CoverageKind {
    Counter { id: usize, region: String },
    Expression { id: usize, lhs: usize, op: BinOp, rhs: usize, region: String },
    Unreachable,
}

/// A binary operation of a coverage expression.
#[derive(Debug, Clone, Copy, PartialEq, Eq, Structural)]
pub enum BinOp {
    Add,
    Sub,
    Mul,
    Div,
    Rem,
    BitXor,
    BitAnd,
    BitOr,
    Shl,
    Shr,
    Eq,
    Lt,
    Le,
    Ne,
    Ge,
    Gt,
    Offset,
}

/// An intrinsic that returns.
#[derive(Debug, Clone)]
pub enum NonDivergingIntrinsic {
    Assume(Operand),
    CopyForDeref(Place),
}

} // verus!
