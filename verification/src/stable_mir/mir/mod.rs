//! Function bodies: blocks, statements, terminators and the values they use.

pub mod body;
pub mod mono;
pub mod operand;
pub mod place;
pub mod rvalue;
pub mod statement;
pub mod terminator;
pub mod visit;

pub use body::{BasicBlock, BasicBlockIdx, Body, Local, LocalDecl, LocalDecls, VarDebugInfo, RETURN_LOCAL};
pub use mono::{Instance, MonoItem, StaticDef};
pub use operand::{ConstOperand, Operand};
pub use place::{FieldIdx, Place, ProjectionElem, TyConst};
pub use rvalue::{AggregateKind, BinOp, BorrowKind, CastKind, RawPtrKind, Rvalue, UnOp};
pub use statement::{Coverage, FakeReadCause, NonDivergingIntrinsic, RetagKind, Statement, StatementKind};
pub use terminator::{AssertMessage, SwitchTargets, Terminator, TerminatorKind, UnwindAction};
