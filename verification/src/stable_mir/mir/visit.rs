//! Walking a body.

use vstd::prelude::*;

use crate::stable_mir::mir::{BasicBlock, Body, Local, Operand, Place, Rvalue, Statement, Terminator};

verus! {

/// A walk over a body; each method is called on the part it names and does nothing by default.
pub trait MirVisitor {
    fn visit_body(&mut self, body: &Body) {
    }

    fn visit_body_post(&mut self, body: &Body) {
    }

    fn visit_basic_block(&mut self, bb: &BasicBlock) {
    }

    fn visit_statement(&mut self, stmt: &Statement) {
    }

    fn visit_terminator(&mut self, term: &Terminator) {
    }

    fn visit_place(&mut self, place: &Place, context: PlaceContext) {
    }

    fn visit_local(&mut self, local: Local, context: PlaceContext) {
    }

    fn visit_operand(&mut self, operand: &Operand, location: Location) {
    }

    fn visit_rvalue(&mut self, rvalue: &Rvalue, location: Location) {
    }
}

/// How a place is used.
#[derive(Debug, Clone, Copy, PartialEq, Eq, Structural)]
pub enum PlaceContext {
    NonMutatingUse(NonMutatingUseContext),
    MutatingUse(MutatingUseContext),
    Saving,
    DebugUse,
}

/// A use that does not write.
#[derive(Debug, Clone, Copy, PartialEq, Eq, Structural)]
pub enum NonMutatingUseContext {
    Inspect,
    Copy,
    Move,
    Borrow,
    AddressOf,
    Compare,
    Drop,
    Projection,
    Guard,
}

/// A use that writes.
#[derive(Debug, Clone, Copy, PartialEq, Eq, Structural)]
pub enum MutatingUseContext {
    Store,
    SetDiscriminant,
    Projection,
    Call,
    Terminate,
    Yield,
    AssembleUserType,
    FakeRead,
    Retag,
}

/// A point of a body: a block and a statement index in it.
#[derive(Debug, Clone, Copy, PartialEq, Eq, Structural, Hash)]
pub struct Location {
    pub block: usize,
    pub statement_index: usize,
}

impl Location {
    /// Statement `statement_index` of block `block`.
    pub fn new(block: usize, statement_index: usize) -> (r: Self)
        ensures
            r == (Location { block, statement_index }),
    {
        Self { block, statement_index }
    }

    /// The start of block `block`.
    pub fn start(block: usize) -> (r: Self)
        ensures
            r == (Location { block, statement_index: 0 }),
    {
        Self { block, statement_index: 0 }
    }
}

} // verus!
