//! The body of a function.

use vstd::prelude::*;

use crate::stable_mir::crate_def::Span;
use crate::stable_mir::mir::{Statement, Terminator};
use crate::stable_mir::ty::{Mutability, Ty};

verus! {

/// Index of a basic block in a body.
pub type BasicBlockIdx = usize;

/// Index of a local variable.
pub type Local = usize;

/// The local that holds the return value.
pub const RETURN_LOCAL: Local = 0;

/// Statements that run in order, then a terminator.
#[derive(Debug, Clone)]
pub struct BasicBlock {
    pub statements: Vec<Statement>,
    pub terminator: Terminator,
}

/// The body of one function.
///
/// Its locals are laid out as the compiler lays them out: the return value at index 0,
/// then the arguments, then the temporaries and user variables.
#[derive(Debug, Clone)]
pub struct Body {
    /// The basic blocks.
    pub blocks: Vec<BasicBlock>,
    locals: LocalDecls,
    arg_count: usize,
    /// Where the user's variables live.
    pub var_debug_info: Vec<VarDebugInfo>,
    spread_arg: Option<Local>,
    /// The span of the function.
    pub span: Span,
}

impl Body {
    /// The basic blocks.
    pub closed spec fn blocks_spec(&self) -> Seq<BasicBlock> {
        self.blocks@
    }

    /// Where the user's variables live.
    pub closed spec fn var_debug_info_spec(&self) -> Seq<VarDebugInfo> {
        self.var_debug_info@
    }

    /// The span of the function.
    pub closed spec fn span_spec(&self) -> Span {
        self.span
    }

    /// The declarations of all locals, return value first.
    pub closed spec fn locals_spec(&self) -> Seq<LocalDecl> {
        self.locals.raw@
    }

    /// The number of arguments.
    pub closed spec fn arg_count_spec(&self) -> usize {
        self.arg_count
    }

    /// The local that receives a spread argument, if any.
    pub closed spec fn spread_arg_spec(&self) -> Option<Local> {
        self.spread_arg
    }

    /// The locals hold the return value and every argument.
    pub open spec fn wf(&self) -> bool {
        self.arg_count_spec() < self.locals_spec().len()
    }

    /// A body with these blocks, locals and arguments.
    pub fn new(
        blocks: Vec<BasicBlock>,
        locals: Vec<LocalDecl>,
        arg_count: usize,
        var_debug_info: Vec<VarDebugInfo>,
        spread_arg: Option<Local>,
        span: Span,
    ) -> (r: Self)
        ensures
            r.blocks_spec() == blocks@,
            r.locals_spec() == locals@,
            r.arg_count_spec() == arg_count,
            r.var_debug_info_spec() == var_debug_info@,
            r.spread_arg_spec() == spread_arg,
            r.span_spec() == span,
    {
        Body { blocks, locals: LocalDecls { raw: locals }, arg_count, var_debug_info, spread_arg, span }
    }

    /// The basic blocks.
    pub fn basic_blocks(&self) -> (r: &Vec<BasicBlock>)
        ensures
            r@ == self.blocks_spec(),
    {
        &self.blocks
    }

    /// The local of the return value, always 0.
    pub fn ret_local(&self) -> (r: Local)
        ensures
            r == RETURN_LOCAL,
    {
        RETURN_LOCAL
    }

    /// The declarations of the arguments: locals 1 to `arg_count`.
    pub fn arg_locals(&self) -> (r: &[LocalDecl])
        requires
            self.wf(),
        ensures
            r@ == self.locals_spec().subrange(1, self.arg_count_spec() + 1),
    {
        let n = self.locals.raw.len();
        vstd::slice::slice_subrange(self.locals.raw.as_slice(), 1, self.arg_count + 1)
    }

    /// The declarations of the temporaries and user variables: the locals after the arguments.
    pub fn inner_locals(&self) -> (r: &[LocalDecl])
        requires
            self.wf(),
        ensures
            r@ == self.locals_spec().subrange(self.arg_count_spec() + 1, self.locals_spec().len() as int),
    {
        let n = self.locals.raw.len();
        vstd::slice::slice_subrange(self.locals.raw.as_slice(), self.arg_count + 1, n)
    }

    /// The declaration of `local`.
    pub fn local_decl(&self, local: Local) -> (r: &LocalDecl)
        requires
            local < self.locals_spec().len(),
        ensures
            *r == self.locals_spec()[local as int],
    {
        &self.locals.raw[local]
    }

    /// The declarations of all locals.
    pub fn locals(&self) -> (r: &[LocalDecl])
        ensures
            r@ == self.locals_spec(),
    {
        self.locals.raw.as_slice()
    }

    /// The number of locals.
    pub fn local_count(&self) -> (r: usize)
        ensures
            r == self.locals_spec().len(),
    {
        self.locals.raw.len()
    }

    /// The number of arguments.
    pub fn arg_count(&self) -> (r: usize)
        ensures
            r == self.arg_count_spec(),
    {
        self.arg_count
    }

    /// The local that receives a spread argument, if any.
    pub fn spread_arg(&self) -> (r: Option<Local>)
        ensures
            r == self.spread_arg_spec(),
    {
        self.spread_arg
    }
}

/// The declarations of a body's locals.
#[derive(Debug, Clone)]
pub struct LocalDecls {
    raw: Vec<LocalDecl>,
}

/// The declaration of a local variable.
#[derive(Debug, Clone)]
pub struct LocalDecl {
    /// Its type.
    pub ty: Ty,
    /// Where it is declared.
    pub span: Span,
    /// Whether it can be written.
    pub mutability: Mutability,
}

/// A user variable and the local that holds it.
#[derive(Debug, Clone)]
pub struct VarDebugInfo {
    /// The variable's name.
    pub name: String,
    /// Where it is declared.
    pub source_info: Span,
    /// The local that holds it.
    pub local: Local,
}

} // verus!
