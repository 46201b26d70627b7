//! The program representation that the detectors read: the items of a crate,
//! each function's locals and basic blocks, and the names of declarations.
//!
//! Types are hash-consed: two types are the same exactly when their `id`s agree.

use vstd::prelude::*;

verus! {

pub type FunDeclId = usize;

pub type TypeDeclId = usize;

pub type LocalId = usize;

pub type BlockId = usize;

/// The block where every body starts.
pub const START_BLOCK_ID: BlockId = 0;

/// A source span.
#[derive(Clone, Copy, Debug, PartialEq, Eq, Structural)]
pub struct Span {
    pub file_id: usize,
    pub beg_line: usize,
    pub beg_col: usize,
    pub end_line: usize,
    pub end_col: usize,
}

/// Primitive value types.
#[derive(Clone, Copy, Debug, PartialEq, Eq, Structural)]
pub enum LiteralTy {
    Bool,
    Char,
    Int,
    UInt,
    Float,
}

/// What a type is applied to when it is an algebraic data type.
#[derive(Clone, Copy, Debug, PartialEq, Eq, Structural)]
pub enum TypeId {
    Adt(TypeDeclId),
    Tuple,
    Builtin,
}

/// The shape of a type.
#[derive(Debug)]
pub enum TyKind {
    Adt(TypeId),
    Literal(LiteralTy),
    Ref(Box<Ty>),
    RawPtr(Box<Ty>),
    Other,
}

/// A type; `id` identifies it among all types of the crate.
#[derive(Debug)]
pub struct Ty {
    pub id: usize,
    pub kind: TyKind,
}

/// One segment of a path.
#[derive(Debug)]
pub enum PathElem {
    Ident(String),
    Impl,
    /// The type arguments that an item was instantiated with.
    Instantiated(Vec<Ty>),
}

/// The path of a declaration.
#[derive(Debug)]
pub struct Name {
    pub name: Vec<PathElem>,
}

/// A step from a place into a part of it.
#[derive(Clone, Copy, Debug, PartialEq, Eq, Structural)]
pub enum ProjectionElem {
    Deref,
    /// A field: the identity of the container kind, and the field's index.
    Field(usize, usize),
    /// Any other projection, by identity.
    Other(usize),
}

#[derive(Debug)]
pub enum PlaceKind {
    Local(LocalId),
    Projection(Box<Place>, ProjectionElem),
    Global(usize),
}

/// A memory location.
#[derive(Debug)]
pub struct Place {
    pub kind: PlaceKind,
    pub ty: Ty,
}

#[derive(Debug)]
pub enum Operand {
    Copy(Place),
    Move(Place),
    Const(Ty),
}

#[derive(Debug)]
pub enum Rvalue {
    Use(Operand),
    Ref(Place),
    RawPtr(Place),
    BinaryOp(Operand, Operand),
    UnaryOp(Operand),
    Aggregate(Vec<Operand>),
    Discriminant(Place),
    Len(Place),
    NullaryOp,
    Repeat(Operand),
    ShallowInitBox(Operand),
}

#[derive(Debug)]
pub enum StatementKind {
    Assign(Place, Rvalue),
    StorageDead(LocalId),
    Other,
}

#[derive(Debug)]
pub struct Statement {
    pub kind: StatementKind,
    pub span: Span,
}

/// The function that a call invokes.
#[derive(Debug)]
pub enum FnOperand {
    /// A function of the crate, by its declaration.
    Fun(FunDeclId),
    /// A statically known callee that is not a declared function (a builtin).
    OtherFn,
    /// A call through a function pointer.
    Dynamic,
}

#[derive(Debug)]
pub struct Call {
    pub func: FnOperand,
    pub args: Vec<Operand>,
    pub dest: Place,
}

#[derive(Debug)]
pub enum SwitchTargets {
    If(BlockId, BlockId),
    SwitchInt(Vec<BlockId>, BlockId),
}

#[derive(Debug)]
pub enum TerminatorKind {
    Goto { target: BlockId },
    Switch { discr: Operand, targets: SwitchTargets },
    Call { call: Call, target: BlockId, on_unwind: BlockId },
    Drop { place: Place, target: BlockId, on_unwind: BlockId },
    Assert { target: BlockId, on_unwind: BlockId },
    Return,
    Abort,
    UnwindResume,
}

#[derive(Debug)]
pub struct Terminator {
    pub kind: TerminatorKind,
    pub span: Span,
}

#[derive(Debug)]
pub struct BlockData {
    pub statements: Vec<Statement>,
    pub terminator: Terminator,
}

#[derive(Debug)]
pub struct LocalDecl {
    pub ty: Ty,
    pub span: Span,
}

/// The body of a function: its locals and its basic blocks.
#[derive(Debug)]
pub struct ExprBody {
    pub locals: Vec<LocalDecl>,
    pub body: Vec<BlockData>,
}

#[derive(Debug)]
pub struct FunDecl {
    pub name: Name,
    /// Declared in the crate under analysis.
    pub is_local: bool,
    /// The unstructured body, where the function has one.
    pub body: Option<ExprBody>,
}

#[derive(Debug)]
pub struct TypeDecl {
    pub name: Name,
}

/// All declarations of a crate, indexed by their ids; a hole is `None`.
#[derive(Debug)]
pub struct TranslatedCrate {
    pub fun_decls: Vec<Option<FunDecl>>,
    pub type_decls: Vec<Option<TypeDecl>>,
    /// The printed form of each type, indexed by the type's id.
    pub ty_texts: Vec<String>,
}

// ---------------------------------------------------------------------------
// Successors and well-formedness
// ---------------------------------------------------------------------------

/// The blocks that control may pass to after a terminator, in order.
pub open spec fn successors(k: TerminatorKind) -> Seq<BlockId> {
    match k {
        TerminatorKind::Goto { target } => seq![target],
        TerminatorKind::Switch { targets, .. } => match targets {
            SwitchTargets::If(t1, t2) => seq![t1, t2],
            SwitchTargets::SwitchInt(vals, default) => vals@.push(default),
        },
        TerminatorKind::Call { target, on_unwind, .. } => seq![target, on_unwind],
        TerminatorKind::Drop { target, on_unwind, .. } => seq![target, on_unwind],
        TerminatorKind::Assert { target, on_unwind } => seq![target, on_unwind],
        _ => Seq::empty(),
    }
}

/// The successors of a terminator.
pub fn terminator_successors(term: &TerminatorKind) -> (r: Vec<BlockId>)
    ensures
        r@ == successors(*term),
{
    match term {
        TerminatorKind::Goto { target } => vec![*target],
        TerminatorKind::Switch { targets, .. } => match targets {
            SwitchTargets::If(t1, t2) => vec![*t1, *t2],
            SwitchTargets::SwitchInt(vals, default) => {
                let mut v: Vec<BlockId> = Vec::new();
                let mut i: usize = 0;
                while i < vals.len()
                    invariant
                        i <= vals@.len(),
                        v@ == vals@.subrange(0, i as int),
                    decreases vals@.len() - i,
                {
                    v.push(vals[i]);
                    i = i + 1;
                    assert(v@ =~= vals@.subrange(0, i as int));
                }
                assert(v@ =~= vals@);
                v.push(*default);
                v
            },
        },
        TerminatorKind::Call { target, on_unwind, .. } => vec![*target, *on_unwind],
        TerminatorKind::Drop { target, on_unwind, .. } => vec![*target, *on_unwind],
        TerminatorKind::Assert { target, on_unwind } => vec![*target, *on_unwind],
        TerminatorKind::Return => Vec::new(),
        TerminatorKind::Abort => Vec::new(),
        TerminatorKind::UnwindResume => Vec::new(),
    }
}

impl ExprBody {
    /// The body has a start block and every jump lands on one of its blocks.
    pub open spec fn wf(&self) -> bool {
        &&& self.body@.len() > 0
        &&& forall|b: int, k: int|
            0 <= b < self.body@.len() && 0 <= k < successors(self.body@[b].terminator.kind).len()
                ==> #[trigger] successors(self.body@[b].terminator.kind)[k] < self.body@.len()
    }

    /// Whether the body has a start block and every jump lands on one of its blocks.
    pub fn check_wf(&self) -> (r: bool)
        ensures
            r == self.wf(),
    {
        if self.body.len() == 0 {
            return false;
        }
        let n = self.body.len();
        let mut b: usize = 0;
        while b < n
            invariant
                n == self.body@.len(),
                n > 0,
                b <= n,
                forall|bb: int, k: int|
                    0 <= bb < b && 0 <= k < successors(self.body@[bb].terminator.kind).len()
                        ==> #[trigger] successors(self.body@[bb].terminator.kind)[k] < n,
            decreases n - b,
        {
            let succs = terminator_successors(&self.body[b].terminator.kind);
            let mut k: usize = 0;
            while k < succs.len()
                invariant
                    n == self.body@.len(),
                    b < n,
                    succs@ == successors(self.body@[b as int].terminator.kind),
                    k <= succs@.len(),
                    forall|j: int| 0 <= j < k ==> #[trigger] succs@[j] < n,
                decreases succs@.len() - k,
            {
                if succs[k] >= n {
                    return false;
                }
                k = k + 1;
            }
            b = b + 1;
        }
        true
    }

    /// A location of this body: a statement of a block, or its terminator
    /// (statement index equal to the number of statements).
    pub open spec fn valid_loc(&self, block: int, statement_index: int) -> bool {
        &&& 0 <= block < self.body@.len()
        &&& 0 <= statement_index <= self.body@[block].statements@.len()
    }
}

impl TranslatedCrate {
    /// Every function body of the crate is well formed.
    pub open spec fn wf(&self) -> bool {
        forall|f: int|
            0 <= f < self.fun_decls@.len() && (#[trigger] self.fun_decls@[f]) is Some
                && self.fun_decls@[f]->0.body is Some ==> self.fun_decls@[f]->0.body->0.wf()
    }

    /// Whether every function body of the crate is well formed.
    pub fn check_wf(&self) -> (r: bool)
        ensures
            r == self.wf(),
    {
        let mut f: usize = 0;
        while f < self.fun_decls.len()
            invariant
                f <= self.fun_decls@.len(),
                forall|g: int|
                    0 <= g < f && (#[trigger] self.fun_decls@[g]) is Some && self.fun_decls@[g]->0.body is Some
                        ==> self.fun_decls@[g]->0.body->0.wf(),
            decreases self.fun_decls@.len() - f,
        {
            match &self.fun_decls[f] {
                Some(d) => match &d.body {
                    Some(b) => {
                        if !b.check_wf() {
                            assert(!self.wf()) by {
                                assert(self.fun_decls@[f as int] is Some);
                            }
                            return false;
                        }
                    },
                    None => {},
                },
                None => {},
            }
            f = f + 1;
        }
        true
    }

    /// The body of function `f`, where `f` is declared and has one.
    pub open spec fn body_of(&self, f: int) -> Option<ExprBody> {
        if 0 <= f < self.fun_decls@.len() && self.fun_decls@[f] is Some {
            self.fun_decls@[f]->0.body
        } else {
            None
        }
    }

    /// The declaration of type `t`, where there is one.
    pub open spec fn type_decl(&self, t: int) -> Option<TypeDecl> {
        if 0 <= t < self.type_decls@.len() {
            self.type_decls@[t]
        } else {
            None
        }
    }

    /// The declaration of function `f`, where there is one.
    pub open spec fn fun_decl(&self, f: int) -> Option<FunDecl> {
        if 0 <= f < self.fun_decls@.len() {
            self.fun_decls@[f]
        } else {
            None
        }
    }
}

// ---------------------------------------------------------------------------
// Places
// ---------------------------------------------------------------------------

/// The local at the base of a place, if the place is not a global.
pub open spec fn base_local(p: Place) -> Option<LocalId>
    decreases p,
{
    match p.kind {
        PlaceKind::Local(l) => Some(l),
        PlaceKind::Projection(inner, _) => base_local(*inner),
        PlaceKind::Global(_) => None,
    }
}

impl Place {
    /// The local at the base of this place.
    pub fn local_id(&self) -> (r: Option<LocalId>)
        ensures
            r == base_local(*self),
        decreases self,
    {
        match &self.kind {
            PlaceKind::Local(l) => Some(*l),
            PlaceKind::Projection(inner, _) => inner.local_id(),
            PlaceKind::Global(_) => None,
        }
    }

    /// The type of this place.
    pub fn ty(&self) -> (r: &Ty)
        ensures
            *r == self.ty,
    {
        &self.ty
    }
}

/// Two types are the same type.
pub open spec fn same_ty(a: Ty, b: Ty) -> bool {
    a.id == b.id
}

/// Two places are the same place: same shape, same locals and projections, same types.
pub open spec fn same_place(a: Place, b: Place) -> bool
    decreases a,
{
    &&& same_ty(a.ty, b.ty)
    &&& match (a.kind, b.kind) {
        (PlaceKind::Local(x), PlaceKind::Local(y)) => x == y,
        (PlaceKind::Global(x), PlaceKind::Global(y)) => x == y,
        (PlaceKind::Projection(ia, ea), PlaceKind::Projection(ib, eb)) => ea == eb && same_place(
            *ia,
            *ib,
        ),
        _ => false,
    }
}

/// Whether two places are the same place.
pub fn place_eq(a: &Place, b: &Place) -> (r: bool)
    ensures
        r == same_place(*a, *b),
    decreases a,
{
    if a.ty.id != b.ty.id {
        return false;
    }
    match (&a.kind, &b.kind) {
        (PlaceKind::Local(x), PlaceKind::Local(y)) => *x == *y,
        (PlaceKind::Global(x), PlaceKind::Global(y)) => *x == *y,
        (PlaceKind::Projection(ia, ea), PlaceKind::Projection(ib, eb)) => {
            if *ea != *eb {
                false
            } else {
                place_eq(ia, ib)
            }
        },
        _ => false,
    }
}

/// A copy of a type.
pub fn copy_ty(t: &Ty) -> (r: Ty)
    ensures
        r == *t,
    decreases t,
{
    let kind = match &t.kind {
        TyKind::Adt(id) => TyKind::Adt(*id),
        TyKind::Literal(l) => TyKind::Literal(*l),
        TyKind::Ref(inner) => TyKind::Ref(Box::new(copy_ty(inner))),
        TyKind::RawPtr(inner) => TyKind::RawPtr(Box::new(copy_ty(inner))),
        TyKind::Other => TyKind::Other,
    };
    Ty { id: t.id, kind }
}

/// A copy of a place.
pub fn copy_place(p: &Place) -> (r: Place)
    ensures
        r == *p,
    decreases p,
{
    let kind = match &p.kind {
        PlaceKind::Local(l) => PlaceKind::Local(*l),
        PlaceKind::Projection(inner, e) => PlaceKind::Projection(Box::new(copy_place(inner)), *e),
        PlaceKind::Global(g) => PlaceKind::Global(*g),
    };
    Place { kind, ty: copy_ty(&p.ty) }
}

/// A copy of an operand.
pub fn copy_operand(o: &Operand) -> (r: Operand)
    ensures
        r == *o,
{
    match o {
        Operand::Copy(p) => Operand::Copy(copy_place(p)),
        Operand::Move(p) => Operand::Move(copy_place(p)),
        Operand::Const(t) => Operand::Const(copy_ty(t)),
    }
}

/// The place an operand reads, if it reads one.
pub open spec fn operand_place(o: Operand) -> Option<Place> {
    match o {
        Operand::Copy(p) => Some(p),
        Operand::Move(p) => Some(p),
        Operand::Const(_) => None,
    }
}

/// The local at the base of what an operand reads.
pub open spec fn operand_local_spec(o: Operand) -> Option<LocalId> {
    match o {
        Operand::Copy(p) => base_local(p),
        Operand::Move(p) => base_local(p),
        Operand::Const(_) => None,
    }
}

/// The local at the base of what an operand reads.
pub fn operand_local(op: &Operand) -> (r: Option<LocalId>)
    ensures
        r == operand_local_spec(*op),
{
    match op {
        Operand::Copy(place) => place.local_id(),
        Operand::Move(place) => place.local_id(),
        Operand::Const(_) => None,
    }
}

} // verus!
