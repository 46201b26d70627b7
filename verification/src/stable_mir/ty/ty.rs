//! Types, and what a type is made of.

use vstd::prelude::*;

use crate::text::push_decimal;

verus! {

/// A type: an index into a table that the compiler owns.
#[derive(Debug, Clone, Copy, PartialEq, Eq, Structural, Hash)]
pub struct Ty {
    index: usize,
    thread_local_index: usize,
}

/// The kind of every type when no compiler session answers: the never type.
pub open spec fn kind_of(ty: Ty) -> TyKind {
    TyKind::RigidTy(RigidTy::Never)
}

impl Ty {
    /// The index of this type in its table.
    pub closed spec fn index_spec(self) -> usize {
        self.index
    }

    /// The table that this type belongs to.
    pub closed spec fn table_spec(self) -> usize {
        self.thread_local_index
    }

    /// The type at `index` of table `thread_local_index`.
    pub fn new(index: usize, thread_local_index: usize) -> (r: Self)
        ensures
            r.index_spec() == index,
            r.table_spec() == thread_local_index,
    {
        Self { index, thread_local_index }
    }

    /// The index of this type.
    pub fn index(&self) -> (r: usize)
        ensures
            r == self.index_spec(),
    {
        self.index
    }

    /// The kind of this type.
    pub fn kind(&self) -> (r: TyKind)
        ensures
            r == kind_of(*self),
    {
        TyKind::RigidTy(RigidTy::Never)
    }

    /// Whether this type is the unit type, the empty tuple.
    pub fn is_unit(&self) -> (r: bool)
        ensures
            r == (kind_of(*self) matches TyKind::RigidTy(RigidTy::Tuple(tys)) && tys@.len() == 0),
    {
        match self.kind() {
            TyKind::RigidTy(RigidTy::Tuple(tys)) => tys.len() == 0,
            _ => false,
        }
    }

    /// Whether this type is `bool`.
    pub fn is_bool(&self) -> (r: bool)
        ensures
            r == (kind_of(*self) == TyKind::RigidTy(RigidTy::Bool)),
    {
        matches!(self.kind(), TyKind::RigidTy(RigidTy::Bool))
    }

    /// Whether this type is a signed or unsigned integer.
    pub fn is_integral(&self) -> (r: bool)
        ensures
            r == (kind_of(*self) matches TyKind::RigidTy(rigid) && (rigid is Int || rigid is Uint)),
    {
        matches!(self.kind(), TyKind::RigidTy(RigidTy::Int(_)) | TyKind::RigidTy(RigidTy::Uint(_)))
    }

    /// Whether this type is a reference.
    pub fn is_ref(&self) -> (r: bool)
        ensures
            r == (kind_of(*self) matches TyKind::RigidTy(rigid) && rigid is Ref),
    {
        matches!(self.kind(), TyKind::RigidTy(RigidTy::Ref(_, _, _)))
    }

    /// Whether this type is a raw pointer.
    pub fn is_raw_ptr(&self) -> (r: bool)
        ensures
            r == (kind_of(*self) matches TyKind::RigidTy(rigid) && rigid is RawPtr),
    {
        matches!(self.kind(), TyKind::RigidTy(RigidTy::RawPtr(_, _)))
    }

    /// The text of this type as it is displayed: `Ty(` and the index in decimal, then `)`.
    pub fn display(&self) -> (r: String)
        ensures
            r@ == "Ty("@ + crate::text::decimal(self.index_spec() as nat) + ")"@,
    {
        let mut s = String::new();
        s.append("Ty(");
        push_decimal(&mut s, self.index);
        s.append(")");
        s
    }
}

/// What a compiler session knows of its types and definitions: the text of each type as
/// the session prints it, the kind of each type, and the text of each definition, all by index.
pub struct TyTable {
    pub texts: Vec<String>,
    pub kinds: Vec<TyKind>,
    pub def_texts: Vec<String>,
}

impl TyTable {
    /// The text of `ty`, empty where the table does not hold it.
    pub open spec fn text_of(&self, ty: Ty) -> Seq<char> {
        if ty.index_spec() < self.texts@.len() {
            self.texts@[ty.index_spec() as int]@
        } else {
            Seq::empty()
        }
    }

    /// The kind of `ty`, where the table holds it.
    pub open spec fn kind_in(&self, ty: Ty) -> Option<TyKind> {
        if ty.index_spec() < self.kinds@.len() {
            Some(self.kinds@[ty.index_spec() as int])
        } else {
            None
        }
    }

    /// The text of definition `def`, empty where the table does not hold it.
    pub open spec fn def_text_of(&self, def: usize) -> Seq<char> {
        if def < self.def_texts@.len() {
            self.def_texts@[def as int]@
        } else {
            Seq::empty()
        }
    }

    /// The text of `ty`.
    pub fn text(&self, ty: &Ty) -> (r: String)
        ensures
            r@ == self.text_of(*ty),
    {
        if ty.index < self.texts.len() {
            self.texts[ty.index].clone()
        } else {
            String::new()
        }
    }

    /// The kind of `ty`, where the table holds it.
    pub fn kind(&self, ty: &Ty) -> (r: Option<&TyKind>)
        ensures
            r == match self.kind_in(*ty) {
                Some(k) => Some(&k),
                None => None::<&TyKind>,
            },
    {
        if ty.index < self.kinds.len() {
            Some(&self.kinds[ty.index])
        } else {
            None
        }
    }

    /// The text of definition `def`.
    pub fn def_text(&self, def: usize) -> (r: String)
        ensures
            r@ == self.def_text_of(def),
    {
        if def < self.def_texts.len() {
            self.def_texts[def].clone()
        } else {
            String::new()
        }
    }
}

/// The kind of a type.
#[derive(Debug, Clone, PartialEq, Eq)]
pub enum TyKind {
    /// A type without inference variables.
    RigidTy(RigidTy),
    /// An alias: a projection or an opaque type.
    Alias(AliasKind, AliasTy),
    /// A generic parameter.
    Param(ParamTy),
    /// A type bound by a binder.
    Bound(usize, BoundTy),
}

/// A type without inference variables.
#[derive(Debug, Clone, PartialEq, Eq)]
pub enum RigidTy {
    Bool,
    Char,
    Int(IntTy),
    Uint(UintTy),
    Float(FloatTy),
    Adt(AdtDef, GenericArgs),
    Foreign(ForeignDef),
    Str,
    Array(Ty, TyConst),
    Pat(Ty, PatTy),
    Slice(Ty),
    RawPtr(Ty, Mutability),
    Ref(Region, Ty, Mutability),
    FnDef(FnDef, GenericArgs),
    FnPtr(PolyFnSig),
    Closure(ClosureDef, GenericArgs),
    Coroutine(CoroutineDef, GenericArgs),
    CoroutineClosure(CoroutineClosureDef, GenericArgs),
    Dynamic(Vec<BoundExistentialPredicate>, Region),
    Never,
    Tuple(Vec<Ty>),
    CoroutineWitness(CoroutineWitnessDef, GenericArgs),
}

/// Signed integer types.
#[derive(Debug, Clone, Copy, PartialEq, Eq, Structural, Hash)]
pub enum IntTy {
    I8,
    I16,
    I32,
    I64,
    I128,
    Isize,
}

/// Unsigned integer types.
#[derive(Debug, Clone, Copy, PartialEq, Eq, Structural, Hash)]
pub enum UintTy {
    U8,
    U16,
    U32,
    U64,
    U128,
    Usize,
}

/// Floating-point types, by width.
#[derive(Debug, Clone, Copy, PartialEq, Eq, Structural, Hash)]
pub enum FloatTy {
    F32,
    F64,
}

/// Whether a reference or pointer allows writes.
#[derive(Debug, Clone, Copy, PartialEq, Eq, Structural, Hash)]
pub enum Mutability {
    Mut,
    Not,
}

/// Whether a coroutine may move.
#[derive(Debug, Clone, Copy, PartialEq, Eq, Structural, Hash)]
pub enum Movability {
    Static,
    Movable,
}

/// A generic type parameter.
#[derive(Debug, Clone, PartialEq, Eq, Hash)]
pub struct ParamTy {
    pub index: u32,
    pub name: String,
}

/// A type bound by a binder.
#[derive(Debug, Clone, PartialEq, Eq, Hash)]
pub struct BoundTy {
    pub var: BoundVar,
    pub kind: BoundTyKind,
}

/// A bound variable.
#[derive(Debug, Clone, Copy, PartialEq, Eq, Structural, Hash)]
pub struct BoundVar {
    pub index: usize,
}

/// The kind of a bound type.
#[derive(Debug, Clone, Copy, PartialEq, Eq, Structural, Hash)]
pub enum BoundTyKind {
    Anon,
    Named(DefId),
}

/// Opaque identifier of a definition.
pub type DefId = usize;

/// A constant in a type, such as an array length.
#[derive(Debug, Clone, PartialEq, Eq)]
pub struct TyConst {
    pub inner: String,
}

/// A pattern type.
#[derive(Debug, Clone, PartialEq, Eq)]
pub struct PatTy {
    pub inner: String,
}

/// The types that instantiate a generic item.
pub type GenericArgs = Vec<Ty>;

/// A lifetime.
#[derive(Debug, Clone, PartialEq, Eq, Structural, Hash)]
pub enum Region {
    Erased,
}

/// The kind of a lifetime.
#[derive(Debug, Clone, PartialEq, Eq, Hash)]
pub enum RegionKind {
    ReErased,
    ReStatic,
    ReLateBound(usize, BoundRegion),
    ReEarlyBound(EarlyBoundRegion),
    ReFree(FreeRegion),
    RePlaceholder(Placeholder),
}

/// A lifetime bound by a binder.
#[derive(Debug, Clone, PartialEq, Eq, Hash)]
pub struct BoundRegion {
    pub var: BoundRegionKind,
    pub name: String,
}

/// The kind of a bound lifetime.
#[derive(Debug, Clone, Copy, PartialEq, Eq, Structural, Hash)]
pub enum BoundRegionKind {
    BrAnon,
    BrNamed(DefId),
    BrEnv,
}

/// A lifetime parameter of a generic item.
#[derive(Debug, Clone, PartialEq, Eq, Hash)]
pub struct EarlyBoundRegion {
    pub def_id: DefId,
    pub index: u32,
    pub name: String,
}

/// A free lifetime.
#[derive(Debug, Clone, Copy, PartialEq, Eq, Structural, Hash)]
pub enum FreeRegion {
    FrRegion,
    FrLateBound(usize, BoundRegionKind),
}

/// A placeholder lifetime.
#[derive(Debug, Clone, PartialEq, Eq, Structural, Hash)]
pub struct Placeholder {
    pub universe: usize,
    pub bound: BoundRegionKind,
}

pub type AdtDef = usize;

pub type ForeignDef = usize;

pub type FnDef = usize;

pub type ClosureDef = usize;

pub type CoroutineDef = usize;

pub type CoroutineClosureDef = usize;

pub type CoroutineWitnessDef = usize;

/// The kind of an alias.
#[derive(Debug, Clone, Copy, PartialEq, Eq, Structural, Hash)]
pub enum AliasKind {
    Projection,
    Opaque,
    Weak,
}

/// An alias: an associated type of a trait or an opaque type.
#[derive(Debug, Clone, PartialEq, Eq)]
pub struct AliasTy {
    pub args: GenericArgs,
    pub def_id: DefId,
}

/// A predicate of a trait object.
#[derive(Debug, Clone, PartialEq, Eq, Structural)]
pub enum BoundExistentialPredicate {
    Trait(ExistentialTraitRef),
    AutoTrait(DefId),
    Projection(ExistentialProjection),
}

pub type ExistentialTraitRef = usize;

pub type ExistentialProjection = usize;

/// The signature of a function.
#[derive(Debug, Clone, PartialEq, Eq)]
pub struct FnSig {
    pub inputs: Vec<Ty>,
    pub output: Ty,
    pub c_variadic: bool,
}

/// A function signature under binders.
#[derive(Debug, Clone, PartialEq, Eq)]
pub struct PolyFnSig {
    pub sig: FnSig,
}

/// A calling convention.
#[derive(Debug, Clone, Copy, PartialEq, Eq, Structural, Hash)]
pub enum Abi {
    Rust,
    C,
    Cdecl,
    Stdcall,
    Fastcall,
    Vectorcall,
    Aapcs,
    Win64,
    SysV64,
    PtxKernel,
    Msp430Interrupt,
    X86Interrupt,
    AmdGpuKernel,
    EfiApi,
    AvrInterrupt,
    AvrNonBlockingInterrupt,
    CCmseNonSecureCall,
    CCmseNonSecureEntry,
    System,
    RustIntrinsic,
    RustCall,
    PlatformIntrinsic,
    Unadjusted,
    ThisCall,
    RustCold,
    RiscvInterruptM,
    RustColdReclaim,
}

/// Where a coroutine comes from.
#[derive(Debug, Clone, Copy, PartialEq, Eq, Structural, Hash)]
pub enum CoroutineKind {
    /// From `async` or `async move`.
    Async(AsyncKind),
    /// From `gen` or `gen move`.
    Gen,
    /// From a closure that yields.
    CoroutineClosure,
}

/// Where an async coroutine comes from.
#[derive(Debug, Clone, Copy, PartialEq, Eq, Structural, Hash)]
pub enum AsyncKind {
    /// An async block.
    Block,
    /// An async closure.
    Closure,
    /// An async function.
    Fn,
}

} // verus!
