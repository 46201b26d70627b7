//! Handles to the items of a crate.
//!
//! A handle is an index into tables that the compiler owns. Without a compiler session
//! behind it, a handle answers every query with an empty result: no name, no body,
//! no generic arguments.

use vstd::prelude::*;

use crate::stable_mir::mir::Body;
use crate::stable_mir::ty::{GenericArgs, Ty};

verus! {

/// Opaque identifier of any definition.
pub type DefId = usize;

/// A handle to any definition of a crate.
#[derive(Debug, Clone, Copy, PartialEq, Eq, Structural, Hash)]
pub struct CrateDef {
    pub def_id: DefId,
}

impl CrateDef {
    /// The name of this definition: empty without a compiler session.
    pub fn name(&self) -> (r: String)
        ensures
            r@ == Seq::<char>::empty(),
    {
        String::new()
    }

    /// The crate that holds this definition: the local crate, index 0.
    pub fn krate(&self) -> (r: Crate)
        ensures
            r == (Crate { index: 0 }),
    {
        Crate { index: 0 }
    }
}

/// An item of a crate, named and with a definition id.
#[derive(Debug, Clone, Copy, PartialEq, Eq, Structural, Hash)]
pub struct CrateItem {
    pub def_id: DefId,
}

impl CrateItem {
    /// The kind of this item: a function unless a session says otherwise.
    pub fn kind(&self) -> (r: ItemKind)
        ensures
            r == ItemKind::Fn,
    {
        ItemKind::Fn
    }

    /// The name of this item: empty without a compiler session.
    pub fn name(&self) -> (r: String)
        ensures
            r@ == Seq::<char>::empty(),
    {
        String::new()
    }

    /// The body of this item: none without a compiler session.
    pub fn body(&self) -> (r: Option<Body>)
        ensures
            r is None,
    {
        None
    }
}

/// The kind of an item.
#[derive(Debug, Clone, Copy, PartialEq, Eq, Structural)]
pub enum ItemKind {
    /// A function.
    Fn,
    /// A static variable.
    Static,
    /// A constant.
    Const,
    /// A constructor of a tuple struct or an enum variant.
    Ctor(CtorKind),
    /// Anything else.
    Other,
}

/// The kind of a constructor.
#[derive(Debug, Clone, Copy, PartialEq, Eq, Structural)]
pub enum CtorKind {
    /// A struct constructor.
    Struct,
    /// An enum variant constructor.
    EnumVariant,
}

/// A function definition.
#[derive(Debug, Clone, Copy, PartialEq, Eq, Structural, Hash)]
pub struct FnDef {
    pub def_id: DefId,
}

impl FnDef {
    /// The name of this function: empty without a compiler session.
    pub fn name(&self) -> (r: String)
        ensures
            r@ == Seq::<char>::empty(),
    {
        String::new()
    }

    /// The generic arguments of this function: none without a compiler session.
    pub fn generic_args(&self) -> (r: GenericArgs)
        ensures
            r@ == Seq::<Ty>::empty(),
    {
        Vec::new()
    }
}

/// A closure definition.
#[derive(Debug, Clone, Copy, PartialEq, Eq, Structural, Hash)]
pub struct ClosureDef {
    pub def_id: DefId,
}

/// A coroutine definition.
#[derive(Debug, Clone, Copy, PartialEq, Eq, Structural, Hash)]
pub struct CoroutineDef {
    pub def_id: DefId,
}

/// A coroutine-closure definition.
#[derive(Debug, Clone, Copy, PartialEq, Eq, Structural, Hash)]
pub struct CoroutineClosureDef {
    pub def_id: DefId,
}

/// An algebraic data type: a struct, an enum or a union.
#[derive(Debug, Clone, Copy, PartialEq, Eq, Structural, Hash)]
pub struct AdtDef {
    pub def_id: DefId,
}

impl AdtDef {
    /// The name of this type: empty without a compiler session.
    pub fn name(&self) -> (r: String)
        ensures
            r@ == Seq::<char>::empty(),
    {
        String::new()
    }

    /// The kind of this type: a struct unless a session says otherwise.
    pub fn kind(&self) -> (r: AdtKind)
        ensures
            r == AdtKind::Struct,
    {
        AdtKind::Struct
    }

    /// The generic arguments of this type: none without a compiler session.
    pub fn generic_args(&self) -> (r: GenericArgs)
        ensures
            r@ == Seq::<Ty>::empty(),
    {
        Vec::new()
    }
}

/// A struct definition.
#[derive(Debug, Clone, Copy, PartialEq, Eq, Structural, Hash)]
pub struct StructDef {
    pub def_id: DefId,
}

/// An enum definition.
#[derive(Debug, Clone, Copy, PartialEq, Eq, Structural, Hash)]
pub struct EnumDef {
    pub def_id: DefId,
}

/// A union definition.
#[derive(Debug, Clone, Copy, PartialEq, Eq, Structural, Hash)]
pub struct UnionDef {
    pub def_id: DefId,
}

/// The kind of an algebraic data type.
#[derive(Debug, Clone, Copy, PartialEq, Eq, Structural)]
pub enum AdtKind {
    Struct,
    Enum,
    Union,
}

/// A foreign type definition.
#[derive(Debug, Clone, Copy, PartialEq, Eq, Structural, Hash)]
pub struct ForeignDef {
    pub def_id: DefId,
}

/// A trait definition.
#[derive(Debug, Clone, Copy, PartialEq, Eq, Structural, Hash)]
pub struct TraitDef {
    pub def_id: DefId,
}

impl TraitDef {
    /// The name of this trait: empty without a compiler session.
    pub fn name(&self) -> (r: String)
        ensures
            r@ == Seq::<char>::empty(),
    {
        String::new()
    }
}

/// A trait implementation.
#[derive(Debug, Clone, Copy, PartialEq, Eq, Structural, Hash)]
pub struct TraitImplDef {
    pub def_id: DefId,
}

/// A constant definition.
#[derive(Debug, Clone, Copy, PartialEq, Eq, Structural, Hash)]
pub struct ConstDef {
    pub def_id: DefId,
}

/// A static variable definition.
#[derive(Debug, Clone, Copy, PartialEq, Eq, Structural, Hash)]
pub struct StaticDef {
    pub def_id: DefId,
}

/// A crate.
#[derive(Debug, Clone, Copy, PartialEq, Eq, Structural, Hash)]
pub struct Crate {
    pub index: usize,
}

impl Crate {
    /// The name of this crate: empty without a compiler session.
    pub fn name(&self) -> (r: String)
        ensures
            r@ == Seq::<char>::empty(),
    {
        String::new()
    }

    /// The function definitions of this crate: none without a compiler session.
    pub fn fn_defs(&self) -> (r: Vec<FnDef>)
        ensures
            r@ == Seq::<FnDef>::empty(),
    {
        Vec::new()
    }

    /// The static variables of this crate: none without a compiler session.
    pub fn statics(&self) -> (r: Vec<StaticDef>)
        ensures
            r@ == Seq::<StaticDef>::empty(),
    {
        Vec::new()
    }
}

} // verus!
