//! Items with all generic arguments given.

use vstd::prelude::*;

use crate::stable_mir::crate_def::CrateItem;
use crate::stable_mir::mir::Body;
use crate::stable_mir::ty::Ty;

verus! {

/// A function with all its generic arguments given.
#[derive(Debug, Clone, PartialEq, Eq, Hash)]
pub struct Instance {
    /// The function.
    pub def: usize,
    /// Its generic arguments.
    pub args: Vec<Ty>,
}

impl Instance {
    /// The function `def` instantiated with `args`.
    pub fn new(def: usize, args: Vec<Ty>) -> (r: Self)
        ensures
            r.def == def,
            r.args@ == args@,
    {
        Self { def, args }
    }

    /// The body of this instance as the session gives it: none without a
    /// compiler session.
    pub open spec fn body_spec(&self) -> Option<Body> {
        None
    }

    /// The body of this instance: none without a compiler session.
    pub fn body(&self) -> (r: Option<Body>)
        ensures
            r is None,
            r == self.body_spec(),
    {
        None
    }

    /// The name of this instance as the session prints it: empty without a
    /// compiler session.
    pub open spec fn name_spec(&self) -> Seq<char> {
        Seq::empty()
    }

    /// The name of this instance: empty without a compiler session.
    pub fn name(&self) -> (r: String)
        ensures
            r@ == self.name_spec(),
    {
        String::new()
    }

    /// The instance of `item`: refused without a compiler session.
    pub fn try_from(item: CrateItem) -> (r: Result<Self, ()>)
        ensures
            r is Err,
    {
        Err(())
    }

    /// The instance of `def` with `args`: refused without a compiler session.
    pub fn resolve(def: usize, args: &[Ty]) -> (r: Result<Self, ()>)
        ensures
            r is Err,
    {
        Err(())
    }
}

/// A static or constant item.
#[derive(Debug, Clone, Copy, PartialEq, Eq, Structural, Hash)]
pub struct StaticDef {
    /// Its definition.
    pub def: usize,
}

impl StaticDef {
    /// The static of `item`: refused without a compiler session.
    pub fn try_from(item: CrateItem) -> (r: Result<Self, ()>)
        ensures
            r is Err,
    {
        Err(())
    }
}

/// An item that code is generated for: a function instance or a static.
#[derive(Debug, Clone, PartialEq, Eq, Hash)]
pub enum MonoItem {
    Instance(Instance),
    Static(StaticDef),
}

impl From<Instance> for MonoItem {
    fn from(instance: Instance) -> (r: Self) {
        MonoItem::Instance(instance)
    }
}

impl vstd::std_specs::convert::FromSpecImpl<Instance> for MonoItem {
    open spec fn obeys_from_spec() -> bool {
        true
    }

    open spec fn from_spec(v: Instance) -> Self {
        MonoItem::Instance(v)
    }
}

impl From<StaticDef> for MonoItem {
    fn from(static_def: StaticDef) -> (r: Self) {
        MonoItem::Static(static_def)
    }
}

impl vstd::std_specs::convert::FromSpecImpl<StaticDef> for MonoItem {
    open spec fn obeys_from_spec() -> bool {
        true
    }

    open spec fn from_spec(v: StaticDef) -> Self {
        MonoItem::Static(v)
    }
}

} // verus!
