//! Types.

pub mod ty;

pub use ty::{
    Abi, AliasKind, AliasTy, BoundExistentialPredicate, CoroutineKind, FloatTy, FnSig, TyTable,
    GenericArgs, IntTy, Movability, Mutability, PolyFnSig, Region, RegionKind, RigidTy, Ty,
    TyKind, UintTy,
};
