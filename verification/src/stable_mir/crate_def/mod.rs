//! Crate-level definitions and source locations.

pub mod item;
pub mod span;

pub use item::{
    AdtDef, AdtKind, ClosureDef, ConstDef, CoroutineClosureDef, CoroutineDef, Crate, CrateDef,
    CrateItem, CtorKind, EnumDef, FnDef, ForeignDef, ItemKind, StaticDef, StructDef, TraitDef,
    TraitImplDef, UnionDef,
};
pub use span::{BytePos, Span, SpanData};
