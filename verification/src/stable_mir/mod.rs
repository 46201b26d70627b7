//! An owned, index-based model of a crate's MIR: definitions, types and bodies.

pub mod crate_def;
pub mod mir;
pub mod ty;
