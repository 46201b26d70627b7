//! Lock analyses over the owned MIR model: which locals hold lock guards, when each guard
//! is held, which mutex it locks, and which pairs of guards may deadlock.

pub mod callgraph;
pub mod closure_analysis;
pub mod lock_detector;
pub mod lock_identity;
pub mod lock_lifecycle;
pub mod lock_types;
pub mod lock_types_quick;
