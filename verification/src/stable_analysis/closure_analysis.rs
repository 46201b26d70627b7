//! What a closure captures and which locks it takes.

use vstd::prelude::*;

verus! {

/// A closure and its use of locks.
#[derive(Debug)]
pub struct ClosureInfo {
    /// The closure's name, such as `two_closures::{closure#0}`.
    pub name: String,
    /// The variables it captures.
    pub captured_vars: Vec<String>,
    /// The lock variables it uses.
    pub lock_vars: Vec<String>,
    /// The order in which its body takes the locks.
    pub lock_order: Vec<String>,
}

} // verus!
