//! The ways a translation can fail.

use vstd::prelude::*;

use crate::text::push_decimal;

verus! {

/// Why a translation failed.
#[derive(Debug)]
pub enum ObolError {
    /// The translation reported this many errors.
    ObolError(usize),
    /// The code did not compile.
    RustcError,
    /// The compiler panicked.
    Panic,
    /// The output could not be serialised.
    Serialize,
}

/// The message that describes an error.
pub open spec fn error_message(e: ObolError) -> Seq<char> {
    match e {
        ObolError::RustcError => "Code failed to compile"@,
        ObolError::ObolError(n) => "Obol failed to translate this code ("@ + crate::text::decimal(n as nat)
            + " errors)"@,
        ObolError::Panic => "Compilation panicked"@,
        ObolError::Serialize => "Could not serialize output file"@,
    }
}

impl ObolError {
    /// The message that describes this error, as it is displayed.
    pub fn message(&self) -> (r: String)
        ensures
            r@ == error_message(*self),
    {
        let mut s = String::new();
        match self {
            ObolError::RustcError => s.append("Code failed to compile"),
            ObolError::ObolError(n) => {
                s.append("Obol failed to translate this code (");
                push_decimal(&mut s, *n);
                s.append(" errors)");
            },
            ObolError::Panic => s.append("Compilation panicked"),
            ObolError::Serialize => s.append("Could not serialize output file"),
        }
        s
    }
}

} // verus!
