//! The printed forms of spans, types and lock guard types in reports.

use vstd::prelude::*;

use crate::lockbud::types::LockGuardTy;
use crate::lockbud::ullbc::{Span, TranslatedCrate, Ty};
use crate::text::{decimal, push_decimal};

verus! {

/// A span as `file:line:column-line:column`.
pub open spec fn span_text(s: Span) -> Seq<char> {
    decimal(s.file_id as nat) + ":"@ + decimal(s.beg_line as nat) + ":"@ + decimal(s.beg_col as nat) + "-"@
        + decimal(s.end_line as nat) + ":"@ + decimal(s.end_col as nat)
}

/// The printed form of a span.
pub fn format_span(s: &Span) -> (r: String)
    ensures
        r@ == span_text(*s),
{
    let mut out = String::new();
    push_decimal(&mut out, s.file_id);
    out.append(":");
    push_decimal(&mut out, s.beg_line);
    out.append(":");
    push_decimal(&mut out, s.beg_col);
    out.append("-");
    push_decimal(&mut out, s.end_line);
    out.append(":");
    push_decimal(&mut out, s.end_col);
    assert(out@ =~= span_text(*s));
    out
}

/// The printed form of a type: the crate's text for it, or `?` where the crate has none.
pub open spec fn ty_text(krate: TranslatedCrate, t: Ty) -> Seq<char> {
    if t.id < krate.ty_texts@.len() {
        krate.ty_texts@[t.id as int]@
    } else {
        "?"@
    }
}

/// The printed form of a type.
pub fn format_ty(krate: &TranslatedCrate, t: &Ty) -> (r: String)
    ensures
        r@ == ty_text(*krate, *t),
{
    let mut out = String::new();
    if t.id < krate.ty_texts.len() {
        out.append(krate.ty_texts[t.id].as_str());
    } else {
        out.append("?");
    }
    assert(out@ =~= ty_text(*krate, *t));
    out
}

/// The name of a guard type's kind.
pub open spec fn guard_kind_text(g: LockGuardTy) -> Seq<char> {
    match g {
        LockGuardTy::StdMutex(_) => "StdMutex"@,
        LockGuardTy::ParkingLotMutex(_) => "ParkingLotMutex"@,
        LockGuardTy::SpinMutex(_) => "SpinMutex"@,
        LockGuardTy::StdRwLockRead(_) => "StdRwLockRead"@,
        LockGuardTy::StdRwLockWrite(_) => "StdRwLockWrite"@,
        LockGuardTy::ParkingLotRead(_) => "ParkingLotRead"@,
        LockGuardTy::ParkingLotWrite(_) => "ParkingLotWrite"@,
        LockGuardTy::SpinRead(_) => "SpinRead"@,
        LockGuardTy::SpinWrite(_) => "SpinWrite"@,
        LockGuardTy::Unknown => "Unknown"@,
    }
}

/// A guard type as its kind with the protected type in brackets, as `StdMutex(i32)`.
pub open spec fn guard_ty_text(krate: TranslatedCrate, g: LockGuardTy) -> Seq<char> {
    match g {
        LockGuardTy::StdMutex(t) | LockGuardTy::ParkingLotMutex(t) | LockGuardTy::SpinMutex(t)
        | LockGuardTy::StdRwLockRead(t) | LockGuardTy::StdRwLockWrite(t) | LockGuardTy::ParkingLotRead(t)
        | LockGuardTy::ParkingLotWrite(t) | LockGuardTy::SpinRead(t) | LockGuardTy::SpinWrite(t) => guard_kind_text(g)
            + "("@ + ty_text(krate, t) + ")"@,
        LockGuardTy::Unknown => "Unknown"@,
    }
}

/// The printed form of a guard type.
pub fn format_guard_ty(krate: &TranslatedCrate, g: &LockGuardTy) -> (r: String)
    ensures
        r@ == guard_ty_text(*krate, *g),
{
    let (kind, t) = match g {
        LockGuardTy::StdMutex(t) => ("StdMutex", t),
        LockGuardTy::ParkingLotMutex(t) => ("ParkingLotMutex", t),
        LockGuardTy::SpinMutex(t) => ("SpinMutex", t),
        LockGuardTy::StdRwLockRead(t) => ("StdRwLockRead", t),
        LockGuardTy::StdRwLockWrite(t) => ("StdRwLockWrite", t),
        LockGuardTy::ParkingLotRead(t) => ("ParkingLotRead", t),
        LockGuardTy::ParkingLotWrite(t) => ("ParkingLotWrite", t),
        LockGuardTy::SpinRead(t) => ("SpinRead", t),
        LockGuardTy::SpinWrite(t) => ("SpinWrite", t),
        LockGuardTy::Unknown => {
            let mut out = String::new();
            out.append("Unknown");
            assert(out@ =~= guard_ty_text(*krate, *g));
            return out;
        },
    };
    let mut out = String::new();
    out.append(kind);
    out.append("(");
    let ts = format_ty(krate, t);
    out.append(ts.as_str());
    out.append(")");
    proof {
        assert(kind@ == guard_kind_text(*g)) by {
            reveal_strlit("StdMutex");
            reveal_strlit("ParkingLotMutex");
            reveal_strlit("SpinMutex");
            reveal_strlit("StdRwLockRead");
            reveal_strlit("StdRwLockWrite");
            reveal_strlit("ParkingLotRead");
            reveal_strlit("ParkingLotWrite");
            reveal_strlit("SpinRead");
            reveal_strlit("SpinWrite");
        }
        assert(out@ =~= guard_ty_text(*krate, *g));
    }
    out
}

} // verus!
