//! A listing of the calls to functions whose path mentions `lock`, with the
//! type of the local that receives the result.

use vstd::prelude::*;

use crate::lockbud::render::{format_ty, ty_text};
use crate::lockbud::types::{callee_name, callee_name_of, format_name, name_text};
use crate::lockbud::ullbc::{base_local, ExprBody, FunDeclId, TerminatorKind, TranslatedCrate};
use crate::text::{chars_of, decimal, has_sub, push_decimal, vec_has};

verus! {

/// The lines for block `b` of function `f`: the call, then the type of the
/// local it returns into, where that local is declared.
pub open spec fn block_call_lines(krate: TranslatedCrate, f: int, body: ExprBody, b: int) -> Seq<Seq<char>> {
    match body.body@[b].terminator.kind {
        TerminatorKind::Call { call, .. } => match callee_name(call.func, krate) {
            Some(callee) => if has_sub(callee, "lock"@) {
                let first = "  [CALL in "@ + name_text(krate.fun_decl(f)->0.name) + " block "@ + decimal(b as nat)
                    + "] -> "@ + callee;
                match base_local(call.dest) {
                    Some(gl) => if gl < body.locals@.len() {
                        seq![
                            first,
                            "       dest local "@ + decimal(gl as nat) + " ty: "@ + ty_text(krate, body.locals@[gl as int].ty),
                        ]
                    } else {
                        seq![first]
                    },
                    None => seq![first],
                }
            } else {
                Seq::empty()
            },
            None => Seq::empty(),
        },
        _ => Seq::empty(),
    }
}

/// The lines for the first `n` blocks of function `f`.
pub open spec fn body_call_lines(krate: TranslatedCrate, f: int, body: ExprBody, n: int) -> Seq<Seq<char>>
    decreases n,
{
    if n <= 0 {
        Seq::empty()
    } else {
        body_call_lines(krate, f, body, n - 1) + block_call_lines(krate, f, body, n - 1)
    }
}

/// The lines for the first `n` functions of the crate.
pub open spec fn crate_call_lines(krate: TranslatedCrate, n: int) -> Seq<Seq<char>>
    decreases n,
{
    if n <= 0 {
        Seq::empty()
    } else {
        crate_call_lines(krate, n - 1) + match krate.body_of(n - 1) {
            Some(body) => body_call_lines(krate, n - 1, body, body.body@.len() as int),
            None => Seq::empty(),
        }
    }
}

pub open spec fn views(v: Seq<String>) -> Seq<Seq<char>> {
    Seq::new(v.len(), |i: int| v[i]@)
}

fn push_line(lines: &mut Vec<String>, s: String)
    ensures
        views(final(lines)@) == views(old(lines)@).push(s@),
{
    let ghost before = lines@;
    lines.push(s);
    assert(views(lines@) =~= views(before).push(s@));
}

/// Every call, in the crate's functions, of a function whose path mentions
/// `lock`: one line for the call and one for the type of the local that
/// receives its result, function by function and block by block.
pub fn print_all_calls(krate: &TranslatedCrate) -> (r: Vec<String>)
    ensures
        views(r@) == crate_call_lines(*krate, krate.fun_decls@.len() as int),
{
    let mut lines: Vec<String> = Vec::new();
    let mut f: usize = 0;
    while f < krate.fun_decls.len()
        invariant
            f <= krate.fun_decls@.len(),
            views(lines@) == crate_call_lines(*krate, f as int),
        decreases krate.fun_decls@.len() - f,
    {
        let ghost start = views(lines@);
        match &krate.fun_decls[f] {
            Some(fun_decl) => match &fun_decl.body {
                Some(body) => {
                    let fun_name = format_name(&fun_decl.name);
                    let mut b: usize = 0;
                    while b < body.body.len()
                        invariant
                            f < krate.fun_decls@.len(),
                            krate.fun_decl(f as int) == Some(*fun_decl),
                            fun_decl.body == Some(*body),
                            fun_name@ == name_text(fun_decl.name),
                            b <= body.body@.len(),
                            views(lines@) == start + body_call_lines(*krate, f as int, *body, b as int),
                        decreases body.body@.len() - b,
                    {
                        let ghost mid = views(lines@);
                        match &body.body[b].terminator.kind {
                            TerminatorKind::Call { call, .. } => match callee_name_of(&call.func, krate) {
                                Some(callee) => {
                                    let chars = chars_of(callee.as_str());
                                    if vec_has(&chars, "lock") {
                                        let mut first = String::new();
                                        first.append("  [CALL in ");
                                        first.append(fun_name.as_str());
                                        first.append(" block ");
                                        push_decimal(&mut first, b);
                                        first.append("] -> ");
                                        first.append(callee.as_str());
                                        let ghost fv = first@;
                                        push_line(&mut lines, first);
                                        match call.dest.local_id() {
                                            Some(gl) => {
                                                if gl < body.locals.len() {
                                                    let mut second = String::new();
                                                    second.append("       dest local ");
                                                    push_decimal(&mut second, gl);
                                                    second.append(" ty: ");
                                                    let t = format_ty(krate, &body.locals[gl].ty);
                                                    second.append(t.as_str());
                                                    push_line(&mut lines, second);
                                                }
                                            },
                                            None => {},
                                        }
                                        assert(views(lines@) =~= mid + block_call_lines(*krate, f as int, *body, b as int));
                                    } else {
                                        assert(views(lines@) =~= mid + block_call_lines(*krate, f as int, *body, b as int));
                                    }
                                },
                                None => {
                                    assert(views(lines@) =~= mid + block_call_lines(*krate, f as int, *body, b as int));
                                },
                            },
                            _ => {
                                assert(views(lines@) =~= mid + block_call_lines(*krate, f as int, *body, b as int));
                            },
                        }
                        b = b + 1;
                    }
                    assert(views(lines@) =~= crate_call_lines(*krate, f + 1));
                },
                None => {
                    assert(views(lines@) =~= crate_call_lines(*krate, f + 1));
                },
            },
            None => {
                assert(views(lines@) =~= crate_call_lines(*krate, f + 1));
            },
        }
        f = f + 1;
    }
    lines
}

} // verus!
