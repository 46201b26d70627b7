//! Calls that may panic: unwrap and expect on results and options, and the
//! panic and assertion entry points.

use vstd::prelude::*;

use crate::lockbud::render::{format_span, span_text};
use crate::lockbud::report::{PanicDiagnosis, Report, ReportContent};
use crate::lockbud::types::{callee_name, callee_name_of, format_name, name_text};
use crate::lockbud::ullbc::{BlockId, ExprBody, FnOperand, FunDeclId, TerminatorKind, TranslatedCrate};
use crate::text::{chars_of, has_prefix, has_sub, vec_has, vec_starts};

verus! {

#[derive(Clone, Copy, Debug, PartialEq, Eq, Structural)]
pub enum PanicApi {
    ResultUnwrap,
    ResultExpect,
    OptionUnwrap,
    OptionExpect,
    PanicFmt,
    AssertFailed,
    Panic,
}

/// The panic API that a function of this printed path is, if any.
pub open spec fn panic_api_of_name(name: Seq<char>) -> Option<PanicApi> {
    if has_sub(name, "Result"@) && has_sub(name, "::unwrap"@) {
        Some(PanicApi::ResultUnwrap)
    } else if has_sub(name, "Result"@) && has_sub(name, "::expect"@) {
        Some(PanicApi::ResultExpect)
    } else if has_sub(name, "Option"@) && has_sub(name, "::unwrap"@) {
        Some(PanicApi::OptionUnwrap)
    } else if has_sub(name, "Option"@) && has_sub(name, "::expect"@) {
        Some(PanicApi::OptionExpect)
    } else if has_sub(name, "panic_fmt"@) || has_sub(name, "panic_display"@) {
        Some(PanicApi::PanicFmt)
    } else if has_sub(name, "assert_failed"@) {
        Some(PanicApi::AssertFailed)
    } else if has_sub(name, "panicking::panic"@) && !has_sub(name, "panic_fmt"@) {
        Some(PanicApi::Panic)
    } else if has_prefix(name, "core::panicking::panic_"@) || has_prefix(name, "std::panicking::panic_"@) {
        if has_sub(name, "assert"@) {
            Some(PanicApi::AssertFailed)
        } else {
            Some(PanicApi::Panic)
        }
    } else {
        None
    }
}

/// The panic API that a call targets, if it targets a declared function that is one.
pub open spec fn panic_api_spec(func: FnOperand, krate: TranslatedCrate) -> Option<PanicApi> {
    match callee_name(func, krate) {
        Some(n) => panic_api_of_name(n),
        None => None,
    }
}

/// The panic API that a call targets, judged by the path of the declared
/// function it calls.
pub fn classify_panic_api(func: &FnOperand, krate: &TranslatedCrate) -> (r: Option<PanicApi>)
    ensures
        r == panic_api_spec(*func, *krate),
{
    let name = match callee_name_of(func, krate) {
        Some(n) => n,
        None => return None,
    };
    let n = chars_of(name.as_str());
    if vec_has(&n, "Result") && vec_has(&n, "::unwrap") {
        return Some(PanicApi::ResultUnwrap);
    }
    if vec_has(&n, "Result") && vec_has(&n, "::expect") {
        return Some(PanicApi::ResultExpect);
    }
    if vec_has(&n, "Option") && vec_has(&n, "::unwrap") {
        return Some(PanicApi::OptionUnwrap);
    }
    if vec_has(&n, "Option") && vec_has(&n, "::expect") {
        return Some(PanicApi::OptionExpect);
    }
    if vec_has(&n, "panic_fmt") || vec_has(&n, "panic_display") {
        return Some(PanicApi::PanicFmt);
    }
    if vec_has(&n, "assert_failed") {
        return Some(PanicApi::AssertFailed);
    }
    if vec_has(&n, "panicking::panic") && !vec_has(&n, "panic_fmt") {
        return Some(PanicApi::Panic);
    }
    if vec_starts(&n, "core::panicking::panic_") || vec_starts(&n, "std::panicking::panic_") {
        if vec_has(&n, "assert") {
            return Some(PanicApi::AssertFailed);
        }
        return Some(PanicApi::Panic);
    }
    None
}

/// How a panic API is named in reports.
pub open spec fn panic_api_text(api: PanicApi) -> Seq<char> {
    match api {
        PanicApi::ResultUnwrap => "Result::unwrap"@,
        PanicApi::ResultExpect => "Result::expect"@,
        PanicApi::OptionUnwrap => "Option::unwrap"@,
        PanicApi::OptionExpect => "Option::expect"@,
        PanicApi::PanicFmt => "panic!"@,
        PanicApi::AssertFailed => "assert!"@,
        PanicApi::Panic => "panic"@,
    }
}

/// How a panic API is named in reports.
pub fn panic_api_name(api: PanicApi) -> (r: &'static str)
    ensures
        r@ == panic_api_text(api),
{
    let r = match api {
        PanicApi::ResultUnwrap => "Result::unwrap",
        PanicApi::ResultExpect => "Result::expect",
        PanicApi::OptionUnwrap => "Option::unwrap",
        PanicApi::OptionExpect => "Option::expect",
        PanicApi::PanicFmt => "panic!",
        PanicApi::AssertFailed => "assert!",
        PanicApi::Panic => "panic",
    };
    proof {
        reveal_strlit("Result::unwrap");
        reveal_strlit("Result::expect");
        reveal_strlit("Option::unwrap");
        reveal_strlit("Option::expect");
        reveal_strlit("panic!");
        reveal_strlit("assert!");
        reveal_strlit("panic");
    }
    r
}

/// The panic call that block `b` of `body` ends in, as its API, if it is one.
pub open spec fn panic_site(krate: TranslatedCrate, body: ExprBody, b: int) -> Option<PanicApi> {
    match body.body@[b].terminator.kind {
        TerminatorKind::Call { call, .. } => panic_api_spec(call.func, krate),
        _ => None,
    }
}

/// What a report of a panic call says: the function, the API, and the call's span.
pub open spec fn panic_facts(
    krate: TranslatedCrate,
    f: int,
    body: ExprBody,
    b: int,
    api: PanicApi,
) -> (Seq<char>, Seq<char>, Seq<char>) {
    (name_text(krate.fun_decls@[f]->0.name), panic_api_text(api), span_text(body.body@[b].terminator.span))
}

/// The panic calls of the first `n` blocks of function `f`'s body, as report facts.
pub open spec fn panics_in_blocks(krate: TranslatedCrate, f: int, body: ExprBody, n: int) -> Seq<
    (Seq<char>, Seq<char>, Seq<char>),
>
    decreases n,
{
    if n <= 0 {
        Seq::empty()
    } else {
        match panic_site(krate, body, n - 1) {
            Some(api) => panics_in_blocks(krate, f, body, n - 1).push(panic_facts(krate, f, body, n - 1, api)),
            None => panics_in_blocks(krate, f, body, n - 1),
        }
    }
}

/// The panic calls of the local functions before `f`, as report facts, in order.
pub open spec fn panics_upto(krate: TranslatedCrate, f: int) -> Seq<(Seq<char>, Seq<char>, Seq<char>)>
    decreases f,
{
    if f <= 0 {
        Seq::empty()
    } else {
        panics_upto(krate, f - 1) + match krate.fun_decl(f - 1) {
            Some(decl) => if decl.is_local {
                match decl.body {
                    Some(body) => panics_in_blocks(krate, f - 1, body, body.body@.len() as int),
                    None => Seq::empty(),
                }
            } else {
                Seq::empty()
            },
            None => Seq::empty(),
        }
    }
}

/// The facts a panic report states.
pub open spec fn report_facts(r: Report) -> (Seq<char>, Seq<char>, Seq<char>) {
    let d = r->Panic_0.diagnosis;
    (d.fn_name@, d.panic_api@, d.callsite_span@)
}

fn text(s: &str) -> (r: String)
    ensures
        r@ == s@,
{
    let mut out = String::new();
    out.append(s);
    assert(out@ =~= s@);
    out
}

/// One report per call of a panic API in a local function, in the order of
/// the functions and of their blocks.
pub fn detect_panics(krate: &TranslatedCrate) -> (r: Vec<Report>)
    ensures
        r@.len() == panics_upto(*krate, krate.fun_decls@.len() as int).len(),
        forall|i: int|
            0 <= i < r@.len() ==> {
                &&& (#[trigger] r@[i]) is Panic
                &&& r@[i]->Panic_0.bug_kind@ == "Panic"@
                &&& r@[i]->Panic_0.possibility@ == "Possibly"@
                &&& report_facts(r@[i]) == panics_upto(*krate, krate.fun_decls@.len() as int)[i]
            },
{
    let mut reports: Vec<Report> = Vec::new();
    let n = krate.fun_decls.len();
    let mut f: usize = 0;
    while f < n
        invariant
            f <= n,
            n == krate.fun_decls@.len(),
            reports@.len() == panics_upto(*krate, f as int).len(),
            forall|i: int|
                0 <= i < reports@.len() ==> {
                    &&& (#[trigger] reports@[i]) is Panic
                    &&& reports@[i]->Panic_0.bug_kind@ == "Panic"@
                    &&& reports@[i]->Panic_0.possibility@ == "Possibly"@
                    &&& report_facts(reports@[i]) == panics_upto(*krate, f as int)[i]
                },
        decreases n - f,
    {
        let ghost before = reports@;
        let ghost prev = panics_upto(*krate, f as int);
        match &krate.fun_decls[f] {
            Some(decl) => {
                if decl.is_local {
                    match &decl.body {
                        Some(body) => {
                            let mut b: usize = 0;
                            while b < body.body.len()
                                invariant
                                    f < n,
                                    n == krate.fun_decls@.len(),
                                    krate.fun_decls@[f as int] == Some(*decl),
                                    decl.body == Some(*body),
                                    b <= body.body@.len(),
                                    reports@.len() == prev.len() + panics_in_blocks(*krate, f as int, *body, b as int).len(),
                                    forall|i: int|
                                        0 <= i < reports@.len() ==> {
                                            &&& (#[trigger] reports@[i]) is Panic
                                            &&& reports@[i]->Panic_0.bug_kind@ == "Panic"@
                                            &&& reports@[i]->Panic_0.possibility@ == "Possibly"@
                                            &&& report_facts(reports@[i]) == (prev + panics_in_blocks(
                                                *krate,
                                                f as int,
                                                *body,
                                                b as int,
                                            ))[i]
                                        },
                                decreases body.body@.len() - b,
                            {
                                let block = &body.body[b];
                                let ghost pre = panics_in_blocks(*krate, f as int, *body, b as int);
                                match &block.terminator.kind {
                                    TerminatorKind::Call { call, .. } => {
                                        match classify_panic_api(&call.func, krate) {
                                            Some(api) => {
                                                let diagnosis = PanicDiagnosis {
                                                    fn_name: format_name(&decl.name),
                                                    panic_api: text(panic_api_name(api)),
                                                    callsite_span: format_span(&block.terminator.span),
                                                };
                                                let report = Report::Panic(
                                                    ReportContent::new(
                                                        text("Panic"),
                                                        text("Possibly"),
                                                        diagnosis,
                                                        text("Call to a panic API that may panic at runtime"),
                                                    ),
                                                );
                                                let ghost rb = reports@;
                                                reports.push(report);
                                                proof {
                                                    let post = pre.push(panic_facts(*krate, f as int, *body, b as int, api));
                                                    assert(prev + post =~= (prev + pre).push(panic_facts(*krate, f as int, *body, b as int, api)));
                                                    assert forall|i: int| 0 <= i < reports@.len() implies {
                                                        &&& (#[trigger] reports@[i]) is Panic
                                                        &&& reports@[i]->Panic_0.bug_kind@ == "Panic"@
                                                        &&& reports@[i]->Panic_0.possibility@ == "Possibly"@
                                                        &&& report_facts(reports@[i]) == (prev + post)[i]
                                                    } by {
                                                        if i < rb.len() {
                                                            assert(reports@[i] == rb[i]);
                                                        }
                                                    }
                                                }
                                            },
                                            None => {},
                                        }
                                    },
                                    _ => {},
                                }
                                b = b + 1;
                            }
                        },
                        None => {},
                    }
                }
            },
            None => {},
        }
        proof {
            assert(panics_upto(*krate, f + 1) == prev + match krate.fun_decl(f as int) {
                Some(decl) => if decl.is_local {
                    match decl.body {
                        Some(body) => panics_in_blocks(*krate, f as int, body, body.body@.len() as int),
                        None => Seq::empty(),
                    }
                } else {
                    Seq::empty()
                },
                None => Seq::empty(),
            });
        }
        f = f + 1;
    }
    reports
}

/// What a function's path says of the panic API it is: an unwrap or expect is one of
/// `Result` where the path names `Result` and the method, else of `Option` where it names
/// `Option` and the method (an unwrap where it names both methods); a path that names none
/// of `Result` and `Option` with a method, but a panic formatter or an assertion failure, is
/// that; and a path that names none of `Result`, `Option`, `panic` and `assert` is none.
pub proof fn law_panic_api_by_path(name: Seq<char>)
    ensures
        has_sub(name, "Result"@) && has_sub(name, "::unwrap"@) ==> panic_api_of_name(name) == Some(PanicApi::ResultUnwrap),
        has_sub(name, "Result"@) && has_sub(name, "::expect"@) && !has_sub(name, "::unwrap"@) ==> panic_api_of_name(name) == Some(
            PanicApi::ResultExpect,
        ),
        !has_sub(name, "Result"@) && has_sub(name, "Option"@) && has_sub(name, "::unwrap"@) ==> panic_api_of_name(name) == Some(
            PanicApi::OptionUnwrap,
        ),
        !has_sub(name, "Result"@) && has_sub(name, "Option"@) && has_sub(name, "::expect"@) && !has_sub(name, "::unwrap"@)
            ==> panic_api_of_name(name) == Some(PanicApi::OptionExpect),
        !has_sub(name, "::unwrap"@) && !has_sub(name, "::expect"@) && (has_sub(name, "panic_fmt"@) || has_sub(name, "panic_display"@))
            ==> panic_api_of_name(name) == Some(PanicApi::PanicFmt),
        !has_sub(name, "::unwrap"@) && !has_sub(name, "::expect"@) && !has_sub(name, "panic_fmt"@) && !has_sub(name, "panic_display"@)
            && has_sub(name, "assert_failed"@) ==> panic_api_of_name(name) == Some(PanicApi::AssertFailed),
        !has_sub(name, "::unwrap"@) && !has_sub(name, "::expect"@) && !has_sub(name, "panic_fmt"@) && !has_sub(name, "panic_display"@)
            && !has_sub(name, "assert_failed"@) && has_sub(name, "panicking::panic"@) ==> panic_api_of_name(name) == Some(PanicApi::Panic),
        !has_sub(name, "Result"@) && !has_sub(name, "Option"@) && !has_sub(name, "panic"@) && !has_sub(name, "assert"@)
            ==> panic_api_of_name(name) is None,
        panic_api_of_name(name) matches Some(api) ==> has_sub(name, "Result"@) || has_sub(name, "Option"@) || has_sub(name, "panic"@)
            || has_sub(name, "assert"@),
{
    reveal_strlit("panic_fmt");
    reveal_strlit("panic_display");
    reveal_strlit("panicking::panic");
    reveal_strlit("assert_failed");
    reveal_strlit("panic");
    reveal_strlit("assert");
    reveal_strlit("core::panicking::panic_");
    reveal_strlit("std::panicking::panic_");
    if has_sub(name, "panic_fmt"@) {
        assert(crate::text::occurs_at("panic_fmt"@, "panic"@, 0)) by {
            assert("panic_fmt"@.subrange(0, 5) =~= "panic"@);
        }
        crate::text::lemma_sub_of_sub(name, "panic_fmt"@, "panic"@);
    }
    if has_sub(name, "panic_display"@) {
        assert(crate::text::occurs_at("panic_display"@, "panic"@, 0)) by {
            assert("panic_display"@.subrange(0, 5) =~= "panic"@);
        }
        crate::text::lemma_sub_of_sub(name, "panic_display"@, "panic"@);
    }
    if has_sub(name, "panicking::panic"@) {
        assert(crate::text::occurs_at("panicking::panic"@, "panic"@, 0)) by {
            assert("panicking::panic"@.subrange(0, 5) =~= "panic"@);
        }
        crate::text::lemma_sub_of_sub(name, "panicking::panic"@, "panic"@);
    }
    if has_sub(name, "assert_failed"@) {
        assert(crate::text::occurs_at("assert_failed"@, "assert"@, 0)) by {
            assert("assert_failed"@.subrange(0, 6) =~= "assert"@);
        }
        crate::text::lemma_sub_of_sub(name, "assert_failed"@, "assert"@);
    }
    if has_prefix(name, "core::panicking::panic_"@) {
        crate::text::lemma_prefix_is_sub(name, "core::panicking::panic_"@);
        assert(crate::text::occurs_at("core::panicking::panic_"@, "panic"@, 6)) by {
            assert("core::panicking::panic_"@.subrange(6, 11) =~= "panic"@);
        }
        crate::text::lemma_sub_of_sub(name, "core::panicking::panic_"@, "panic"@);
    }
    if has_prefix(name, "std::panicking::panic_"@) {
        crate::text::lemma_prefix_is_sub(name, "std::panicking::panic_"@);
        assert(crate::text::occurs_at("std::panicking::panic_"@, "panic"@, 5)) by {
            assert("std::panicking::panic_"@.subrange(5, 10) =~= "panic"@);
        }
        crate::text::lemma_sub_of_sub(name, "std::panicking::panic_"@, "panic"@);
    }
}

/// A report of an unwrap or expect names the type and the method that the called path
/// names: `Result` or `Option`, then `::`, then `unwrap` or `expect`.
pub proof fn law_panic_api_text_names_call(name: Seq<char>, api: PanicApi)
    ensures
        panic_api_of_name(name) == Some(api) && (api == PanicApi::ResultUnwrap || api == PanicApi::ResultExpect
            || api == PanicApi::OptionUnwrap || api == PanicApi::OptionExpect) ==> exists|ty: Seq<char>, m: Seq<char>|
            #![trigger has_sub(name, ty), has_sub(name, m)]
            (ty == "Result"@ || ty == "Option"@) && (m == "::unwrap"@ || m == "::expect"@) && has_sub(name, ty) && has_sub(name, m)
                && panic_api_text(api) == ty + m,
{
    reveal_strlit("Result::unwrap");
    reveal_strlit("Result::expect");
    reveal_strlit("Option::unwrap");
    reveal_strlit("Option::expect");
    reveal_strlit("Result");
    reveal_strlit("Option");
    reveal_strlit("::unwrap");
    reveal_strlit("::expect");
    assert("Result::unwrap"@ =~= "Result"@ + "::unwrap"@);
    assert("Result::expect"@ =~= "Result"@ + "::expect"@);
    assert("Option::unwrap"@ =~= "Option"@ + "::unwrap"@);
    assert("Option::expect"@ =~= "Option"@ + "::expect"@);
    if panic_api_of_name(name) == Some(PanicApi::ResultUnwrap) {
        assert(has_sub(name, "Result"@) && has_sub(name, "::unwrap"@));
    } else if panic_api_of_name(name) == Some(PanicApi::ResultExpect) {
        assert(has_sub(name, "Result"@) && has_sub(name, "::expect"@));
    } else if panic_api_of_name(name) == Some(PanicApi::OptionUnwrap) {
        assert(has_sub(name, "Option"@) && has_sub(name, "::unwrap"@));
    } else if panic_api_of_name(name) == Some(PanicApi::OptionExpect) {
        assert(has_sub(name, "Option"@) && has_sub(name, "::expect"@));
    }
}

} // verus!
