//! The call graph and lock report of a crate, as text.

use vstd::prelude::*;

use crate::stable_analysis::callgraph::{distinct_count, lemma_no_edges_total, mono_text, same_mono, CallGraph};
use crate::stable_analysis::lock_detector::{conflict_report, has_edge, is_cycle, report_from_cycle, report_views, LockBugKind, LockDesc, LockDetector, LockReport};
use crate::stable_analysis::lock_types::DeadlockPossibility;
use crate::stable_analysis::lock_types::{
    analysis_step, body_checks, checked_texts, entries_total, guard_pred, items_lock_records, law_analyze_consistent, lock_pred,
    lock_views, locks_under, named_lock_records, summary_text, is_guard_text, is_lock_text, AnalyzedItem, LockTypeCollector,
    MirVisitorTypeCollector, TySignature,
};
use crate::stable_analysis::lock_types_quick::{lock_texts_in, locals_use_locks, texts_unique, LockUsageInfo, QuickLockScanner};
use crate::stable_mir::crate_def::{CrateItem, ItemKind};
use crate::stable_mir::mir::operand::operand_ty_spec;
use crate::stable_mir::mir::{BasicBlock, Body, Instance, LocalDecl, MonoItem, StaticDef, TerminatorKind};
use crate::stable_mir::ty::{RigidTy, TyKind, TyTable};
use crate::text::{chars_of, decimal, has_prefix, has_sub, indented, utf8_len, views, push_decimal, str_has_sub, utf8_len_exceeds, vec_has, vec_starts};

verus! {

/// A crate name with each `-` read as `_`.
pub open spec fn normalized(s: Seq<char>) -> Seq<char> {
    Seq::new(s.len(), |i: int| if s[i] == '-' { '_' } else { s[i] })
}

fn normalize(s: &str) -> (r: Vec<char>)
    ensures
        r@ == normalized(s@),
{
    let cs = chars_of(s);
    let mut out: Vec<char> = Vec::new();
    let mut i: usize = 0;
    while i < cs.len()
        invariant
            cs@ == s@,
            i <= cs@.len(),
            out@ == normalized(cs@.take(i as int)),
        decreases cs@.len() - i,
    {
        let c = cs[i];
        out.push(if c == '-' { '_' } else { c });
        i = i + 1;
        assert(out@ =~= normalized(cs@.take(i as int)));
    }
    assert(cs@.take(cs@.len() as int) =~= cs@);
    out
}

/// The crates whose call graph is shown: those whose name, with `-` read as
/// `_`, holds one of these.
pub open spec fn crate_selected(name: Seq<char>) -> bool {
    let n = normalized(name);
    ||| has_sub(n, "intra"@)
    ||| has_sub(n, "inter"@)
    ||| has_sub(n, "conflict"@)
    ||| has_sub(n, "conflict_inter"@)
    ||| has_sub(n, "lock_closure"@)
    ||| has_sub(n, "static_ref"@)
    ||| has_sub(n, "tikv_wrapper"@)
}

/// How the report begins.
pub open spec fn report_head(name: Seq<char>) -> Seq<char> {
    "=== Stable Call Graph Analysis ===\nCrate: "@ + name + "\n\nCall Graph Statistics:\n  Total functions: "@
}

fn push(out: &mut String, s: &str)
    ensures
        final(out)@ == old(out)@ + s@,
{
    out.append(s);
}

/// The line for a deadlock report's possibility.
fn kind_text(k: LockBugKind) -> (r: &'static str)
    ensures
        r@ == kind_name(k),
{
    match k {
        LockBugKind::DoubleLock => "DoubleLock",
        LockBugKind::ConflictLock => "ConflictLock",
    }
}

/// The callsites in `caller`'s body of a call whose callee's name matches
/// `closure_name`: the first one, with each closure argument; the caller's
/// body is known only to a compiler session.
pub fn find_and_print_closure_callsite(caller: &Instance, closure_name: &str, table: &TyTable, output: &mut String)
    ensures
        final(output)@ == old(output)@,
{
    match caller.body() {
        Some(body) => {
            let locals = body.locals();
            let blocks = body.basic_blocks();
            let mut b: usize = 0;
            while b < blocks.len()
                invariant
                    b <= blocks@.len(),
                    caller.body_spec() is Some,
                decreases blocks@.len() - b,
            {
                match &blocks[b].terminator.kind {
                    TerminatorKind::Call { func, args, .. } => {
                        match func.ty(locals, table) {
                            Ok(func_ty) => match table.kind(&func_ty) {
                                Some(TyKind::RigidTy(RigidTy::FnDef(fn_def, _))) => {
                                    let callee_name = crate::stable_mir::crate_def::FnDef { def_id: *fn_def }.name();
                                    if str_has_sub(callee_name.as_str(), "closure") || str_has_sub(
                                        callee_name.as_str(),
                                        closure_name,
                                    ) {
                                        push(output, "      Callsite: block=");
                                        push_decimal(output, b);
                                        push(output, ", terminator\n");
                                        let mut a: usize = 0;
                                        while a < args.len()
                                            invariant
                                                a <= args@.len(),
                                                caller.body_spec() is Some,
                                            decreases args@.len() - a,
                                        {
                                            match args[a].ty(locals, table) {
                                                Ok(arg_ty) => match table.kind(&arg_ty) {
                                                    Some(TyKind::RigidTy(RigidTy::Closure(closure_def, _))) => {
                                                        push(output, "      Argument ");
                                                        push_decimal(output, a);
                                                        push(output, ": Closure type ClosureDef(");
                                                        push_decimal(output, *closure_def);
                                                        push(output, ")\n");
                                                    },
                                                    _ => {},
                                                },
                                                Err(_) => {},
                                            }
                                            a = a + 1;
                                        }
                                        return;
                                    }
                                },
                                _ => {},
                            },
                            Err(_) => {},
                        }
                    },
                    _ => {},
                }
                b = b + 1;
            }
            push(output, "      Callsite: <not found>\n");
        },
        None => {},
    }
}

/// A caller's name marks it as one to leave out of the details.
pub open spec fn skipped_name(name: Seq<char>) -> bool {
    utf8_len(name) > 200 || has_prefix(name, "std::"@) || has_prefix(name, "alloc::"@) || has_prefix(name, "core::"@)
        || has_prefix(name, "<std::"@) || has_prefix(name, "<alloc::"@) || has_prefix(name, "<core::"@)
}

/// How many distinct items node `i` calls.
pub open spec fn callee_count(g: CallGraph, i: int) -> nat {
    distinct_count(g.out_edges(i), g.out_edges(i).len() as int)
}

/// Node `i` is a function instance, not left out, that calls something.
pub open spec fn shown_caller(g: CallGraph, i: int) -> bool {
    &&& g.node_seq()[i] is Instance
    &&& !skipped_name(g.node_seq()[i]->Instance_0.name_spec())
    &&& callee_count(g, i) > 0
}

/// The lines of a caller; its body, known only to a compiler session, adds none.
pub open spec fn caller_lines(name: Seq<char>, n: nat) -> Seq<char> {
    "Caller: "@ + name + "\n  Callees: "@ + decimal(n) + "\n"@ + "\n"@
}

/// The details of the first `n` nodes: the text, how many callers it shows,
/// and whether it stopped after the twentieth.
pub open spec fn details_upto(g: CallGraph, n: int) -> (Seq<char>, nat, bool)
    decreases n,
{
    if n <= 0 {
        (Seq::empty(), 0, false)
    } else {
        let prev = details_upto(g, n - 1);
        if prev.2 {
            prev
        } else if shown_caller(g, n - 1) {
            let t = prev.0 + caller_lines(g.node_seq()[n - 1]->Instance_0.name_spec(), callee_count(g, n - 1));
            if prev.1 + 1 >= 20 {
                (t + "... (output truncated after 20 callers)\n"@, prev.1 + 1, true)
            } else {
                (t, prev.1 + 1, false)
            }
        } else {
            prev
        }
    }
}

proof fn lemma_details_stopped(g: CallGraph, m: int, n: int)
    requires
        0 <= m <= n,
        details_upto(g, m).2,
    ensures
        details_upto(g, n) == details_upto(g, m),
    decreases n - m,
{
    if n > m {
        lemma_details_stopped(g, m, n - 1);
    }
}

/// Whether a caller's name marks it as one to leave out of the details:
/// over 200 bytes long, or in std, alloc or core.
fn skipped_caller(name: &Vec<char>) -> (r: bool)
    ensures
        r == skipped_name(name@),
{
    utf8_len_exceeds(name, 200) || vec_starts(name, "std::") || vec_starts(name, "alloc::") || vec_starts(
        name,
        "core::",
    ) || vec_starts(name, "<std::") || vec_starts(name, "<alloc::") || vec_starts(name, "<core::")
}

/// The details section: for each function with callees, its callees and
/// where its body calls them, for at most 20 callers.
fn details_section(callgraph: &CallGraph, table: &TyTable, out: &mut String)
    requires
        callgraph.wf(),
    ensures
        final(out)@ == old(out)@ + details_upto(*callgraph, callgraph.node_seq().len() as int).0,
{
    let ghost o0 = out@;
    let nodes = callgraph.nodes();
    let mut caller_count: usize = 0;
    let mut i: usize = 0;
    while i < nodes.len()
        invariant
            callgraph.wf(),
            nodes@ == callgraph.node_seq(),
            i <= nodes@.len(),
            caller_count <= i,
            o0 == old(out)@,
            out@ == o0 + details_upto(*callgraph, i as int).0,
            caller_count == details_upto(*callgraph, i as int).1,
            !details_upto(*callgraph, i as int).2,
        decreases nodes@.len() - i,
    {
        let caller_item = &nodes[i];
        let ghost prev = details_upto(*callgraph, i as int);
        match caller_item {
            MonoItem::Instance(caller_instance) => {
                let caller_name = caller_instance.name();
                let cn = chars_of(caller_name.as_str());
                if !skipped_caller(&cn) {
                    let callees = callgraph.successors(caller_item);
                    proof {
                        assert(same_mono(callgraph.node_seq()[i as int], *caller_item));
                    }
                    if callees.len() > 0 {
                        caller_count = caller_count + 1;
                        push(out, "Caller: ");
                        push(out, caller_name.as_str());
                        push(out, "\n  Callees: ");
                        push_decimal(out, callees.len());
                        push(out, "\n");
                        match caller_instance.body() {
                            Some(body) => {
                                let mut k: usize = 0;
                                while k < callees.len()
                                    invariant
                                        k <= callees@.len(),
                                    decreases callees@.len() - k,
                                {
                                    let callee_name = mono_text(&callees[k]);
                                    push(out, "    -> ");
                                    push(out, callee_name.as_str());
                                    push(out, "\n");
                                    let found = push_callsites(&body, table, callee_name.as_str(), out);
                                    if !found {
                                        push(out, "       Callsite: <not found in body>\n");
                                    }
                                    k = k + 1;
                                }
                            },
                            None => {},
                        }
                        push(out, "\n");
                        proof {
                            assert(shown_caller(*callgraph, i as int));
                            assert(out@ =~= o0 + (prev.0 + caller_lines(caller_instance.name_spec(), callee_count(*callgraph, i as int))));
                        }
                        if caller_count >= 20 {
                            push(out, "... (output truncated after 20 callers)\n");
                            proof {
                                assert(details_upto(*callgraph, i + 1).2);
                                assert(out@ =~= o0 + details_upto(*callgraph, i + 1).0);
                                lemma_details_stopped(*callgraph, i + 1, nodes@.len() as int);
                            }
                            return;
                        }
                    } else {
                        assert(!shown_caller(*callgraph, i as int));
                    }
                } else {
                    assert(!shown_caller(*callgraph, i as int));
                }
            },
            _ => {
                assert(!shown_caller(*callgraph, i as int));
            },
        }
        i = i + 1;
    }
}

/// Two names match where they are equal or one holds the other.
pub open spec fn names_match(a: Seq<char>, b: Seq<char>) -> bool {
    a == b || has_sub(a, b) || has_sub(b, a)
}

/// The block calls a function definition whose printed name (empty without
/// a compiler session) matches `callee`.
pub open spec fn block_calls(table: TyTable, locals: Seq<LocalDecl>, blk: BasicBlock, callee: Seq<char>) -> bool {
    match blk.terminator.kind {
        TerminatorKind::Call { func, .. } => match operand_ty_spec(table, locals, func) {
            Some(t) => match table.kind_in(t) {
                Some(TyKind::RigidTy(RigidTy::FnDef(_, _))) => names_match(Seq::empty(), callee),
                _ => false,
            },
            None => false,
        },
        _ => false,
    }
}

/// A callsite line for each of the first `n` blocks that calls `callee`.
pub open spec fn callsite_lines(table: TyTable, locals: Seq<LocalDecl>, blocks: Seq<BasicBlock>, callee: Seq<char>, n: int) -> Seq<char>
    decreases n,
{
    if n <= 0 {
        Seq::empty()
    } else {
        callsite_lines(table, locals, blocks, callee, n - 1) + if block_calls(table, locals, blocks[n - 1], callee) {
            "       Callsite: block="@ + decimal((n - 1) as nat) + ", terminator\n"@
        } else {
            Seq::empty()
        }
    }
}

/// Appends a line for each block of `body` that calls a function whose name
/// matches `callee_name`; whether there was one.
fn push_callsites(
    body: &crate::stable_mir::mir::Body,
    table: &TyTable,
    callee_name: &str,
    out: &mut String,
) -> (found: bool)
    ensures
        final(out)@ == old(out)@ + callsite_lines(*table, body.locals_spec(), body.blocks_spec(), callee_name@, body.blocks_spec().len() as int),
        found == exists|b: int| 0 <= b < body.blocks_spec().len() && #[trigger] block_calls(*table, body.locals_spec(), body.blocks_spec()[b], callee_name@),
{
    let ghost o0 = out@;
    let locals = body.locals();
    let blocks = body.basic_blocks();
    let mut found = false;
    let mut b: usize = 0;
    while b < blocks.len()
        invariant
            b <= blocks@.len(),
            locals@ == body.locals_spec(),
            blocks@ == body.blocks_spec(),
            out@ == o0 + callsite_lines(*table, locals@, blocks@, callee_name@, b as int),
            found == exists|k: int| 0 <= k < b && #[trigger] block_calls(*table, locals@, blocks@[k], callee_name@),
        decreases blocks@.len() - b,
    {
        let ghost ob = out@;
        let ghost fb = found;
        match &blocks[b].terminator.kind {
            TerminatorKind::Call { func, .. } => match func.ty(locals, table) {
                Ok(func_ty) => match table.kind(&func_ty) {
                    Some(TyKind::RigidTy(RigidTy::FnDef(fn_def, _))) => {
                        let from_terminator = crate::stable_mir::crate_def::FnDef { def_id: *fn_def }.name();
                        if crate::text::str_eq(from_terminator.as_str(), callee_name) || str_has_sub(
                            from_terminator.as_str(),
                            callee_name,
                        ) || str_has_sub(callee_name, from_terminator.as_str()) {
                            push(out, "       Callsite: block=");
                            push_decimal(out, b);
                            push(out, ", terminator\n");
                            found = true;
                        }
                    },
                    _ => {},
                },
                Err(_) => {},
            },
            _ => {},
        }
        proof {
            assert(out@ =~= o0 + callsite_lines(*table, locals@, blocks@, callee_name@, b + 1));
            if block_calls(*table, locals@, blocks@[b as int], callee_name@) {
                assert(found);
            }
        }
        b = b + 1;
    }
    found
}

/// The closures a crate is expected to make: those of the `lock_closure` tests.
pub open spec fn expected_closures(crate_name: Seq<char>) -> Seq<Seq<char>> {
    if has_sub(crate_name, "lock_closure"@) || has_sub(crate_name, "lock-closure"@) {
        seq!["one_closure_one_caller::{closure#0}"@, "two_closures::{closure#0}"@, "two_closures::{closure#1}"@]
    } else {
        Seq::empty()
    }
}

/// A line for each of `names` saying that it is missing.
pub open spec fn missing_lines(names: Seq<Seq<char>>) -> Seq<char>
    decreases names.len(),
{
    if names.len() == 0 {
        Seq::empty()
    } else {
        missing_lines(names.drop_last()) + "\u{2717} Missing closure: "@ + names.last() + "\n"@
    }
}

/// The closure section: each expected closure found among the nodes, with
/// its callers; each one missing; and how many were found. No instance is
/// named without a compiler session, so none is found.
fn closure_section(crate_name: &str, callgraph: &CallGraph, table: &TyTable, out: &mut String)
    requires
        callgraph.wf(),
    ensures
        final(out)@ == old(out)@ + "\n=== Closure Summary ===\n\n"@ + missing_lines(expected_closures(crate_name@))
            + "\nFound "@ + decimal(0) + " out of "@ + decimal(expected_closures(crate_name@).len()) + " expected closures\n"@,
{
    let ghost o0 = out@;
    push(out, "\n=== Closure Summary ===\n\n");
    let ghost o1 = out@;
    let mut expected: Vec<&str> = Vec::new();
    if str_has_sub(crate_name, "lock_closure") || str_has_sub(crate_name, "lock-closure") {
        expected.push("one_closure_one_caller::{closure#0}");
        expected.push("two_closures::{closure#0}");
        expected.push("two_closures::{closure#1}");
    }
    proof {
        reveal_strlit("one_closure_one_caller::{closure#0}");
        reveal_strlit("two_closures::{closure#0}");
        reveal_strlit("two_closures::{closure#1}");
    }
    let ghost ex = expected@.map_values(|x: &str| x@);
    assert(ex =~= expected_closures(crate_name@));
    assert(forall|x: int| 0 <= x < expected@.len() ==> (#[trigger] expected@[x])@.len() > 0);
    let mut found_closures: Vec<String> = Vec::new();
    let nodes = callgraph.nodes();
    let mut i: usize = 0;
    while i < nodes.len()
        invariant
            callgraph.wf(),
            i <= nodes@.len(),
            out@ == o1,
            found_closures@.len() == 0,
            forall|x: int| 0 <= x < expected@.len() ==> (#[trigger] expected@[x])@.len() > 0,
        decreases nodes@.len() - i,
    {
        let item = &nodes[i];
        match item {
            MonoItem::Instance(instance) => {
                let name = instance.name();
                let mut e: usize = 0;
                while e < expected.len()
                    invariant
                        callgraph.wf(),
                        e <= expected@.len(),
                        name@ == Seq::<char>::empty(),
                        out@ == o1,
                        found_closures@.len() == 0,
                        forall|x: int| 0 <= x < expected@.len() ==> (#[trigger] expected@[x])@.len() > 0,
                    decreases expected@.len() - e,
                {
                    assert(expected@[e as int]@.len() > 0);
                    if str_has_sub(name.as_str(), expected[e]) {
                        found_closures.push(name.clone());
                        push(out, "\u{2713} Found closure: ");
                        push(out, name.as_str());
                        push(out, "\n");
                        let callers = callgraph.predecessors(item);
                        push(out, "  Called by: ");
                        push_decimal(out, callers.len());
                        push(out, " function(s)\n");
                        let mut c: usize = 0;
                        while c < callers.len()
                            invariant
                                c <= callers@.len(),
                            decreases callers@.len() - c,
                        {
                            match &callers[c] {
                                MonoItem::Instance(caller_instance) => {
                                    let caller_name = caller_instance.name();
                                    push(out, "    - ");
                                    push(out, caller_name.as_str());
                                    push(out, "\n");
                                    find_and_print_closure_callsite(caller_instance, name.as_str(), table, out);
                                },
                                _ => {},
                            }
                            c = c + 1;
                        }
                        push(out, "\n");
                    }
                    e = e + 1;
                }
            },
            _ => {},
        }
        i = i + 1;
    }
    let mut e: usize = 0;
    while e < expected.len()
        invariant
            e <= expected@.len(),
            ex == expected@.map_values(|x: &str| x@),
            found_closures@.len() == 0,
            out@ == o1 + missing_lines(ex.take(e as int)),
        decreases expected@.len() - e,
    {
        let mut any = false;
        let mut f: usize = 0;
        while f < found_closures.len()
            invariant
                e < expected@.len(),
                f <= found_closures@.len(),
                found_closures@.len() == 0,
                !any,
            decreases found_closures@.len() - f,
        {
            if str_has_sub(found_closures[f].as_str(), expected[e]) {
                any = true;
            }
            f = f + 1;
        }
        if !any {
            push(out, "\u{2717} Missing closure: ");
            push(out, expected[e]);
            push(out, "\n");
        }
        proof {
            assert(ex.take(e + 1).drop_last() =~= ex.take(e as int));
            assert(ex.take(e + 1).last() == expected@[e as int]@);
            assert(out@ =~= o1 + missing_lines(ex.take(e + 1)));
        }
        e = e + 1;
    }
    assert(ex.take(expected@.len() as int) =~= ex);
    push(out, "\nFound ");
    push_decimal(out, found_closures.len());
    push(out, " out of ");
    push_decimal(out, expected.len());
    push(out, " expected closures\n");
    assert(out@ =~= o0 + "\n=== Closure Summary ===\n\n"@ + missing_lines(expected_closures(crate_name@)) + "\nFound "@
        + decimal(0) + " out of "@ + decimal(expected_closures(crate_name@).len()) + " expected closures\n"@);
}

/// How many of the first `n` nodes are instances whose name holds `thread::spawn`.
pub open spec fn spawn_count(nodes: Seq<MonoItem>, n: int) -> nat
    decreases n,
{
    if n <= 0 {
        0
    } else {
        spawn_count(nodes, n - 1) + match nodes[n - 1] {
            MonoItem::Instance(inst) => if has_sub(inst.name_spec(), "thread::spawn"@) {
                1nat
            } else {
                0nat
            },
            _ => 0nat,
        }
    }
}

/// The thread spawn section: how many nodes are `thread::spawn` instances.
fn spawn_section(callgraph: &CallGraph, out: &mut String)
    ensures
        final(out)@ == old(out)@ + "\n=== Thread Spawn Summary ===\n\n"@ + "Total thread::spawn calls found: "@ + decimal(
            spawn_count(callgraph.node_seq(), callgraph.node_seq().len() as int),
        ) + "\n"@,
{
    let ghost o0 = out@;
    push(out, "\n=== Thread Spawn Summary ===\n\n");
    let ghost o1 = out@;
    let nodes = callgraph.nodes();
    let mut spawn_count: usize = 0;
    let mut i: usize = 0;
    while i < nodes.len()
        invariant
            nodes@ == callgraph.node_seq(),
            i <= nodes@.len(),
            spawn_count <= i,
            spawn_count == self::spawn_count(nodes@, i as int),
        decreases nodes@.len() - i,
    {
        match &nodes[i] {
            MonoItem::Instance(instance) => {
                let name = instance.name();
                if str_has_sub(name.as_str(), "thread::spawn") {
                    spawn_count = spawn_count + 1;
                }
            },
            _ => {},
        }
        i = i + 1;
    }
    push(out, "Total thread::spawn calls found: ");
    push_decimal(out, spawn_count);
    push(out, "\n");
    assert(out@ =~= o0 + "\n=== Thread Spawn Summary ===\n\n"@ + "Total thread::spawn calls found: "@ + decimal(
        spawn_count as nat,
    ) + "\n"@);
}

/// The patterns are those of the lock types: `Mutex`, `RwLock` and their guards.
pub open spec fn lock_patterns_ok(p: Seq<&'static str>) -> bool {
    &&& p.len() == 5
    &&& p[0]@ == "Mutex"@
    &&& p[1]@ == "RwLock"@
    &&& p[2]@ == "MutexGuard"@
    &&& p[3]@ == "RwLockReadGuard"@
    &&& p[4]@ == "RwLockWriteGuard"@
}

/// Some item declares a local whose printed type mentions one of the patterns.
pub open spec fn crate_locks(items: Seq<AnalyzedItem>, table: TyTable, p: Seq<&'static str>) -> bool {
    exists|i: int| 0 <= i < items.len() && locals_use_locks(table, (#[trigger] items[i]).body.locals_spec(), p)
}

/// The lock type section: whether the crate uses locks, which functions and
/// types, the collected types, and the types each body names.
#[verifier::spinoff_prover]
#[verifier::rlimit(60)]
fn lock_type_section(items: &[AnalyzedItem], table: &TyTable, out: &mut String)
    ensures
        exists|t: Seq<char>| #[trigger] lock_section_text(items@, *table, t) && final(out)@ == old(out)@ + t,
{
    let ghost o0 = out@;
    push(out, "\n=== Lock Type Analysis ===\n\n");
    let quick_scanner = QuickLockScanner::new();
    let ghost pats = quick_scanner.patterns();
    if !quick_scanner.crate_uses_locks(items, table) {
        push(out, "No lock types (Mutex, RwLock) found in this crate\n");
        push(out, "Skipping detailed lock analysis.\n");
        push(out, "\n");
        push(out, "\n");
        let ghost t = out@.subrange(o0.len() as int, out@.len() as int);
        assert(t =~= no_lock_text());
        assert(out@ =~= o0 + t);
        assert(lock_section_text(items@, *table, t)) by {
            reveal(lock_section_text);
            assert(lock_patterns_ok(pats));
        }
        return;
    } else {
        let lock_info = quick_scanner.scan_lock_types(items, table);
        push(out, "Lock usage detected!\n");
        let out_full: &mut String = out;
        let mut rest = String::new();
        let out = &mut rest;
        push(out, "Functions using locks: ");
        push_decimal(out, lock_info.instances_with_locks.len());
        push(out, "\nUnique lock types found: ");
        push_decimal(out, lock_info.lock_types_found.len());
        push(out, "\n");
        let ghost u0 = out@;
        if lock_info.instances_with_locks.len() > 0 {
            push(out, "\nFunctions:\n");
            let ghost u1 = out@;
            let mut k: usize = 0;
            while k < lock_info.instances_with_locks.len()
                invariant
                    k <= lock_info.instances_with_locks@.len(),
                    out@ == u1 + indented("  - "@, views(lock_info.instances_with_locks@.take(k as int))),
                decreases lock_info.instances_with_locks@.len() - k,
            {
                push(out, "  - ");
                push(out, lock_info.instances_with_locks[k].as_str());
                push(out, "\n");
                proof {
                    let ns = lock_info.instances_with_locks@;
                    assert(views(ns.take(k + 1)).drop_last() =~= views(ns.take(k as int)));
                    assert(views(ns.take(k + 1)).last() == ns[k as int]@);
                }
                k = k + 1;
            }
            assert(lock_info.instances_with_locks@.take(lock_info.instances_with_locks@.len() as int) =~= lock_info.instances_with_locks@);
        }
        push(out, "\n");
        assert(out@ =~= usage_lines(lock_info));
        let (summary, Ghost(tc)) = collected_types_text(items, table);
        push(out, summary.as_str());
        push(out, "\n--- MirVisitor Type Collection ---\n");
        push(out, "(Finds types in expressions, not just locals)\n");
        push(out, "\n");
        let vis = visitor_text(items, table);
        push(out, vis.as_str());
        let ghost body_text = out@;
        assert(body_text =~= usage_lines(lock_info) + summary_text(tc) + visitor_head() + vis@);
        push(out_full, rest.as_str());
        push(out_full, "\n");
        proof {
            let t = out_full@.subrange(o0.len() as int, out_full@.len() as int);
            assert(t =~= lock_usage_text(lock_info, tc, vis@));
            assert(out_full@ =~= o0 + t);
            assert(crate_locks(items@, *table, pats));
            assert(usage_sources(items@, *table, pats, lock_info, tc, vis@));
            assert(lock_section_text(items@, *table, t)) by {
                reveal(lock_section_text);
                assert(lock_patterns_ok(pats));
            }
        }
    }
}

/// The summary of a new type collector that has recorded the items.
fn collected_types_text(items: &[AnalyzedItem], table: &TyTable) -> (r: (String, Ghost<LockTypeCollector>))
    ensures
        types_collected(items@, *table, r.1@),
        r.0@ == summary_text(r.1@),
{
    let mut type_collector = LockTypeCollector::new();
    let ghost tc0 = type_collector;
    type_collector.analyze_crate(items, table);
    proof {
        assert forall|name: Seq<char>| #[trigger] locks_under(type_collector.instance_locks@, name) == named_lock_records(*table, items@, name) by {
            assert(locks_under(type_collector.instance_locks@, name) == locks_under(tc0.instance_locks@, name) + named_lock_records(*table, items@, name));
            assert(locks_under(tc0.instance_locks@, name) =~= Seq::empty());
        }
        assert(lock_views(type_collector.all_lock_types@) =~= items_lock_records(*table, items@));
    }
    let summary = type_collector.format_summary();
    (summary, Ghost(type_collector))
}

/// The summaries of the type collectors of the items that find a lock or guard type, up to
/// five, or a line saying that none did.
#[verifier::spinoff_prover]
#[verifier::rlimit(60)]
fn visitor_text(items: &[AnalyzedItem], table: &TyTable) -> (r: String)
    ensures
        visitor_part(items@, *table, r@),
{
    let mut out = String::new();
    let ghost mut cs: Seq<MirVisitorTypeCollector> = Seq::empty();
    let ghost mut ks: Seq<int> = Seq::empty();
    let mut visitor_collected_count: usize = 0;
    let mut i: usize = 0;
    while i < items.len()
        invariant_except_break
            visitor_collected_count < 5,
            out@ == summaries(cs),
            forall|j: int| 0 <= j < ks.len() ==> #[trigger] ks[j] < i,
            forall|i2: int| 0 <= i2 < i && #[trigger] shows_locks(items@, *table, i2) ==> ks.contains(i2),
        invariant
            i <= items@.len(),
            cs.len() == visitor_collected_count,
            ks.len() == cs.len(),
            visitor_collected_count <= 5,
            forall|j: int| 0 <= j < cs.len() ==> #[trigger] visitor_from(items@, *table, cs[j], ks[j]),
            forall|j1: int, j2: int| 0 <= j1 < j2 < ks.len() ==> #[trigger] ks[j1] < #[trigger] ks[j2],
        ensures
            collectors_shown(items@, *table, cs, ks),
            out@ == summaries(cs) + (if cs.len() == 5 { truncated_line() } else { Seq::empty() }),
        decreases items@.len() - i,
    {
        let item = &items[i];
        let name_chars = chars_of(item.name.as_str());
        if !(utf8_len_exceeds(&name_chars, 200) || vec_starts(&name_chars, "std::")) {
            let mut visitor = MirVisitorTypeCollector::new(&item.body, item.name.clone(), table);
            let ghost v0 = visitor;
            visitor.analyze();
            proof {
                assert(visitor.lock_texts() =~= checked_texts(*table, body_checks(*table, item.body), lock_pred()));
                assert(visitor.guard_texts() =~= checked_texts(*table, body_checks(*table, item.body), guard_pred()));
                lemma_found_iff_mentioned(*table, item.body, visitor);
            }
            if visitor.has_lock_types() {
                proof {
                    assert(analysis_step(v0, visitor));
                    law_analyze_consistent(v0, visitor);
                    assert(shows_locks(items@, *table, i as int));
                    assert(visitor_from(items@, *table, visitor, i as int));
                }
                visitor_collected_count = visitor_collected_count + 1;
                let s = visitor.format_summary();
                push(&mut out, s.as_str());
                push(&mut out, "\n");
                proof {
                    let cs1 = cs.push(visitor);
                    assert(cs1.drop_last() =~= cs);
                    assert(out@ =~= summaries(cs1));
                    let ks1 = ks.push(i as int);
                    assert(ks1.contains(i as int)) by {
                        assert(ks1[ks.len() as int] == i as int);
                    }
                    assert forall|i2: int| 0 <= i2 < i && #[trigger] shows_locks(items@, *table, i2) implies ks1.contains(i2) by {
                        let j = choose|j: int| 0 <= j < ks.len() && ks[j] == i2;
                        assert(ks1[j] == i2);
                    }
                    cs = cs1;
                    ks = ks1;
                }
                if visitor_collected_count >= 5 {
                    push(&mut out, "... (output truncated after 5 instances)\n");
                    proof {
                        assert(ks[4] == i as int);
                        assert forall|i2: int| 0 <= i2 < ks[4] + 1 && #[trigger] shows_locks(items@, *table, i2) implies ks.contains(i2) by {
                            if i2 == i as int {
                                assert(ks[4] == i2);
                            }
                        }
                        assert(collectors_shown(items@, *table, cs, ks));
                    }
                    break;
                }
            } else {
                assert(!shows_locks(items@, *table, i as int));
            }
        } else {
            assert(!shows_locks(items@, *table, i as int));
        }
        i = i + 1;
    }
    if visitor_collected_count == 0 {
        push(&mut out, "No lock types found by MirVisitor (unexpected!)\n");
    }
    proof {
        assert(out@ =~= summaries(cs) + (if cs.len() == 5 { truncated_line() } else { Seq::empty() }) + (if cs.len() == 0 {
            none_found_line()
        } else {
            Seq::empty()
        }));
        assert(visitor_part(items@, *table, out@));
    }
    out
}

/// The lines of a quick scan's findings: how many functions use locks and how many lock
/// types were found, then the functions, where there are any.
pub open spec fn usage_lines(info: LockUsageInfo) -> Seq<char> {
    "Functions using locks: "@ + decimal(info.instances_with_locks@.len()) + "\nUnique lock types found: "@ + decimal(
        info.lock_types_found@.len(),
    ) + "\n"@ + (if info.instances_with_locks@.len() > 0 {
        "\nFunctions:\n"@ + indented("  - "@, views(info.instances_with_locks@))
    } else {
        Seq::empty()
    }) + "\n"@
}

/// `info` is what a quick scan with the patterns `p` finds in the items: the names of the
/// items that declare a lock, and the printed lock types declared, each once.
pub open spec fn scan_found(items: Seq<AnalyzedItem>, table: TyTable, p: Seq<&'static str>, info: LockUsageInfo) -> bool {
    &&& texts_unique(info.instances_with_locks@)
    &&& texts_unique(info.lock_types_found@)
    &&& forall|n: Seq<char>| #[trigger] views(info.instances_with_locks@).contains(n) <==> exists|i: int|
        0 <= i < items.len() && (#[trigger] items[i]).name@ == n && locals_use_locks(table, items[i].body.locals_spec(), p)
    &&& forall|t: Seq<char>| #[trigger] views(info.lock_types_found@).contains(t) <==> exists|i: int|
        0 <= i < items.len() && lock_texts_in(table, (#[trigger] items[i]).body.locals_spec(), p, t)
    &&& info.has_locks == (info.instances_with_locks@.len() > 0)
}

/// `tc` is a new type collector after recording the items: it holds the lock types they
/// declare, in order, and under each name those of the items of that name; no guard type.
pub open spec fn types_collected(items: Seq<AnalyzedItem>, table: TyTable, tc: LockTypeCollector) -> bool {
    &&& tc.wf()
    &&& lock_views(tc.all_lock_types@) == items_lock_records(table, items)
    &&& tc.all_guard_types@.len() == 0
    &&& forall|name: Seq<char>| #[trigger] locks_under(tc.instance_locks@, name) == named_lock_records(table, items, name)
    &&& entries_total(tc.instance_locks@) == items_lock_records(table, items).len()
}

/// `c` is the type collector of the item at `i`, whose name is short and outside `std`: it has
/// read that item's body and found the lock and guard types its code mentions, and some.
pub open spec fn visitor_from(items: Seq<AnalyzedItem>, table: TyTable, c: MirVisitorTypeCollector, i: int) -> bool {
    &&& 0 <= i < items.len()
    &&& utf8_len(items[i].name@) <= 200
    &&& !has_prefix(items[i].name@, "std::"@)
    &&& c.instance_text() == items[i].name@
    &&& c.source() == (items[i].body, table)
    &&& c.consistent()
    &&& c.lock_texts() == checked_texts(table, body_checks(table, items[i].body), lock_pred())
    &&& c.guard_texts() == checked_texts(table, body_checks(table, items[i].body), guard_pred())
    &&& shows_locks(items, table, i)
}

/// The item at `i` has a short name outside `std`, and its code mentions a lock or guard type.
pub open spec fn shows_locks(items: Seq<AnalyzedItem>, table: TyTable, i: int) -> bool {
    let checks = body_checks(table, items[i].body);
    &&& 0 <= i < items.len()
    &&& utf8_len(items[i].name@) <= 200
    &&& !has_prefix(items[i].name@, "std::"@)
    &&& exists|k: int|
        0 <= k < checks.len() && (is_lock_text(table.text_of((#[trigger] checks[k]).0)) || is_guard_text(table.text_of(checks[k].0)))
}

/// A collector that read a body finds a lock or guard type exactly where the body's code
/// mentions one.
proof fn lemma_found_iff_mentioned(table: TyTable, body: Body, c: MirVisitorTypeCollector)
    requires
        c.lock_texts() == checked_texts(table, body_checks(table, body), lock_pred()),
        c.guard_texts() == checked_texts(table, body_checks(table, body), guard_pred()),
    ensures
        (c.lock_texts().len() > 0 || c.guard_texts().len() > 0) <==> exists|k: int|
            0 <= k < body_checks(table, body).len() && (is_lock_text(table.text_of((#[trigger] body_checks(table, body)[k]).0))
                || is_guard_text(table.text_of(body_checks(table, body)[k].0))),
{
    let checks = body_checks(table, body);
    c.lemma_texts();
    vstd::seq_lib::seq_to_set_is_finite(c.lock_sigs().map_values(|x: TySignature| x.type_str@));
    vstd::seq_lib::seq_to_set_is_finite(c.guard_sigs().map_values(|x: TySignature| x.type_str@));
    vstd::set_lib::lemma_set_empty_equivalency_len(c.lock_texts());
    vstd::set_lib::lemma_set_empty_equivalency_len(c.guard_texts());
    if exists|k: int| 0 <= k < checks.len() && (is_lock_text(table.text_of((#[trigger] checks[k]).0)) || is_guard_text(table.text_of(checks[k].0))) {
        let k = choose|k: int| 0 <= k < checks.len() && (is_lock_text(table.text_of((#[trigger] checks[k]).0)) || is_guard_text(table.text_of(checks[k].0)));
        let t = table.text_of(checks[k].0);
        if is_lock_text(t) {
            assert(c.lock_texts().contains(t));
            assert(c.lock_texts() != Set::<Seq<char>>::empty());
        } else {
            assert(c.guard_texts().contains(t));
            assert(c.guard_texts() != Set::<Seq<char>>::empty());
        }
    }
    if c.lock_texts().len() > 0 {
        assert(c.lock_texts() != Set::<Seq<char>>::empty());
        if !(exists|t: Seq<char>| c.lock_texts().contains(t)) {
            assert(c.lock_texts() =~= Set::<Seq<char>>::empty());
        }
        let t = choose|t: Seq<char>| c.lock_texts().contains(t);
        let k = choose|k: int| 0 <= k < checks.len() && table.text_of((#[trigger] checks[k]).0) == t && lock_pred()(t);
        assert(is_lock_text(table.text_of(checks[k].0)));
    }
    if c.guard_texts().len() > 0 {
        assert(c.guard_texts() != Set::<Seq<char>>::empty());
        if !(exists|t: Seq<char>| c.guard_texts().contains(t)) {
            assert(c.guard_texts() =~= Set::<Seq<char>>::empty());
        }
        let t = choose|t: Seq<char>| c.guard_texts().contains(t);
        let k = choose|k: int| 0 <= k < checks.len() && table.text_of((#[trigger] checks[k]).0) == t && guard_pred()(t);
        assert(is_guard_text(table.text_of(checks[k].0)));
    }
}

/// `c` is the type collector of one of the items that found a lock or guard type.
pub open spec fn visitor_of_item(items: Seq<AnalyzedItem>, table: TyTable, c: MirVisitorTypeCollector) -> bool {
    exists|i: int| #[trigger] visitor_from(items, table, c, i)
}

/// The summaries of the collectors, each followed by a line end.
pub open spec fn summaries(cs: Seq<MirVisitorTypeCollector>) -> Seq<char>
    decreases cs.len(),
{
    if cs.len() == 0 {
        Seq::empty()
    } else {
        summaries(cs.drop_last()) + cs.last().summary_spec() + "\n"@
    }
}

/// The line saying that no more collectors are shown.
pub open spec fn truncated_line() -> Seq<char> {
    "... (output truncated after 5 instances)\n"@
}

/// The line saying that no collector found a lock type.
pub open spec fn none_found_line() -> Seq<char> {
    "No lock types found by MirVisitor (unexpected!)\n"@
}

/// The heading of the collectors' part.
pub open spec fn visitor_head() -> Seq<char> {
    "\n--- MirVisitor Type Collection ---\n"@ + "(Finds types in expressions, not just locals)\n"@ + "\n"@
}

/// The collectors `cs` are those of the items at `ks`, in order: of the items before the
/// sixth that shows a lock or guard type (of all, where fewer than six do), each that shows
/// one.
pub open spec fn collectors_shown(items: Seq<AnalyzedItem>, table: TyTable, cs: Seq<MirVisitorTypeCollector>, ks: Seq<int>) -> bool {
    &&& cs.len() == ks.len()
    &&& cs.len() <= 5
    &&& forall|j: int| 0 <= j < cs.len() ==> #[trigger] visitor_from(items, table, cs[j], ks[j])
    &&& forall|j1: int, j2: int| 0 <= j1 < j2 < ks.len() ==> #[trigger] ks[j1] < #[trigger] ks[j2]
    &&& forall|i: int|
        0 <= i < (if ks.len() == 5 { ks[4] + 1 } else { items.len() as int }) && #[trigger] shows_locks(items, table, i)
            ==> ks.contains(i)
}

/// `t` is the collectors' part of the lock type section: the summaries of the type
/// collectors of the first five items that show a lock or guard type, then a line saying the
/// output stops after five, or one saying that none found any.
pub open spec fn visitor_part(items: Seq<AnalyzedItem>, table: TyTable, t: Seq<char>) -> bool {
    exists|cs: Seq<MirVisitorTypeCollector>, ks: Seq<int>|
        #[trigger] collectors_shown(items, table, cs, ks) && t == summaries(cs) + (if cs.len() == 5 {
            truncated_line()
        } else {
            Seq::empty()
        }) + (if cs.len() == 0 {
            none_found_line()
        } else {
            Seq::empty()
        })
}

/// Where the findings of the section come from: the quick scan with the patterns `p`, the
/// crate's type collector, and the collectors of the items.
pub open spec fn usage_sources(
    items: Seq<AnalyzedItem>,
    table: TyTable,
    p: Seq<&'static str>,
    info: LockUsageInfo,
    tc: LockTypeCollector,
    vis: Seq<char>,
) -> bool {
    scan_found(items, table, p, info) && types_collected(items, table, tc) && visitor_part(items, table, vis)
}

/// The lines of a lock type section where no lock type was found.
pub open spec fn no_lock_text() -> Seq<char> {
    "\n=== Lock Type Analysis ===\n\n"@ + "No lock types (Mutex, RwLock) found in this crate\n"@ + "Skipping detailed lock analysis.\n"@
        + "\n"@ + "\n"@
}

/// The lines of a lock type section from these findings.
pub open spec fn lock_usage_text(info: LockUsageInfo, tc: LockTypeCollector, vis: Seq<char>) -> Seq<char> {
    "\n=== Lock Type Analysis ===\n\n"@ + "Lock usage detected!\n"@ + usage_lines(info) + summary_text(tc) + visitor_head() + vis
        + "\n"@
}

/// The name of a bug kind.
pub open spec fn kind_name(k: LockBugKind) -> Seq<char> {
    match k {
        LockBugKind::DoubleLock => "DoubleLock"@,
        LockBugKind::ConflictLock => "ConflictLock"@,
    }
}

/// The name of a possibility.
pub open spec fn possibility_name(p: DeadlockPossibility) -> Seq<char> {
    match p {
        DeadlockPossibility::Probably => "Probably"@,
        DeadlockPossibility::Possibly => "Possibly"@,
        DeadlockPossibility::Unlikely => "Unlikely"@,
        DeadlockPossibility::Unknown => "Unknown"@,
    }
}

/// The line `label` and the value, where there is a value.
pub open spec fn opt_line(label: Seq<char>, v: Option<String>) -> Seq<char> {
    match v {
        Some(x) => label + x@ + "\n"@,
        None => Seq::empty(),
    }
}

/// The lines of a lock of a report, after the line that names it.
pub open spec fn lock_lines(head: Seq<char>, d: LockDesc) -> Seq<char> {
    head + d.lock_type@ + "\n\u{2502}   Function: "@ + d.function@ + "\n"@ + opt_line("\u{2502}   Variable: "@, d.var_name)
        + opt_line("\u{2502}   Location: "@, d.source_loc)
}

/// The first lines of report number `idx` (from 0): its number, kind and confidence.
pub open spec fn report_head_lines(r: LockReport, idx: nat) -> Seq<char> {
    "\n[Deadlock #"@ + decimal(idx + 1) + " - "@ + kind_name(r.kind) + "]\nConfidence: "@ + possibility_name(r.possibility)
}

/// The lines of report number `idx` (from 0).
pub open spec fn report_lines(r: LockReport, idx: nat) -> Seq<char> {
    report_head_lines(r, idx) + lock_lines("\n\u{250c}\u{2500} First Lock:\n\u{2502}   Type: "@, r.first_lock) + lock_lines(
        "\u{2502}\n\u{251c}\u{2500} Second Lock:\n\u{2502}   Type: "@,
        r.second_lock,
    ) + "\u{2502}\n\u{2514}\u{2500} Deadlock Path:\n"@ + indented("    "@, views(r.callchain@))
}

/// The lines of the first `n` reports.
pub open spec fn reports_lines(rs: Seq<LockReport>, n: int) -> Seq<char>
    decreases n,
{
    if n <= 0 {
        Seq::empty()
    } else {
        reports_lines(rs, n - 1) + report_lines(rs[n - 1], (n - 1) as nat)
    }
}

/// Appends `label`, the value and a line end, where there is a value.
fn push_opt(out: &mut String, label: &str, v: &Option<String>)
    ensures
        final(out)@ == old(out)@ + opt_line(label@, *v),
{
    match v {
        Some(x) => {
            let ghost o = out@;
            push(out, label);
            push(out, x.as_str());
            push(out, "\n");
            assert(out@ =~= o + opt_line(label@, *v));
        },
        None => {
            assert(out@ =~= old(out)@ + opt_line(label@, *v));
        },
    }
}

/// Appends the lines of a lock after `head`.
fn push_lock(out: &mut String, head: &str, d: &LockDesc)
    ensures
        final(out)@ == old(out)@ + lock_lines(head@, *d),
{
    let ghost o = out@;
    push(out, head);
    push(out, d.lock_type.as_str());
    push(out, "\n\u{2502}   Function: ");
    push(out, d.function.as_str());
    push(out, "\n");
    let ghost o1 = out@;
    assert(o1 =~= o + head@ + d.lock_type@ + "\n\u{2502}   Function: "@ + d.function@ + "\n"@);
    push_opt(out, "\u{2502}   Variable: ", &d.var_name);
    push_opt(out, "\u{2502}   Location: ", &d.source_loc);
    assert(out@ =~= o + lock_lines(head@, *d));
}

/// Appends each step of a call chain on a line of its own.
fn push_chain(out: &mut String, chain: &Vec<String>)
    ensures
        final(out)@ == old(out)@ + indented("    "@, views(chain@)),
{
    let ghost o2 = out@;
    let mut s: usize = 0;
    while s < chain.len()
        invariant
            s <= chain@.len(),
            out@ == o2 + indented("    "@, views(chain@.take(s as int))),
        decreases chain@.len() - s,
    {
        push(out, "    ");
        push(out, chain[s].as_str());
        push(out, "\n");
        proof {
            let cs = chain@;
            assert(views(cs.take(s + 1)).drop_last() =~= views(cs.take(s as int)));
            assert(views(cs.take(s + 1)).last() == cs[s as int]@);
            assert(out@ =~= o2 + indented("    "@, views(cs.take(s + 1))));
        }
        s = s + 1;
    }
    assert(chain@.take(chain@.len() as int) =~= chain@);
}

/// Appends the lines of one report.
fn push_report(out: &mut String, report: &LockReport, idx: usize)
    requires
        idx < usize::MAX,
    ensures
        final(out)@ == old(out)@ + report_lines(*report, idx as nat),
{
    let ghost o = out@;
    push(out, "\n[Deadlock #");
    push_decimal(out, idx + 1);
    push(out, " - ");
    push(out, kind_text(report.kind));
    push(out, "]\nConfidence: ");
    push(out, report.possibility.name());
    let ghost h = report_head_lines(*report, idx as nat);
    assert(out@ =~= o + h);
    let ghost l1 = lock_lines("\n\u{250c}\u{2500} First Lock:\n\u{2502}   Type: "@, report.first_lock);
    let ghost l2 = lock_lines("\u{2502}\n\u{251c}\u{2500} Second Lock:\n\u{2502}   Type: "@, report.second_lock);
    push_lock(out, "\n\u{250c}\u{2500} First Lock:\n\u{2502}   Type: ", &report.first_lock);
    push_lock(out, "\u{2502}\n\u{251c}\u{2500} Second Lock:\n\u{2502}   Type: ", &report.second_lock);
    assert(out@ =~= o + h + l1 + l2);
    push(out, "\u{2502}\n\u{2514}\u{2500} Deadlock Path:\n");
    push_chain(out, &report.callchain);
    assert(out@ =~= o + (h + l1 + l2 + "\u{2502}\n\u{2514}\u{2500} Deadlock Path:\n"@ + indented("    "@, views(report.callchain@))));
}

/// The deadlock section: each report of the lock detector, with both locks
/// and the path between them.
fn deadlock_section(items: &[AnalyzedItem], table: &TyTable, out: &mut String)
    ensures
        exists|d: LockDetector, rs: Seq<LockReport>|
            #[trigger] fresh_detect(d, rs) && final(out)@ == old(out)@ + deadlock_section_of(rs),
{
    let ghost o0 = out@;
    push(out, "\n=== Lock Deadlock Detection ===\n\n");
    let mut detector = LockDetector::new();
    let ghost d0 = detector;
    let reports = detector.detect(items, table);
    proof {
        assert forall|a: Seq<char>, b: Seq<char>| !#[trigger] has_edge(detector.graph_edges(), a, b) by {
            assert(has_edge(detector.graph_edges(), a, b) == has_edge(d0.graph_edges(), a, b));
        }
        assert(fresh_detect(detector, reports@));
    }
    push(out, "Total potential deadlocks found: ");
    push_decimal(out, reports.len());
    push(out, "\n");
    let ghost o1 = out@;
    let mut idx: usize = 0;
    while idx < reports.len()
        invariant
            idx <= reports@.len(),
            out@ == o1 + reports_lines(reports@, idx as int),
        decreases reports@.len() - idx,
    {
        push_report(out, &reports[idx], idx);
        idx = idx + 1;
    }
    assert(out@ =~= o0 + deadlock_section_of(reports@));
    assert(fresh_detect(detector, reports@));
}

/// `rs` is what `LockDetector::detect` gives back when called on a new detector, and `d`
/// the detector after the call: its graph has no edge, and each report it made is that of
/// a cycle of its graph.
pub open spec fn fresh_detect(d: LockDetector, rs: Seq<LockReport>) -> bool {
    &&& d.wf()
    &&& forall|a: Seq<char>, b: Seq<char>| !#[trigger] has_edge(d.graph_edges(), a, b)
    &&& report_views(rs) == report_views(d.reports_spec())
    &&& forall|k: int| 0 <= k < d.reports_spec().len() ==> #[trigger] report_from_cycle(d.graph_edges(), d.reports_spec()[k])
}

/// The deadlock section for the reports `rs`: the heading, their count, then each report.
pub open spec fn deadlock_section_of(rs: Seq<LockReport>) -> Seq<char> {
    "\n=== Lock Deadlock Detection ===\n\n"@ + "Total potential deadlocks found: "@ + decimal(rs.len()) + "\n"@
        + reports_lines(rs, rs.len() as int)
}

/// A new detector has no lock order to follow: whatever it is run on, it finds no cycle and
/// reports no deadlock.
pub proof fn law_fresh_detector_reports_nothing(d: LockDetector, rs: Seq<LockReport>)
    requires
        fresh_detect(d, rs),
    ensures
        rs.len() == 0,
{
    if d.reports_spec().len() > 0 {
        assert(report_from_cycle(d.graph_edges(), d.reports_spec()[0]));
        let c = choose|c: Seq<Seq<char>>| is_cycle(d.graph_edges(), c) && c.len() >= 2 && d.reports_spec()[0]@ == conflict_report(c);
        assert(has_edge(d.graph_edges(), c[0], c[1]));
    }
    assert(report_views(rs).len() == 0);
}

/// The report of a crate whose name selects it: its call graph, its
/// closures and thread spawns, the lock types it uses and the deadlocks
/// found; nothing for other crates.
#[verifier::spinoff_prover]
#[verifier::rlimit(100)]
pub fn demo_callgraph(crate_name: &str, items: &[AnalyzedItem], table: &TyTable) -> (r: Option<String>)
    ensures
        r is Some <==> crate_selected(crate_name@),
        r matches Some(s) ==> s@.len() >= report_head(crate_name@).len() && s@.subrange(
            0,
            report_head(crate_name@).len() as int,
        ) == report_head(crate_name@),
        r matches Some(s) ==> exists|cg: CallGraph, lock_text: Seq<char>, dl_text: Seq<char>|
            #[trigger] demo_report(crate_name@, items@, *table, cg, lock_text, dl_text, s@),
{
    let n = normalize(crate_name);
    if !(vec_has(&n, "intra") || vec_has(&n, "inter") || vec_has(&n, "conflict") || vec_has(&n, "conflict_inter")
        || vec_has(&n, "lock_closure") || vec_has(&n, "static_ref") || vec_has(&n, "tikv_wrapper")) {
        return None;
    }
    let mut callgraph = CallGraph::new();
    callgraph.analyze(items, table);
    proof {
        lemma_no_edges_total(callgraph);
    }
    let mut head = String::new();
    push(&mut head, "=== Stable Call Graph Analysis ===\nCrate: ");
    push(&mut head, crate_name);
    push(&mut head, "\n\nCall Graph Statistics:\n  Total functions: ");
    let ghost h = head@;
    assert(h =~= report_head(crate_name@));
    let mut rest = String::new();
    push_decimal(&mut rest, callgraph.node_count());
    push(&mut rest, "\n  Total calls: ");
    push_decimal(&mut rest, callgraph.edge_count());
    push(&mut rest, "\n\n=== Call Graph Details ===\n\n");
    details_section(&callgraph, table, &mut rest);
    closure_section(crate_name, &callgraph, table, &mut rest);
    spawn_section(&callgraph, &mut rest);
    let ghost r3 = rest@;
    lock_type_section(items, table, &mut rest);
    let ghost r4 = rest@;
    deadlock_section(items, table, &mut rest);
    let ghost r5 = rest@;
    push(&mut head, rest.as_str());
    assert(head@.subrange(0, h.len() as int) =~= h);
    proof {
        let lock_text = appended(r3, r4);
        let dl_text = appended(r4, r5);
        lemma_lock_text(items@, *table, r3, r4);
        lemma_deadlock_text(r4, r5);
        assert(head@ =~= demo_text(crate_name@, callgraph, lock_text, dl_text));
        assert(demo_report(crate_name@, items@, *table, callgraph, lock_text, dl_text, head@));
    }
    let r = Some(head);
    proof {
        assert(r matches Some(s) && demo_report(crate_name@, items@, *table, callgraph, appended(r3, r4), appended(r4, r5), s@));
    }
    r
}

/// What was appended to `a` to give `b`.
spec fn appended(a: Seq<char>, b: Seq<char>) -> Seq<char> {
    b.subrange(a.len() as int, b.len() as int)
}

/// What the lock type section appends is a lock type section.
proof fn lemma_lock_text(items: Seq<AnalyzedItem>, table: TyTable, r3: Seq<char>, r4: Seq<char>)
    requires
        exists|t: Seq<char>| #[trigger] lock_section_text(items, table, t) && r4 == r3 + t,
    ensures
        r3.len() <= r4.len(),
        r4 == r3 + r4.subrange(r3.len() as int, r4.len() as int),
        lock_section_text(items, table, r4.subrange(r3.len() as int, r4.len() as int)),
{
    let t = choose|t: Seq<char>| #[trigger] lock_section_text(items, table, t) && r4 == r3 + t;
    assert(r4.subrange(r3.len() as int, r4.len() as int) =~= t);
}

/// What the deadlock section appends is a deadlock section.
proof fn lemma_deadlock_text(r4: Seq<char>, r5: Seq<char>)
    requires
        exists|d: LockDetector, rs: Seq<LockReport>| #[trigger] fresh_detect(d, rs) && r5 == r4 + deadlock_section_of(rs),
    ensures
        r4.len() <= r5.len(),
        r5 == r4 + r5.subrange(r4.len() as int, r5.len() as int),
        deadlock_section_text(r5.subrange(r4.len() as int, r5.len() as int)),
{
    let (d, rs) = choose|d: LockDetector, rs: Seq<LockReport>| #[trigger] fresh_detect(d, rs) && r5 == r4 + deadlock_section_of(rs);
    assert(r5.subrange(r4.len() as int, r5.len() as int) =~= deadlock_section_of(rs));
    reveal(deadlock_section_text);
}

/// `t` is a lock type section of the crate's items: where a scan with the lock patterns
/// finds a lock, the heading and the scan's findings, the crate's collected lock types and
/// what the items' type collectors found; else the lines saying that no lock type was found.
#[verifier::opaque]
pub open spec fn lock_section_text(items: Seq<AnalyzedItem>, table: TyTable, t: Seq<char>) -> bool {
    exists|p: Seq<&'static str>|
        #[trigger] lock_patterns_ok(p) && if crate_locks(items, table, p) {
            exists|info: LockUsageInfo, tc: LockTypeCollector, vis: Seq<char>|
                #[trigger] usage_sources(items, table, p, info, tc, vis) && t == lock_usage_text(info, tc, vis)
        } else {
            t == no_lock_text()
        }
}

/// `t` is the deadlock section of what a new lock detector reports.
#[verifier::opaque]
pub open spec fn deadlock_section_text(t: Seq<char>) -> bool {
    exists|d: LockDetector, rs: Seq<LockReport>| #[trigger] fresh_detect(d, rs) && t == deadlock_section_of(rs)
}

/// The call graph report of the crate `name` over the call graph `cg`, with
/// the lock type section `lock_text` and the deadlock section `dl_text`.
pub open spec fn demo_text(name: Seq<char>, cg: CallGraph, lock_text: Seq<char>, dl_text: Seq<char>) -> Seq<char> {
    report_head(name) + decimal(cg.node_seq().len()) + "\n  Total calls: "@ + decimal(0) + "\n\n=== Call Graph Details ===\n\n"@
        + details_upto(cg, cg.node_seq().len() as int).0 + "\n=== Closure Summary ===\n\n"@ + missing_lines(expected_closures(name))
        + "\nFound "@ + decimal(0) + " out of "@ + decimal(expected_closures(name).len()) + " expected closures\n"@
        + "\n=== Thread Spawn Summary ===\n\n"@ + "Total thread::spawn calls found: "@ + decimal(
        spawn_count(cg.node_seq(), cg.node_seq().len() as int),
    ) + "\n"@ + lock_text + dl_text
}

/// `s` is the report of the crate `name` whose items are `items`: over a
/// call graph with a node for each item and no call edges, its lock type
/// section and its deadlock section.
pub open spec fn demo_report(
    name: Seq<char>,
    items: Seq<AnalyzedItem>,
    table: TyTable,
    cg: CallGraph,
    lock_text: Seq<char>,
    dl_text: Seq<char>,
    s: Seq<char>,
) -> bool {
    &&& cg.wf()
    &&& cg.no_edges()
    &&& forall|i: int| 0 <= i < items.len() ==> cg.has_node(MonoItem::Instance((#[trigger] items[i]).instance))
    &&& lock_section_text(items, table, lock_text)
    &&& deadlock_section_text(dl_text)
    &&& s == demo_text(name, cg, lock_text, dl_text)
}

/// The debug line of an item of code generation.
fn mono_debug(m: &MonoItem) -> (r: String)
    ensures
        r@ == match *m {
            MonoItem::Instance(inst) => "Instance(Instance { def: "@ + decimal(inst.def as nat) + ", args: [..] })"@,
            MonoItem::Static(st) => "Static(StaticDef { def: "@ + decimal(st.def as nat) + " })"@,
        },
{
    let mut out = String::new();
    match m {
        MonoItem::Instance(inst) => {
            push(&mut out, "Instance(Instance { def: ");
            push_decimal(&mut out, inst.def);
            push(&mut out, ", args: [..] })");
        },
        MonoItem::Static(s) => {
            push(&mut out, "Static(StaticDef { def: ");
            push_decimal(&mut out, s.def);
            push(&mut out, " })");
        },
    }
    out
}

/// The lines listing the items of the crate `static_ref`: its name, each
/// function and static that has an instance (with the blocks and callees of
/// a function's body), each constant, and how many items were listed;
/// nothing for other crates.
pub fn demo_analysis(crate_name: &str, items: &[CrateItem], table: &TyTable) -> (r: Option<Vec<String>>)
    ensures
        r is Some <==> crate_name@ == "static_ref"@,
        r matches Some(lines) ==> lines@.len() >= 2 && lines@[0]@ == "crate: "@ + crate_name@,
        r matches Some(lines) ==> views(lines@) == seq!["crate: "@ + crate_name@, "local_cnt: "@ + decimal(0)],
{
    if !crate::text::str_eq(crate_name, "static_ref") {
        return None;
    }
    let mut lines: Vec<String> = Vec::new();
    let mut first = String::new();
    push(&mut first, "crate: ");
    push(&mut first, crate_name);
    lines.push(first);
    let mut local_cnt: usize = 0;
    let mut i: usize = 0;
    while i < items.len()
        invariant
            i <= items@.len(),
            lines@.len() == 1,
            lines@[0]@ == "crate: "@ + crate_name@,
            local_cnt == 0,
        decreases items@.len() - i,
    {
        let item = items[i];
        match item.kind() {
            ItemKind::Fn => match Instance::try_from(item) {
                Ok(instance) => {
                    let x = MonoItem::Instance(instance);
                    lines.push(mono_debug(&x));
                    local_cnt = local_cnt + 1;
                    match item.body() {
                        Some(body) => {
                            let mut l = String::new();
                            push(&mut l, "  - Body has ");
                            push_decimal(&mut l, body.basic_blocks().len());
                            push(&mut l, " basic blocks");
                            lines.push(l);
                        },
                        None => {},
                    }
                },
                Err(_) => {},
            },
            ItemKind::Static => match StaticDef::try_from(item) {
                Ok(static_def) => {
                    let y = MonoItem::Static(static_def);
                    lines.push(mono_debug(&y));
                    local_cnt = local_cnt + 1;
                },
                Err(_) => {},
            },
            ItemKind::Const => {
                let mut l = String::new();
                push(&mut l, "const CrateItem { def_id: ");
                push_decimal(&mut l, item.def_id);
                push(&mut l, " }");
                lines.push(l);
            },
            _ => {},
        }
        i = i + 1;
    }
    let mut last = String::new();
    push(&mut last, "local_cnt: ");
    push_decimal(&mut last, local_cnt);
    lines.push(last);
    assert(views(lines@) =~= seq!["crate: "@ + crate_name@, "local_cnt: "@ + decimal(0)]);
    Some(lines)
}

} // verus!
