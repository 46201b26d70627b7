use obol::cli::{cargo_invocation, config_from_cli, parse_kinds, split_trimmed, subcommand_args, LockbudCli};
use obol::lockbud::callgraph::CallGraph;
use obol::lockbud::channel::{
    classify_channel_api, detect_missing_sends, ChannelApi, ChannelId, EndpointId, EndpointKind, EndpointLifetime,
};
use obol::lockbud::config::{DetectorKind, LockbudConfig};
use obol::lockbud::debug_print::print_all_calls;
use obol::lockbud::double_lock::{self, DfsEvent};
use obol::lockbud::memory::{detect_use_after_free, collect_uninit_callsites, detect_invalid_free};
use obol::lockbud::panic::detect_panics;
use obol::lockbud::report::Report;
use obol::lockbud::types::{LockGuardId, Location};
use obol::lockbud::engine::LiveSet;
use obol::lockbud::ullbc::{
    BlockData, Call, ExprBody, FnOperand, FunDecl, LiteralTy, LocalDecl, Name, Operand, PathElem, Place, PlaceKind,
    Rvalue, Span, Statement, StatementKind, Terminator, TerminatorKind, TranslatedCrate, Ty, TyKind,
};
use obol::lockbud::{report_counts, run};
use obol::stable_analysis::callgraph::{CallGraph as StableCallGraph, CollectionReason};
use obol::stable_demo::demo_callgraph;
use obol::stable_mir::mir::{Instance, MonoItem};
use obol::stable_mir::ty::TyTable;
use obol::text::decimal_string;
use obol::ObolError;

fn span(line: usize) -> Span {
    Span { file_id: 0, beg_line: line, beg_col: 1, end_line: line, end_col: 9 }
}

fn name(path: &str) -> Name {
    Name { name: path.split("::").map(|s| PathElem::Ident(s.to_string())).collect() }
}

fn other_ty(id: usize) -> Ty {
    Ty { id, kind: TyKind::Other }
}

fn local(l: usize, id: usize) -> Place {
    Place { kind: PlaceKind::Local(l), ty: other_ty(id) }
}

fn decl(path: &str) -> Option<FunDecl> {
    Some(FunDecl { name: name(path), is_local: false, body: None })
}

fn call_block(callee: usize, args: Vec<Operand>, dest: Place, target: usize, unwind: usize, line: usize) -> BlockData {
    BlockData {
        statements: Vec::new(),
        terminator: Terminator {
            kind: TerminatorKind::Call { call: Call { func: FnOperand::Fun(callee), args, dest }, target, on_unwind: unwind },
            span: span(line),
        },
    }
}

fn return_block() -> BlockData {
    BlockData { statements: Vec::new(), terminator: Terminator { kind: TerminatorKind::Return, span: span(99) } }
}

fn locals(n: usize) -> Vec<LocalDecl> {
    (0..n).map(|i| LocalDecl { ty: other_ty(100 + i), span: span(1) }).collect()
}

fn krate(fun_decls: Vec<Option<FunDecl>>) -> TranslatedCrate {
    TranslatedCrate { fun_decls, type_decls: Vec::new(), ty_texts: Vec::new() }
}

/// A crate whose `main` calls `lock` twice on the same local.
fn double_lock_crate() -> TranslatedCrate {
    let body = ExprBody {
        locals: locals(4),
        body: vec![
            call_block(0, vec![Operand::Move(local(1, 101))], local(2, 102), 1, 2, 10),
            call_block(0, vec![Operand::Move(local(1, 101))], local(3, 103), 2, 2, 11),
            return_block(),
        ],
    };
    krate(vec![
        decl("std::sync::Mutex::lock"),
        Some(FunDecl { name: name("demo::main"), is_local: true, body: Some(body) }),
    ])
}

#[test]
fn obol_error_messages() {
    assert_eq!(ObolError::RustcError.message(), "Code failed to compile");
    assert_eq!(ObolError::ObolError(3).message(), "Obol failed to translate this code (3 errors)");
    assert_eq!(ObolError::Panic.message(), "Compilation panicked");
    assert_eq!(ObolError::Serialize.message(), "Could not serialize output file");
}

#[test]
fn decimal_text() {
    assert_eq!(decimal_string(0), "0");
    assert_eq!(decimal_string(1234), "1234");
}

#[test]
fn detector_kind_names() {
    assert_eq!(DetectorKind::from_str("deadlock"), Some(DetectorKind::Deadlock));
    assert_eq!(DetectorKind::from_str("atomicity"), Some(DetectorKind::AtomicityViolation));
    assert_eq!(DetectorKind::from_str("atomicity_violation"), Some(DetectorKind::AtomicityViolation));
    assert_eq!(DetectorKind::from_str("channel"), Some(DetectorKind::Channel));
    assert_eq!(DetectorKind::from_str("Deadlock"), None);
}

#[test]
fn config_filters() {
    let mut c = LockbudConfig::new();
    assert!(c.is_kind_enabled(DetectorKind::Panic));
    assert!(c.is_crate_allowed("anything"));
    c.kinds = vec![DetectorKind::Memory];
    assert!(c.is_kind_enabled(DetectorKind::Memory));
    assert!(!c.is_kind_enabled(DetectorKind::Panic));
    c.crate_whitelist = Some(vec!["a".to_string(), "b".to_string()]);
    assert!(c.is_crate_allowed("a"));
    assert!(!c.is_crate_allowed("c"));
    c.crate_blacklist = Some(vec!["a".to_string()]);
    assert!(!c.is_crate_allowed("a"));
}

#[test]
fn comma_lists() {
    assert_eq!(split_trimmed(" a, b ,,c "), vec!["a", "b", "", "c"]);
    assert_eq!(split_trimmed(""), vec![""]);
    assert_eq!(parse_kinds("deadlock, panic,bogus"), vec![DetectorKind::Deadlock, DetectorKind::Panic]);
}

#[test]
fn config_from_options() {
    let opts = LockbudCli {
        kind: Some("memory,channel".to_string()),
        crate_list: Some("x, y".to_string()),
        blacklist: true,
        report_file: Some("out.json".to_string()),
        dest_file: None,
        cargo_args: Vec::new(),
    };
    let c = config_from_cli(&opts);
    assert_eq!(c.kinds, vec![DetectorKind::Memory, DetectorKind::Channel]);
    assert_eq!(c.crate_blacklist, Some(vec!["x".to_string(), "y".to_string()]));
    assert_eq!(c.crate_whitelist, None);
    assert_eq!(c.report_file, Some("out.json".to_string()));
}

#[test]
fn cargo_subcommand_arguments() {
    let args = vec!["cargo-lockbud".to_string(), "lockbud".to_string(), "-k".to_string(), "panic".to_string()];
    assert_eq!(subcommand_args(args.clone(), true), vec!["lockbud", "-k", "panic"]);
    assert_eq!(subcommand_args(args.clone(), false), args);
    assert_eq!(subcommand_args(vec!["x".to_string()], true), vec!["lockbud"]);
}

#[test]
fn cargo_invocations() {
    let inv = cargo_invocation(&vec!["--lib".to_string()], "x86_64-unknown-linux-gnu");
    assert_eq!(inv.args, vec!["test", "--no-run", "--target", "x86_64-unknown-linux-gnu", "--lib"]);
    assert!(inv.building_test);
    let inv = cargo_invocation(&vec!["--target".to_string(), "t".to_string()], "h");
    assert_eq!(inv.args, vec!["build", "--target", "t"]);
    assert!(!inv.building_test);
}

#[test]
fn live_set_operations() {
    let mut s: LiveSet<LockGuardId> = LiveSet::new();
    let a = LockGuardId { fun_id: 1, local: 2 };
    let b = LockGuardId { fun_id: 1, local: 3 };
    assert!(s.insert(a));
    assert!(!s.insert(a));
    assert!(s.contains(&a));
    assert!(!s.contains(&b));
}

#[test]
fn call_graph_reachability() {
    let k = double_lock_crate();
    let g = CallGraph::build(&k);
    assert!(g.has_edge(1, 0));
    assert!(!g.has_edge(0, 1));
    assert!(g.can_reach(1, 0));
    assert!(!g.can_reach(0, 1));
    assert_eq!(g.callees(1), vec![0]);
    assert_eq!(g.callers(0), vec![1]);
}

#[test]
fn quick_double_lock_search() {
    let k = double_lock_crate();
    let funs = double_lock::detect(&k);
    assert_eq!(funs.len(), 1);
    assert_eq!(funs[0].fun_id, 1);
    assert_eq!(funs[0].fun_name, "demo::main");
    let doubles: Vec<_> = funs[0].events.iter().filter(|e| matches!(e, DfsEvent::DoubleLock { .. })).collect();
    assert_eq!(doubles.len(), 1);
    match doubles[0] {
        DfsEvent::DoubleLock { block, receiver, held_guard, .. } => {
            assert_eq!(*block, 1);
            assert_eq!(*receiver, 1);
            assert_eq!(*held_guard, 2);
        }
        _ => unreachable!(),
    }
    let entries = funs[0].events.iter().filter(|e| matches!(e, DfsEvent::BlockEnter { .. })).count();
    assert_eq!(entries, 3);
}

#[test]
fn lock_call_listing() {
    let k = double_lock_crate();
    let lines = print_all_calls(&k);
    assert_eq!(lines.len(), 4);
    assert_eq!(lines[0], "  [CALL in demo::main block 0] -> std::sync::Mutex::lock");
    assert_eq!(lines[1], "       dest local 2 ty: ?");
}

#[test]
fn panics_are_reported() {
    let body = ExprBody {
        locals: locals(2),
        body: vec![call_block(0, vec![Operand::Move(local(1, 101))], local(0, 100), 1, 1, 7), return_block()],
    };
    let k = krate(vec![
        decl("core::option::Option::unwrap"),
        Some(FunDecl { name: name("demo::f"), is_local: true, body: Some(body) }),
    ]);
    let reports = detect_panics(&k);
    assert_eq!(reports.len(), 1);
    match &reports[0] {
        Report::Panic(c) => {
            assert_eq!(c.bug_kind, "Panic");
            assert_eq!(c.diagnosis.panic_api, "Option::unwrap");
            assert_eq!(c.diagnosis.fn_name, "demo::f");
            assert_eq!(c.diagnosis.callsite_span, "0:7:1-7:9");
        }
        _ => panic!("not a panic report"),
    }
}

#[test]
fn use_after_free_is_reported() {
    let raw = Ty { id: 7, kind: TyKind::RawPtr(Box::new(Ty { id: 8, kind: TyKind::Literal(LiteralTy::Int) })) };
    let body = ExprBody {
        locals: vec![
            LocalDecl { ty: other_ty(100), span: span(1) },
            LocalDecl { ty: raw, span: span(1) },
            LocalDecl { ty: other_ty(102), span: span(1) },
        ],
        body: vec![
            BlockData {
                statements: vec![Statement {
                    kind: StatementKind::Assign(local(1, 7), Rvalue::RawPtr(local(2, 102))),
                    span: span(3),
                }],
                terminator: Terminator {
                    kind: TerminatorKind::Drop { place: local(2, 102), target: 1, on_unwind: 2 },
                    span: span(4),
                },
            },
            call_block(0, vec![Operand::Copy(local(1, 7))], local(0, 100), 2, 2, 5),
            return_block(),
        ],
    };
    let k = krate(vec![decl("demo::use_ptr"), Some(FunDecl { name: name("demo::g"), is_local: true, body: Some(body) })]);
    let reports = detect_use_after_free(&k);
    assert_eq!(reports.len(), 1);
    match &reports[0] {
        Report::UseAfterFree(c) => {
            assert_eq!(c.diagnosis.raw_ptr_local, 1);
            assert_eq!(c.diagnosis.use_span, "0:5:1-5:9");
            assert_eq!(c.diagnosis.drop_span, "0:4:1-4:9");
        }
        _ => panic!("not a use-after-free report"),
    }
}

#[test]
fn no_uninit_calls_no_invalid_free() {
    let k = double_lock_crate();
    let sites = collect_uninit_callsites(&k);
    assert!(sites.is_empty());
    assert!(detect_invalid_free(&k, &sites).is_empty());
}

#[test]
fn channel_api_names() {
    let k = krate(vec![
        decl("std::sync::mpsc::sync_channel"),
        decl("std::sync::mpsc::channel"),
        decl("std::sync::mpsc::Sender::send"),
        decl("std::sync::mpsc::Receiver::recv"),
        decl("demo::other"),
    ]);
    assert_eq!(classify_channel_api(&FnOperand::Fun(0), &k), Some(ChannelApi::SyncChannel));
    assert_eq!(classify_channel_api(&FnOperand::Fun(1), &k), Some(ChannelApi::Channel));
    assert_eq!(classify_channel_api(&FnOperand::Fun(2), &k), Some(ChannelApi::Send));
    assert_eq!(classify_channel_api(&FnOperand::Fun(3), &k), Some(ChannelApi::Recv));
    assert_eq!(classify_channel_api(&FnOperand::Fun(4), &k), None);
    assert_eq!(classify_channel_api(&FnOperand::Dynamic, &k), None);
}

#[test]
fn senders_that_never_send() {
    let lt = |moved: bool, syncs: usize| EndpointLifetime {
        creation_loc: (0, Location::new(0, 0)),
        drop_locs: Vec::new(),
        sync_locs: (0..syncs).map(|i| (0, Location::new(i, 0))).collect(),
        escapes: false,
        moved_to_thread: moved,
    };
    let sender = |c: usize| EndpointId { channel: ChannelId(c), kind: EndpointKind::Sender };
    let receiver = |c: usize| EndpointId { channel: ChannelId(c), kind: EndpointKind::Receiver };
    let lifetimes = vec![
        (sender(0), lt(true, 0)),
        (receiver(0), lt(true, 0)),
        (sender(1), lt(true, 1)),
        (receiver(1), lt(false, 0)),
        (sender(2), lt(false, 0)),
    ];
    let k = krate(Vec::new());
    let reports = detect_missing_sends(&k, &Vec::new(), &Vec::new(), &Vec::new(), &lifetimes);
    assert_eq!(reports.len(), 1);
    match &reports[0] {
        Report::MissingSend(c) => {
            assert_eq!(c.bug_kind, "MissingSend");
            assert_eq!(c.diagnosis.sender_span, "creation site");
        }
        _ => panic!("not a missing send report"),
    }
}

#[test]
fn run_counts_add_up() {
    let k = double_lock_crate();
    let reports = run(&k);
    let c = report_counts(&reports);
    let total = c.doublelock + c.conflictlock + c.condvar_deadlock + c.atomicity + c.invalid_free + c.use_after_free
        + c.panic + c.channel_deadlock + c.orphan_sender + c.missing_send;
    assert_eq!(total, reports.len());
}

#[test]
fn stable_graph_edges() {
    let a = MonoItem::Instance(Instance::new(1, Vec::new()));
    let b = MonoItem::Instance(Instance::new(2, Vec::new()));
    let mut g = StableCallGraph::new();
    g.add_edge(&a, &b, CollectionReason::DirectCall, None);
    g.add_edge(&a, &b, CollectionReason::Drop, None);
    assert_eq!(g.node_count(), 2);
    assert_eq!(g.edge_count(), 2);
    assert_eq!(g.successors(&a), vec![b.clone()]);
    assert_eq!(g.predecessors(&b), vec![a.clone()]);
    assert!(g.successors(&b).is_empty());
    let table = TyTable { texts: Vec::new(), kinds: Vec::new(), def_texts: Vec::new() };
    assert_eq!(
        g.dump_dot(&table),
        "digraph CallGraph {\n  \"\";\n  \"\" -> \"\" [label=direct];\n  \"\" -> \"\" [label=drop];\n  \"\";\n}"
    );
}

#[test]
fn collection_reason_texts() {
    assert_eq!(CollectionReason::DirectCall.text(), "direct");
    assert_eq!(CollectionReason::IndirectCall.text(), "indirect");
    assert_eq!(CollectionReason::Drop.text(), "drop");
    assert_eq!(CollectionReason::ClosureCreation.text(), "closure_creation");
}

#[test]
fn demo_report_is_gated_by_crate_name() {
    let table = TyTable { texts: Vec::new(), kinds: Vec::new(), def_texts: Vec::new() };
    assert!(demo_callgraph("unrelated", &[], &table).is_none());
    let out = demo_callgraph("static-ref", &[], &table).expect("selected crate");
    assert!(out.starts_with("=== Stable Call Graph Analysis ===\nCrate: static-ref\n\nCall Graph Statistics:\n  Total functions: 0\n  Total calls: 0\n"));
    assert!(out.contains("Found 0 out of 0 expected closures"));
    assert!(out.contains("Total potential deadlocks found: 0"));
    let out = demo_callgraph("lock-closure", &[], &table).expect("selected crate");
    assert!(out.contains("✗ Missing closure: two_closures::{closure#1}"));
    assert!(out.contains("Found 0 out of 3 expected closures"));
}
