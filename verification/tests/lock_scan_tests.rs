use obol::stable_analysis::lock_detector::LockDetector;
use obol::stable_analysis::lock_types::{AnalyzedItem, LockKind, LockTypeCollector};
use obol::stable_analysis::lock_types_quick::QuickLockScanner;
use obol::stable_demo::demo_callgraph;
use obol::stable_mir::crate_def::Span;
use obol::stable_mir::mir::{Body, Instance, LocalDecl};
use obol::stable_mir::ty::{Mutability, Ty, TyTable};

fn table() -> TyTable {
    TyTable {
        texts: vec!["i32".to_string(), "std::sync::Mutex<i32>".to_string(), "parking_lot::RwLock<u8>".to_string()],
        kinds: Vec::new(),
        def_texts: Vec::new(),
    }
}

fn item(name: &str, def: usize, tys: &[usize]) -> AnalyzedItem {
    let locals: Vec<LocalDecl> =
        tys.iter().map(|&t| LocalDecl { ty: Ty::new(t, 0), span: Span::dummy(), mutability: Mutability::Not }).collect();
    AnalyzedItem {
        instance: Instance::new(def, Vec::new()),
        name: name.to_string(),
        body: Body::new(Vec::new(), locals, 0, Vec::new(), None, Span::dummy()),
    }
}

#[test]
fn quick_check_agrees_with_scan() {
    let table = table();
    let scanner = QuickLockScanner::new();
    let with_locks = vec![item("a", 0, &[0]), item("b", 1, &[0, 1])];
    assert!(scanner.crate_uses_locks(&with_locks, &table));
    let info = scanner.scan_lock_types(&with_locks, &table);
    assert!(info.has_locks);
    assert_eq!(info.instances_with_locks, vec!["b".to_string()]);
    assert_eq!(info.lock_types_found, vec!["std::sync::Mutex<i32>".to_string()]);
    let without = vec![item("a", 0, &[0])];
    assert!(!scanner.crate_uses_locks(&without, &table));
    assert!(!scanner.scan_lock_types(&without, &table).has_locks);
}

#[test]
fn collected_lock_types_add_up() {
    let table = table();
    let mut c = LockTypeCollector::new();
    c.analyze_crate(&[item("f", 0, &[1, 0, 2]), item("g", 1, &[1])], &table);
    assert_eq!(c.all_lock_types.len(), 3);
    let listed: usize = c.instance_locks.iter().map(|e| e.1.len()).sum();
    assert_eq!(listed, c.all_lock_types.len());
    assert_eq!(c.all_lock_types[0].library, "std");
    assert_eq!(c.all_lock_types[0].kind, LockKind::Mutex);
    assert_eq!(c.all_lock_types[1].library, "parking_lot");
    assert_eq!(c.all_lock_types[1].kind, LockKind::RwLock);
    assert!(c.all_guard_types.is_empty());
    c.analyze_crate(&[], &table);
    assert_eq!(c.all_lock_types.len(), 3);
}

#[test]
fn new_detector_reports_nothing() {
    let table = table();
    let mut d = LockDetector::new();
    let reports = d.detect(&[item("f", 0, &[1, 2])], &table);
    assert!(reports.is_empty());
    assert!(d.report_list().is_empty());
}

#[test]
fn lock_section_lists_the_scan() {
    let table = table();
    let items = vec![item("f", 0, &[1]), item("g", 1, &[0])];
    let out = demo_callgraph("static-ref", &items, &table).expect("selected crate");
    assert!(out.contains("Lock usage detected!\nFunctions using locks: 1\nUnique lock types found: 1\n\nFunctions:\n  - f\n\n"));
    assert!(out.contains("\n--- MirVisitor Type Collection ---\n(Finds types in expressions, not just locals)\n\n"));
    assert!(out.ends_with("\n=== Lock Deadlock Detection ===\n\nTotal potential deadlocks found: 0\n"));
}
