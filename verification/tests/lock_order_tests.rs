use obol::stable_analysis::lock_detector::LockGraph;
use obol::stable_analysis::lock_types::{MirLocation, MirVisitorTypeCollector};
use obol::stable_demo::demo_analysis;
use obol::stable_mir::crate_def::Span;
use obol::stable_mir::mir::body::Body;
use obol::stable_mir::ty::TyTable;

fn empty_table() -> TyTable {
    TyTable { texts: Vec::new(), kinds: Vec::new(), def_texts: Vec::new() }
}

#[test]
fn lock_graph_one_way_edge_has_no_cycle() {
    let mut g = LockGraph::new();
    g.add_edge("A".to_string(), "B".to_string(), MirLocation::new(0, 0));
    assert!(g.find_cycles().is_empty());
}

#[test]
fn lock_graph_edges_both_ways_form_a_cycle() {
    let mut g = LockGraph::new();
    g.add_edge("A".to_string(), "B".to_string(), MirLocation::new(0, 0));
    g.add_edge("B".to_string(), "A".to_string(), MirLocation::new(1, 2));
    let cycles = g.find_cycles();
    assert_eq!(cycles, vec![vec!["A".to_string(), "B".to_string()]]);
}

#[test]
fn lock_graph_chain_without_back_edge_has_no_cycle() {
    let mut g = LockGraph::new();
    g.add_edge("A".to_string(), "B".to_string(), MirLocation::new(0, 0));
    g.add_edge("B".to_string(), "C".to_string(), MirLocation::new(0, 1));
    g.add_edge("A".to_string(), "C".to_string(), MirLocation::new(0, 2));
    assert!(g.find_cycles().is_empty());
}

#[test]
fn lock_graph_three_lock_cycle_is_found() {
    let mut g = LockGraph::new();
    g.add_edge("A".to_string(), "B".to_string(), MirLocation::new(0, 0));
    g.add_edge("B".to_string(), "C".to_string(), MirLocation::new(0, 1));
    g.add_edge("C".to_string(), "A".to_string(), MirLocation::new(0, 2));
    let cycles = g.find_cycles();
    assert_eq!(cycles, vec![vec!["A".to_string(), "B".to_string(), "C".to_string()]]);
}

#[test]
fn fresh_type_collector_summary_is_the_instance_line() {
    let body = Body::new(Vec::new(), Vec::new(), 0, Vec::new(), None, Span::dummy());
    let table = empty_table();
    let c = MirVisitorTypeCollector::new(&body, "my_fn".to_string(), &table);
    assert!(!c.has_lock_types());
    assert!(c.lock_signatures().is_empty());
    assert!(c.guard_signatures().is_empty());
    assert!(c.locals_with_locks().is_empty());
    assert!(c.locals_with_guards().is_empty());
    assert_eq!(c.format_summary(), "Instance: my_fn\n");
}

#[test]
fn demo_analysis_lists_only_the_crate_and_the_count() {
    let table = empty_table();
    let lines = demo_analysis("static_ref", &[], &table).unwrap();
    assert_eq!(lines, vec!["crate: static_ref".to_string(), "local_cnt: 0".to_string()]);
    assert!(demo_analysis("other", &[], &table).is_none());
}
