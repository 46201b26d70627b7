use obol::lockbud::conflict_graph::ConflictLockGraph;
use obol::lockbud::types::{DeadlockPossibility, LockGuardId};

fn relation(f: usize, a: usize, b: usize) -> (LockGuardId, LockGuardId) {
    (LockGuardId::new(f, a), LockGuardId::new(f, b))
}

#[test]
fn conflict_graph_keeps_nodes_by_index() {
    let mut g = ConflictLockGraph::new();
    assert_eq!(g.node_count(), 0);
    let n0 = g.add_node(relation(0, 1, 2));
    let n1 = g.add_node(relation(1, 3, 4));
    assert_eq!((n0, n1), (0, 1));
    assert_eq!(g.node_count(), 2);
    assert_eq!(g.node_weight(1), Some(&relation(1, 3, 4)));
    assert_eq!(g.node_weight(0), Some(&relation(0, 1, 2)));
    assert_eq!(g.node_weight(2), None);
}

#[test]
fn conflict_graph_finds_each_cycle_once() {
    let mut g = ConflictLockGraph::new();
    for k in 0..3 {
        g.add_node(relation(k, 0, 1));
    }
    g.add_edge(0, 1, DeadlockPossibility::Possibly);
    g.add_edge(1, 2, DeadlockPossibility::Possibly);
    g.add_edge(2, 0, DeadlockPossibility::Probably);
    g.add_edge(1, 0, DeadlockPossibility::Possibly);
    let cycles = g.simple_cycles();
    assert_eq!(cycles, vec![vec![0, 1, 2], vec![0, 1]]);
}

#[test]
fn conflict_graph_without_edges_has_no_cycles() {
    let mut g = ConflictLockGraph::new();
    g.add_node(relation(0, 0, 1));
    g.add_node(relation(0, 1, 0));
    assert!(g.simple_cycles().is_empty());
}
