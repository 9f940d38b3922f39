use emmy_noether::{EdgeClass, LinkKind, ModuleGraph, ModuleId, PhysicalQubitId};

fn q(module: u32, local_index: u32) -> PhysicalQubitId {
    PhysicalQubitId { module: ModuleId(module), local_index }
}

#[test]
fn links_of_filters_by_module() {
    let mut g = ModuleGraph::new();
    let a = PhysicalQubitId { module: ModuleId(0), local_index: 0 };
    let b = PhysicalQubitId { module: ModuleId(1), local_index: 0 };
    g.add_inter_module_link(a, b, LinkKind::NearField);
    assert_eq!(g.links_of(ModuleId(0)).len(), 1);
    assert_eq!(g.links_of(ModuleId(2)).len(), 0);
}

#[test]
fn add_qubit_hands_out_consecutive_indices() {
    let mut g = ModuleGraph::new();
    assert_eq!(g.add_qubit(q(0, 0)).index(), 0);
    assert_eq!(g.add_qubit(q(0, 1)).index(), 1);
    assert_eq!(g.add_qubit(q(3, 0)).index(), 2);
    assert_eq!(g.inner().node_count(), 3);
}

#[test]
fn add_qubit_twice_adds_nothing() {
    let mut g = ModuleGraph::new();
    let first = g.add_qubit(q(2, 7));
    g.add_qubit(q(2, 8));
    let again = g.add_qubit(q(2, 7));
    assert_eq!(first, again);
    assert_eq!(again.index(), 0);
    assert_eq!(g.inner().node_count(), 2);
}

#[test]
fn qubits_with_same_local_index_in_other_modules_are_distinct() {
    let mut g = ModuleGraph::new();
    assert_eq!(g.add_qubit(q(0, 5)).index(), 0);
    assert_eq!(g.add_qubit(q(1, 5)).index(), 1);
    assert_eq!(g.add_qubit(q(5, 0)).index(), 2);
    assert_eq!(g.add_qubit(q(u32::MAX, u32::MAX)).index(), 3);
    assert_eq!(g.add_qubit(q(1, 5)).index(), 1);
}

#[test]
fn edges_register_their_qubits() {
    let mut g = ModuleGraph::new();
    g.add_local_edge(q(0, 0), q(0, 1));
    g.add_local_edge(q(0, 1), q(0, 2));
    g.add_inter_module_link(q(0, 2), q(1, 0), LinkKind::Photonic);
    let inner = g.inner();
    assert_eq!(inner.node_count(), 4);
    assert_eq!(inner.edge_count(), 3);
    let weights: Vec<EdgeClass> = inner.edge_weights().cloned().collect();
    assert_eq!(
        weights,
        vec![EdgeClass::Local, EdgeClass::Local, EdgeClass::InterModule(LinkKind::Photonic)]
    );
}

#[test]
fn links_of_lists_both_ends_in_order_and_skips_local_edges() {
    let mut g = ModuleGraph::new();
    g.add_local_edge(q(0, 0), q(0, 1));
    g.add_inter_module_link(q(0, 1), q(1, 0), LinkKind::NearField);
    g.add_inter_module_link(q(2, 0), q(0, 0), LinkKind::Photonic);
    g.add_local_edge(q(1, 0), q(1, 1));
    g.add_inter_module_link(q(1, 1), q(2, 1), LinkKind::NearField);

    assert_eq!(g.links_of(ModuleId(0)), vec![(q(0, 1), q(1, 0)), (q(2, 0), q(0, 0))]);
    assert_eq!(g.links_of(ModuleId(1)), vec![(q(0, 1), q(1, 0)), (q(1, 1), q(2, 1))]);
    assert_eq!(g.links_of(ModuleId(2)), vec![(q(2, 0), q(0, 0)), (q(1, 1), q(2, 1))]);
    assert!(g.links_of(ModuleId(3)).is_empty());
}

#[test]
fn links_of_only_local_edges_is_empty() {
    let mut g = ModuleGraph::new();
    g.add_local_edge(q(0, 0), q(0, 1));
    g.add_local_edge(q(0, 1), q(0, 0));
    assert!(g.links_of(ModuleId(0)).is_empty());
}

#[test]
fn default_graph_is_empty() {
    let g = ModuleGraph::default();
    assert_eq!(g.inner().node_count(), 0);
    assert_eq!(g.inner().edge_count(), 0);
    assert!(g.links_of(ModuleId(0)).is_empty());
}

#[test]
fn edge_endpoints_are_the_registered_node_indices() {
    let mut g = ModuleGraph::new();
    g.add_qubit(q(4, 4));
    g.add_inter_module_link(q(1, 0), q(4, 4), LinkKind::NearField);
    let inner = g.inner();
    let e = inner.edge_indices().next().unwrap();
    let (a, b) = inner.edge_endpoints(e).unwrap();
    assert_eq!((a.index(), b.index()), (1, 0));
    assert_eq!(inner[a], q(1, 0));
    assert_eq!(inner[b], q(4, 4));
}

#[test]
fn module_ids_order_by_number() {
    assert!(ModuleId(1) < ModuleId(2));
    assert_eq!(LinkKind::NearField, LinkKind::NearField);
    assert_ne!(LinkKind::NearField, LinkKind::Photonic);
}

#[test]
fn add_qubit_index_names_the_qubit_in_inner() {
    let mut g = ModuleGraph::new();
    let qs = [q(0, 0), q(1, 0), q(0, 1), q(2, 9)];
    let idx: Vec<_> = qs.iter().map(|&x| g.add_qubit(x)).collect();
    for (i, ix) in idx.iter().enumerate() {
        assert_eq!(ix.index(), i);
        assert_eq!(g.inner()[*ix], qs[i]);
        for (j, other) in idx.iter().enumerate() {
            assert_eq!(i == j, ix == other);
        }
    }
    let again = g.add_qubit(q(1, 0));
    assert_eq!(again, idx[1]);
    assert_eq!(g.inner()[again], q(1, 0));
}
