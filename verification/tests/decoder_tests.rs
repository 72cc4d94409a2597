use qldpc_sim::decoder::bp::{BpMethod, BpSchedule, TannerGraph};
use qldpc_sim::math::sparse_matrix::BinarySparseMatrix;

#[test]
fn test_tanner_graph_edges() {
    let h = BinarySparseMatrix::from_row_adj(2, 3, vec![vec![0, 1], vec![1, 2]]).unwrap();
    let graph = TannerGraph::from_matrix(&h);
    assert_eq!(graph.check_count, 2);
    assert_eq!(graph.bit_count, 3);
    assert_eq!(graph.num_edges(), 4);
    assert_eq!(graph.edge_checks, vec![0, 0, 1, 1]);
    assert_eq!(graph.edge_bits, vec![0, 1, 1, 2]);
    assert_eq!(graph.row_edges, vec![vec![0, 1], vec![2, 3]]);
    assert_eq!(graph.col_edges, vec![vec![0], vec![1, 2], vec![3]]);
}

#[test]
fn test_tanner_graph_shor_x_checks() {
    let hx = BinarySparseMatrix::from_row_adj(
        2,
        9,
        vec![vec![0, 1, 2, 3, 4, 5], vec![3, 4, 5, 6, 7, 8]],
    )
    .unwrap();
    let graph = TannerGraph::from_matrix(&hx);
    assert_eq!(graph.num_edges(), 12);
    // Columns 3..6 sit on both checks; their edge lists pair a first-row
    // edge with a second-row edge.
    assert_eq!(graph.col_edges[3], vec![3, 6]);
    assert_eq!(graph.edge_checks[3], 0);
    assert_eq!(graph.edge_checks[6], 1);
    assert_eq!(graph.edge_bits[3], 3);
    assert_eq!(graph.edge_bits[6], 3);
}

#[test]
fn test_bp_configuration_enums() {
    assert_eq!(BpMethod::ProductSum, BpMethod::ProductSum);
    assert_ne!(BpMethod::ProductSum, BpMethod::MinimumSum);
    assert_eq!(BpSchedule::Parallel, BpSchedule::Parallel);
    assert_ne!(BpSchedule::Serial, BpSchedule::SerialRelative);
}
