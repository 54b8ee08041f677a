use quip_solver_core::coefficient::{Fixed, Milli};
use quip_solver_core::{CsrGraph, IsingGraph};

fn milli(values: &[f64]) -> Vec<Milli> {
    values.iter().map(|v| Fixed((v * 1000.0).round() as i32)).collect()
}

fn graph(h: &[f64], j: &[f64], edges: Vec<(usize, usize)>) -> CsrGraph<Milli> {
    CsrGraph::from_base(&IsingGraph::new(milli(h), milli(j), edges))
}

fn units(values: &[Milli]) -> Vec<f64> {
    values.iter().map(|c| f64::from(c.0) / 1000.0).collect()
}

#[test]
fn csr_symmetric_two_node() {
    let g = graph(&[1.0, -1.0], &[0.5], vec![(0, 1)]);
    assert_eq!(g.row_ptr, vec![0, 1, 2]);
    assert_eq!(g.col_ind, vec![1, 0]);
    assert_eq!(units(&g.j_csr), vec![0.5, 0.5]);
    assert_eq!(g.nnz(), 2);
    assert_eq!(g.num_nodes(), 2);
}

#[test]
fn empty_graph() {
    let g = graph(&[], &[], vec![]);
    assert_eq!(g.row_ptr, vec![0]);
    assert_eq!(g.nnz(), 0);
}

/// A self-loop `(u, u)` must not appear in the CSR adjacency: it should
/// contribute no entry to `col_ind`/`j_csr` and not inflate `row_ptr`.
#[test]
fn csr_drops_self_loops() {
    let g = graph(
        &[0.5, -0.25, 0.0],
        &[2.0, -1.0, 0.75],
        vec![(0, 0), (0, 1), (1, 2)],
    );
    assert_eq!(g.row_ptr, vec![0, 1, 3, 4]);
    assert_eq!(g.col_ind, vec![1, 0, 2, 1]);
    assert_eq!(units(&g.j_csr), vec![-1.0, -1.0, 0.75, 0.75]);
    assert_eq!(g.nnz(), 4);
}

/// A pure self-loop on a single node produces an empty adjacency row, not
/// a row containing the node itself.
#[test]
fn csr_pure_self_loop_yields_empty_row() {
    let g = graph(&[0.0], &[3.0], vec![(0, 0)]);
    assert_eq!(g.row_ptr, vec![0, 0]);
    assert!(g.col_ind.is_empty());
    assert!(g.j_csr.is_empty());
    assert_eq!(g.nnz(), 0);
}

#[test]
fn rows_are_sorted_and_parallel_edges_keep_their_order() {
    let g = graph(
        &[0.0; 4],
        &[1.0, 2.0, 3.0, 4.0],
        vec![(0, 3), (2, 0), (0, 1), (3, 0)],
    );
    assert_eq!(g.row_ptr, vec![0, 4, 5, 6, 8]);
    assert_eq!(g.col_ind, vec![1, 2, 3, 3, 0, 0, 0, 0]);
    assert_eq!(units(&g.j_csr), vec![3.0, 2.0, 1.0, 4.0, 3.0, 2.0, 1.0, 4.0]);
}

#[test]
fn edges_out_of_range_are_skipped_and_missing_couplings_are_zero() {
    let g = graph(&[0.0, 0.0], &[1.0], vec![(0, 9), (0, 1)]);
    assert_eq!(g.row_ptr, vec![0, 1, 2]);
    assert_eq!(units(&g.j_csr), vec![0.0, 0.0]);
}
