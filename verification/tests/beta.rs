use quip_solver_core::beta::{field_range, FieldRange};
use quip_solver_core::coefficient::{Fixed, Milli};
use quip_solver_core::IsingGraph;

fn graph(h: &[i32], j: &[i32], edges: Vec<(usize, usize)>) -> IsingGraph<Milli> {
    IsingGraph::new(
        h.iter().map(|v| Fixed(*v)).collect(),
        j.iter().map(|v| Fixed(*v)).collect(),
        edges,
    )
}

#[test]
fn fields_add_up_and_gaps_are_the_smallest() {
    let g = graph(&[1000, -500, 0], &[2000, -500], vec![(0, 1), (1, 2)]);
    assert_eq!(
        field_range(&g),
        Some(FieldRange { max_field: 3000, min_gap: 500, min_gap_count: 2 })
    );
}

#[test]
fn a_graph_without_a_scale_has_no_range() {
    assert_eq!(field_range(&graph(&[], &[], vec![])), None);
    assert_eq!(field_range(&graph(&[0, 0], &[0], vec![(0, 1)])), None);
    assert_eq!(field_range(&graph(&[0], &[5], vec![(0, 9)])), None);
}

#[test]
fn a_self_loop_counts_at_both_ends_and_a_missing_coupling_counts_nothing() {
    let g = graph(&[0, 7], &[100], vec![(0, 0), (0, 1)]);
    assert_eq!(
        field_range(&g),
        Some(FieldRange { max_field: 200, min_gap: 7, min_gap_count: 1 })
    );
}

#[test]
fn the_lowest_coefficient_has_a_magnitude() {
    let g = graph(&[i32::MIN], &[], vec![]);
    assert_eq!(
        field_range(&g),
        Some(FieldRange { max_field: 0x8000_0000, min_gap: 0x8000_0000, min_gap_count: 1 })
    );
}

#[test]
fn signs_and_stray_edges_change_nothing() {
    let g = graph(&[1000, -500, 0], &[2000, -500], vec![(0, 1), (1, 2)]);
    let flipped = graph(&[-1000, 500, 0], &[2000, 500], vec![(0, 1), (1, 2)]);
    let strayed = graph(&[1000, -500, 0], &[2000, 1, -500], vec![(0, 1), (0, 3), (1, 2)]);
    assert!(field_range(&g).is_some());
    assert_eq!(field_range(&flipped), field_range(&g));
    assert_eq!(field_range(&strayed), field_range(&g));
}
