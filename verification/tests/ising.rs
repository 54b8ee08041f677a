use quip_solver_core::coefficient::{Coefficient, Milli};
use quip_solver_core::{Algorithm, IsingGraph, SampleParams};

#[test]
fn num_nodes_counts_biases() {
    let milli = |values: &[f64]| -> Vec<Milli> {
        values.iter().map(|v| Milli::from_unit(v.to_bits()).unwrap()).collect()
    };
    let g = IsingGraph::new(
        milli(&[1.0, -0.5, 0.0, 0.25]),
        milli(&[1.0, -1.0, -1.0, 1.0]),
        vec![(0, 1), (1, 2), (2, 3), (0, 3)],
    );
    assert_eq!(g.num_nodes(), 4);
    assert_eq!(g.edges.len(), 4);
}

#[test]
fn default_params_ask_for_one_read() {
    let p = SampleParams::default();
    assert_eq!((p.num_reads, p.num_sweeps, p.sweeps_per_beta), (1, 64, 1));
    assert_eq!((p.beta_range, p.seed), (None, 0));
}

#[test]
fn algorithms_have_names() {
    assert_eq!(Algorithm::Sa.name(), "sa");
    assert_eq!(Algorithm::Gibbs.name(), "gibbs");
}
