//! Base Ising problem type and per-job sampling knobs, shared by all backends.
use crate::coefficient::Coefficient;
use vstd::prelude::*;

verus! {

/// Sampling algorithm selected by the binary.
#[derive(Clone, Copy, Debug, PartialEq, Eq, Structural)]
pub enum Algorithm {
    /// Metropolis-Hastings simulated annealing.
    Sa,
    /// Single-site heat-bath Gibbs along the same beta ladder.
    Gibbs,
}

impl Algorithm {
    /// The name that a capabilities message carries.
    pub open spec fn spec_name(self) -> Seq<char> {
        match self {
            Algorithm::Sa => "sa"@,
            Algorithm::Gibbs => "gibbs"@,
        }
    }

    /// The name that a capabilities message carries.
    #[must_use]
    pub fn name(self) -> (name: &'static str)
        ensures
            name@ == self.spec_name(),
    {
        match self {
            Algorithm::Sa => "sa",
            Algorithm::Gibbs => "gibbs",
        }
    }
}

/// Per-job sampling knobs.
#[derive(Clone, Copy, Debug, PartialEq, Eq)]
pub struct SampleParams {
    /// Independent reads (samples) to produce.
    pub num_reads: usize,
    /// Annealing sweeps per read.
    pub num_sweeps: usize,
    /// Sweeps spent at each beta rung.
    pub sweeps_per_beta: usize,
    /// Optional `(hot_beta, cold_beta)`, as the bit patterns of two doubles.
    /// `None` leaves the range to the biases.
    pub beta_range: Option<(u64, u64)>,
    /// PRNG seed for this job.
    pub seed: u64,
}

impl Default for SampleParams {
    fn default() -> (params: Self)
        ensures
            params == (SampleParams {
                num_reads: 1,
                num_sweeps: 64,
                sweeps_per_beta: 1,
                beta_range: None,
                seed: 0,
            }),
    {
        SampleParams { num_reads: 1, num_sweeps: 64, sweeps_per_beta: 1, beta_range: None, seed: 0 }
    }
}

/// Warm-start states and anneal start point for one seeded job.
///
/// Every state covers the job's nodes, and there are no more states than
/// reads. Seed one read per state and start the remaining reads cold.
#[derive(Clone, Debug)]
pub struct WarmStart {
    /// Start states, best first, each with one `{-1,+1}` entry per variable.
    /// Never empty.
    pub spins: Vec<Vec<i8>>,
    /// Seeded annealing: the inverse temperature to start from, in
    /// thousandths. `None` leaves it to the backend.
    pub start_beta_milli: Option<u32>,
    /// The anneal fraction that a reverse anneal backs off to, in thousandths,
    /// strictly between 0 and 1000. `None` leaves it to the backend.
    pub reversal_s_milli: Option<u32>,
    /// The pause at the reversal point, in microseconds. `None` leaves it to
    /// the backend.
    pub reversal_pause_us: Option<u32>,
}

/// One completed read: spins in {-1,+1} and consensus milli-energy.
#[derive(Clone, Debug)]
pub struct SamplerResult {
    /// Spin configuration, one entry per variable, values in `{-1, +1}`.
    pub spins: Vec<i8>,
    /// Consensus energy of `spins`, in milli units.
    pub energy_milli: i64,
}

/// Wire-parsed Ising problem: dense biases, flat couplings, and edge list.
#[derive(Debug)]
pub struct IsingGraph<C> {
    /// Linear biases, one per variable.
    pub h: Vec<C>,
    /// Couplings aligned with `edges`.
    pub j: Vec<C>,
    /// Undirected edge list `(u, v)` in received order.
    pub edges: Vec<(usize, usize)>,
}

/// Exactly one coupling per edge, and every edge endpoint among the nodes.
pub open spec fn shape_ok(nodes: nat, couplings: nat, edges: Seq<(usize, usize)>) -> bool {
    &&& couplings == edges.len()
    &&& forall|i: int|
        0 <= i < edges.len() ==> (#[trigger] edges[i]).0 < nodes && edges[i].1 < nodes
}

impl<C: Coefficient> IsingGraph<C> {
    /// The problem describes a graph.
    pub open spec fn wf(self) -> bool {
        shape_ok(self.h@.len(), self.j@.len(), self.edges@)
    }

    /// Store flat `h` / `j` / edge lists as the base problem.
    #[must_use]
    pub fn new(h: Vec<C>, j: Vec<C>, edges: Vec<(usize, usize)>) -> (graph: Self)
        ensures
            graph.h == h,
            graph.j == j,
            graph.edges == edges,
    {
        IsingGraph { h, j, edges }
    }

    /// Number of variables (length of `h`).
    #[must_use]
    pub fn num_nodes(&self) -> (nodes: usize)
        ensures
            nodes == self.h@.len(),
    {
        self.h.len()
    }
}

} // verus!
