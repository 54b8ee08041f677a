use quip_solver_core::adapt::{AdaptBounds, Difficulty};
use quip_solver_core::coefficient::{Fixed, Milli};
use quip_solver_core::dispatch::{
    admit_job, admit_job_at, finalize_result, prepare_job, prepare_job_seeded, status_msg, Aim,
    Prepared, SamplerLimits,
};
use quip_solver_core::encoding::CoefficientEncoding;
use quip_solver_core::job::{
    num_sweeps_from_entries, num_sweeps_from_toml, parse_ising, parse_warm_start, pick_param,
    validate_shape,
    SessionTarget, TopologyCache, DEFAULT_NUM_SWEEPS,
};
use quip_solver_core::message::{
    EdgeList, IsingProblem, Job, JobKind, MinerMsg, ProblemGraph, RejectReason, SetTarget, Topology,
};
use quip_solver_core::wire::encode_i32_le;
use quip_solver_core::{
    Algorithm, BackendIdentity, IsingGraph, SampleError, SamplerResult, StreamOutcome, StreamResult,
    WarmStart,
};

const TEST_ADAPT: AdaptBounds = AdaptBounds {
    min_sweeps: 1,
    max_sweeps: u32::MAX,
    min_reads: 1,
    max_reads: u32::MAX,
    reads_solution_min_factor: 1,
    reads_solution_max_factor: 1,
    reads_solution_floor_factor: 0,
};

const GIBBS_SWEEP_MULTIPLIER: u32 = 2;

fn identity(algorithm: &str) -> BackendIdentity {
    BackendIdentity {
        backend: "mock",
        algorithm: match algorithm {
            "gibbs" => Algorithm::Gibbs,
            _ => Algorithm::Sa,
        },
        max_nodes: 100_000,
        max_edges: 1_000_000,
        features: &[],
        adapt: TEST_ADAPT,
    }
}

const PLAIN: SamplerLimits = SamplerLimits {
    max_reads: u32::MAX,
    accepts_warm_start: false,
};

const WARM: SamplerLimits = SamplerLimits {
    max_reads: u32::MAX,
    accepts_warm_start: true,
};

fn ising(graph: Option<ProblemGraph>, h_milli: &[i32], j_milli: &[i32]) -> IsingProblem {
    IsingProblem {
        graph,
        encoding: Some(CoefficientEncoding::I32),
        scale: 1000,
        h: encode_i32_le(h_milli),
        j: encode_i32_le(j_milli),
        num_reads: 0,
        num_sweeps: 0,
        initial_spins: vec![],
        start_beta_milli: 0,
        reversal_s_milli: 0,
        reversal_pause_us: 0,
    }
}

fn inline_job(h_milli: &[i32], j_milli: &[i32], u: Vec<u32>, v: Vec<u32>) -> IsingProblem {
    ising(Some(ProblemGraph::Edges(EdgeList { u, v })), h_milli, j_milli)
}

fn hash_job(hash: Vec<u8>, h_milli: &[i32], j_milli: &[i32]) -> IsingProblem {
    ising(Some(ProblemGraph::TopologyHash(hash)), h_milli, j_milli)
}

fn now_plus_a_minute() -> u64 {
    std::time::SystemTime::now()
        .duration_since(std::time::UNIX_EPOCH)
        .map_or(u64::MAX, |d| d.as_millis() as u64 + 60_000)
}

fn edges_job(job_id: u8) -> Job {
    Job {
        job_id: vec![job_id],
        kind: Some(JobKind::IsingSample),
        generation: 0,
        deadline_ms: now_plus_a_minute(),
        ising: Some(inline_job(&[1000, 1000], &[1000], vec![0], vec![1])),
        generator: None,
    }
}

fn edges_job_at_generation(job_id: u8, generation: u64) -> Job {
    Job {
        generation,
        ..edges_job(job_id)
    }
}

fn parse(
    problem: &IsingProblem,
    max_nodes: u32,
    max_edges: u32,
    cache: Option<&TopologyCache>,
) -> Result<IsingGraph<Milli>, RejectReason> {
    parse_ising::<Milli>(problem, max_nodes, max_edges, cache).map(|p| p.graph)
}

fn prepared(
    job: Job,
    id: &BackendIdentity,
    default_sweeps: usize,
    sweeps_per_beta: Option<usize>,
    limits: SamplerLimits,
) -> Prepared<Milli> {
    match admit_job::<Milli>(job, id, None) {
        Err(msg) => Prepared::Reject(msg),
        Ok(admitted) => prepare_job(admitted, id, default_sweeps, sweeps_per_beta, None, limits),
    }
}

fn units(values: &[Milli]) -> Vec<f64> {
    values.iter().map(|c| f64::from(c.0) / 1000.0).collect()
}

#[test]
fn wire_v2_accepts_only_i32_at_scale_1000() {
    let mut ising = edges_job(1).ising.unwrap();
    for (encoding, scale) in [
        (Some(CoefficientEncoding::Unspecified), 1000),
        (Some(CoefficientEncoding::I8), 1000),
        (Some(CoefficientEncoding::I16), 1000),
        (Some(CoefficientEncoding::F16), 0),
        (Some(CoefficientEncoding::F32), 0),
        (Some(CoefficientEncoding::F64), 0),
        (None, 1000),
        (Some(CoefficientEncoding::I32), 0),
        (Some(CoefficientEncoding::I32), 1),
    ] {
        ising.encoding = encoding;
        ising.scale = scale;
        assert_eq!(
            parse(&ising, 100, 100, None).unwrap_err(),
            RejectReason::Malformed
        );
    }
    ising.encoding = Some(CoefficientEncoding::I32);
    ising.scale = 1000;
    assert!(parse(&ising, 100, 100, None).is_ok());
}

#[test]
fn generator_jobs_are_not_accepted_before_lease_support() {
    let mut job = edges_job(1);
    job.kind = Some(JobKind::IsingGenerate);
    let Prepared::Reject(message) = prepared(job, &identity("sa"), 64, None, PLAIN) else {
        panic!("generator job must be rejected");
    };
    let MinerMsg::Reject(_, reason) = message else {
        panic!("expected rejection");
    };
    assert_eq!(reason, RejectReason::UnsupportedKind);
}

#[test]
fn topology_cache_maps_sparse_ids_to_positions() {
    let topo = Topology {
        allowed_j_milli: vec![],
        hash: vec![0xAB; 32],
        nodes: vec![0, 12, 2400],
        allowed_h_milli: vec![],
        edges: Some(EdgeList {
            u: vec![0, 12],
            v: vec![12, 2400],
        }),
    };
    let c = TopologyCache::from_topology(&topo);
    assert_eq!(c.pos.get(&0), Some(&0));
    assert_eq!(c.pos.get(&12), Some(&1));
    assert_eq!(c.pos.get(&2400), Some(&2));
    // received order, unsorted
    assert_eq!(c.edges, vec![(0, 12), (12, 2400)]);
    assert_eq!(c.hash, vec![0xAB; 32]);
}

#[test]
fn hash_job_resolves_sparse_edges_to_positions() {
    let topo = Topology {
        allowed_j_milli: vec![],
        hash: vec![7; 32],
        nodes: vec![0, 12, 2400],
        allowed_h_milli: vec![],
        edges: Some(EdgeList {
            u: vec![0, 12],
            v: vec![12, 2400],
        }),
    };
    let cache = TopologyCache::from_topology(&topo);
    let ising = hash_job(vec![7; 32], &[1000, -1000, 1000], &[1000, -1000]);
    let g = parse(&ising, 100_000, 1_000_000, Some(&cache)).unwrap();
    assert_eq!(g.edges, vec![(0, 1), (1, 2)]);
    assert_eq!(units(&g.h), vec![1.0, -1.0, 1.0]);
    assert_eq!(units(&g.j), vec![1.0, -1.0]);
}

#[test]
fn hash_job_without_cache_rejects_missing() {
    let ising = hash_job(vec![7; 32], &[1000], &[]);
    let err = parse(&ising, 100_000, 1_000_000, None).unwrap_err();
    assert_eq!(err, RejectReason::TopologyMissing);
}

#[test]
fn hash_job_wrong_hash_rejects_mismatch() {
    let topo = Topology {
        allowed_j_milli: vec![],
        hash: vec![1; 32],
        nodes: vec![0],
        allowed_h_milli: vec![],
        edges: None,
    };
    let cache = TopologyCache::from_topology(&topo);
    let ising = hash_job(vec![2; 32], &[1000], &[]);
    let err = parse(&ising, 100_000, 1_000_000, Some(&cache)).unwrap_err();
    assert_eq!(err, RejectReason::TopologyMismatch);
}

#[test]
fn param_precedence_job_over_target_over_adapt_over_fallback() {
    // per-job override wins over everything
    assert_eq!(pick_param(5, 7, Some(268), 1), 5);
    // SetTarget override wins when no per-job override
    assert_eq!(pick_param(0, 7, Some(268), 1), 7);
    // adapt value when neither override set
    assert_eq!(pick_param(0, 0, Some(268), 1), 268);
    // fallback when no target/adapt (e.g. no SetTarget cached)
    assert_eq!(pick_param(0, 0, None, 64), 64);
}

#[test]
fn session_target_from_proto_carries_target_and_overrides() {
    let s = SetTarget {
        max_proof_solutions: 0,
        max_energy_milli: -14_700_000,
        min_solutions: 5,
        min_diversity_milli: 200,
        num_reads: 0,
        num_sweeps: 99,
    };
    let t = SessionTarget::from_set_target(&s);
    assert_eq!(t.max_energy_milli, -14_700_000);
    assert_eq!(t.min_solutions, 5);
    assert_eq!(t.num_sweeps, 99);
    assert_eq!(t.num_reads, 0);
}

#[test]
fn hash_job_edge_id_absent_from_map_rejects_malformed() {
    // edge references id 999, which is not in nodes → no position.
    let topo = Topology {
        allowed_j_milli: vec![],
        hash: vec![7; 32],
        nodes: vec![0, 1],
        allowed_h_milli: vec![],
        edges: Some(EdgeList {
            u: vec![0],
            v: vec![999],
        }),
    };
    let cache = TopologyCache::from_topology(&topo);
    let ising = hash_job(vec![7; 32], &[1000, 1000], &[1000]);
    let err = parse(&ising, 100_000, 1_000_000, Some(&cache)).unwrap_err();
    assert_eq!(err, RejectReason::Malformed);
}

#[test]
fn a_problem_with_no_graph_but_couplings_is_malformed() {
    let ising = ising(None, &[1000, 1000, 1000], &[1000, -1000, 1000]);
    assert_eq!(
        parse(&ising, 100_000, 1_000_000, None).unwrap_err(),
        RejectReason::Malformed,
        "3 couplings against 0 edges must never reach a sampler"
    );
}

/// The same invariant from the other side: no graph and no couplings is a
/// legitimate (if trivial) problem.
#[test]
fn a_problem_with_no_graph_and_no_couplings_is_accepted() {
    let ising = ising(None, &[1000, 1000], &[]);
    let g = parse(&ising, 100_000, 1_000_000, None).expect("an edgeless problem is fine");
    assert_eq!(g.num_nodes(), 2);
    assert!(g.edges.is_empty());
    assert!(g.j.is_empty());
}

#[test]
fn inline_edges_with_unequal_u_and_v_are_malformed() {
    let ising = inline_job(&[1000, 1000, 1000], &[1000, 1000], vec![0, 1], vec![1]);
    assert_eq!(
        parse(&ising, 100_000, 1_000_000, None).unwrap_err(),
        RejectReason::Malformed
    );
}

#[test]
fn inline_edges_with_a_coupling_count_mismatch_are_malformed() {
    // 2 edges, 1 coupling.
    let ising = inline_job(&[1000, 1000, 1000], &[1000], vec![0, 1], vec![1, 2]);
    assert_eq!(
        parse(&ising, 100_000, 1_000_000, None).unwrap_err(),
        RejectReason::Malformed
    );
    // 1 edge, 2 couplings.
    let ising = inline_job(&[1000, 1000], &[1000, 1000], vec![0], vec![1]);
    assert_eq!(
        parse(&ising, 100_000, 1_000_000, None).unwrap_err(),
        RejectReason::Malformed
    );
}

#[test]
fn an_edge_endpoint_outside_h_is_malformed() {
    let ising = inline_job(&[1000, 1000], &[1000], vec![0], vec![7]);
    assert_eq!(
        parse(&ising, 100_000, 1_000_000, None).unwrap_err(),
        RejectReason::Malformed
    );
}

fn topology(nodes: Vec<u32>, u: Vec<u32>, v: Vec<u32>) -> Topology {
    Topology {
        allowed_j_milli: vec![],
        hash: vec![7; 32],
        nodes,
        allowed_h_milli: vec![],
        edges: Some(EdgeList { u, v }),
    }
}

#[test]
fn a_topology_with_unequal_u_and_v_rejects_every_job() {
    let cache = TopologyCache::from_topology(&topology(vec![0, 1, 2], vec![0, 1], vec![1]));
    let ising = hash_job(vec![7; 32], &[1000, 1000, 1000], &[1000]);
    assert_eq!(
        parse(&ising, 100_000, 1_000_000, Some(&cache)).unwrap_err(),
        RejectReason::Malformed
    );
}

#[test]
fn a_topology_with_duplicate_node_ids_rejects_every_job() {
    let cache = TopologyCache::from_topology(&topology(vec![0, 1, 1], vec![0], vec![1]));
    let ising = hash_job(vec![7; 32], &[1000, 1000, 1000], &[1000]);
    assert_eq!(
        parse(&ising, 100_000, 1_000_000, Some(&cache)).unwrap_err(),
        RejectReason::Malformed
    );
}

/// A wrong hash is still reported as a mismatch even when the cache itself
/// is invalid: it is the more precise answer.
#[test]
fn an_invalid_cache_still_reports_a_hash_mismatch_first() {
    let cache = TopologyCache::from_topology(&topology(vec![0, 1, 1], vec![0], vec![1]));
    let ising = hash_job(vec![9; 32], &[1000, 1000, 1000], &[1000]);
    assert_eq!(
        parse(&ising, 100_000, 1_000_000, Some(&cache)).unwrap_err(),
        RejectReason::TopologyMismatch
    );
}

/// A hash job names the cached graph, so `h` must cover exactly its nodes.
#[test]
fn a_hash_job_whose_h_does_not_cover_the_topology_is_malformed() {
    let cache = TopologyCache::from_topology(&topology(vec![0, 1, 2], vec![0, 1], vec![1, 2]));
    for h in [
        vec![1000, 1000],                   // too short
        vec![1000, 1000, 1000, 1000],       // too long
        vec![1000, 1000, 1000, 1000, 1000], // much too long
    ] {
        let ising = hash_job(vec![7; 32], &h, &[1000, 1000]);
        assert_eq!(
            parse(&ising, 100_000, 1_000_000, Some(&cache)).unwrap_err(),
            RejectReason::Malformed,
            "h of {} against a 3-node topology must not sample",
            h.len()
        );
    }
    // The matching length still works.
    let ising = hash_job(vec![7; 32], &[1000, 1000, 1000], &[1000, 1000]);
    let g = parse(&ising, 100_000, 1_000_000, Some(&cache)).expect("matching h");
    assert_eq!(g.num_nodes(), 3);
}

#[test]
fn a_size_cap_admits_a_job_exactly_at_the_limit_and_rejects_one_past_it() {
    // 3 nodes, 2 edges.
    let ising = inline_job(&[1000, 1000, 1000], &[1000, 1000], vec![0, 1], vec![1, 2]);
    assert!(parse(&ising, 3, 2, None).is_ok(), "n == max_nodes");
    assert_eq!(
        parse(&ising, 2, 2, None).unwrap_err(),
        RejectReason::TooLarge,
        "n == max_nodes + 1"
    );
    assert_eq!(
        parse(&ising, 3, 1, None).unwrap_err(),
        RejectReason::TooLarge,
        "edges == max_edges + 1"
    );
}

/// `0` is "no limit" in the advertised caps.
#[test]
fn a_zero_size_cap_means_unlimited_not_a_zero_ceiling() {
    let ising = inline_job(&[1000, 1000, 1000], &[1000, 1000], vec![0, 1], vec![1, 2]);
    assert!(
        parse(&ising, 0, 0, None).is_ok(),
        "max_nodes/max_edges of 0 must accept a large problem, not reject every one"
    );
    // Each bound is independently unlimited.
    assert!(parse(&ising, 0, 2, None).is_ok());
    assert!(parse(&ising, 3, 0, None).is_ok());
    // A zero cap on one axis does not excuse a real cap on the other.
    assert_eq!(
        parse(&ising, 0, 1, None).unwrap_err(),
        RejectReason::TooLarge
    );
}

#[test]
fn num_sweeps_is_read_from_well_formed_toml() {
    for (input, want) in [
        ("num_sweeps = 512", 512),
        ("num_sweeps=512", 512),
        ("num_sweeps = 512 # trailing comment", 512),
        // TOML digit separators.
        ("num_sweeps = 1_024", 1024),
        ("other = 1\nnum_sweeps = 512\n", 512),
    ] {
        assert_eq!(num_sweeps_from_toml(input), want, "input: {input:?}");
    }
}

#[test]
fn an_unusable_or_absent_num_sweeps_falls_back_to_the_default() {
    for input in [
        "num_sweeps = 0",         // zero is not a sweep budget
        "num_sweeps = \"128\"",   // a string is not an integer
        "num_sweeps = -5",        // negative
        "num_sweeps = 1.5",       // not an integer
        "",                       // nothing configured
        "num_sweeps_extra = 512", // a prefix is not the key
        "extra_num_sweeps = 512",
        "not valid toml at all {{{", // unparseable
    ] {
        assert_eq!(
            num_sweeps_from_toml(input),
            DEFAULT_NUM_SWEEPS,
            "input: {input:?}"
        );
    }
}

/// A `num_sweeps` under a backend's own table belongs to that backend, not
/// to the session loop.
#[test]
fn num_sweeps_under_another_table_does_not_configure_the_session() {
    assert_eq!(
        num_sweeps_from_toml("[other]\nnum_sweeps = 512"),
        DEFAULT_NUM_SWEEPS
    );
    // A top-level key still wins when it precedes a table.
    assert_eq!(
        num_sweeps_from_toml("num_sweeps = 128\n[other]\nnum_sweeps = 512"),
        128
    );
}

/// A `#` inside a quoted string is not a comment.
#[test]
fn a_hash_inside_a_quoted_string_is_not_treated_as_a_comment() {
    assert_eq!(
        num_sweeps_from_toml("name = \"a # b\"\nnum_sweeps = 512"),
        512
    );
}

#[test]
fn parsed_entries_give_the_same_sweeps() {
    let entry = |key: &str, value| (key.to_owned(), value);
    assert_eq!(num_sweeps_from_entries(&None), DEFAULT_NUM_SWEEPS);
    assert_eq!(num_sweeps_from_entries(&Some(vec![])), DEFAULT_NUM_SWEEPS);
    assert_eq!(
        num_sweeps_from_entries(&Some(vec![entry("a", Some(3)), entry("num_sweeps", Some(9))])),
        9
    );
    for value in [None, Some(0), Some(-1)] {
        assert_eq!(
            num_sweeps_from_entries(&Some(vec![entry("num_sweeps", value)])),
            DEFAULT_NUM_SWEEPS
        );
    }
}

#[test]
fn gibbs_job_resolves_2x_the_sweeps_of_the_same_sa_job() {
    let default_sweeps = 64;

    let sa_id = identity("sa");
    let Prepared::Sample {
        num_sweeps: sa_sweeps,
        ..
    } = prepared(edges_job(1), &sa_id, default_sweeps, None, PLAIN)
    else {
        panic!("expected Sample");
    };

    let gibbs_id = identity("gibbs");
    let Prepared::Sample {
        num_sweeps: gibbs_sweeps,
        ..
    } = prepared(edges_job(2), &gibbs_id, default_sweeps, None, PLAIN)
    else {
        panic!("expected Sample");
    };

    assert_eq!(sa_sweeps, default_sweeps as u32);
    assert_eq!(gibbs_sweeps, sa_sweeps * GIBBS_SWEEP_MULTIPLIER);
}

/// The doubled gibbs budget must reach the wire.
#[test]
fn a_finalized_gibbs_result_reports_the_doubled_sweeps() {
    let gibbs_id = identity("gibbs");
    let Prepared::Sample {
        job,
        num_reads,
        num_sweeps,
        ..
    } = prepared(edges_job(1), &gibbs_id, 64, None, PLAIN)
    else {
        panic!("expected Sample");
    };

    let mut jobs_done = 0;
    let msgs = finalize_result(
        StreamResult {
            job_id: job.job_id,
            outcome: StreamOutcome::Completed(Ok(vec![SamplerResult {
                spins: vec![1, -1],
                energy_milli: -1000,
            }])),
            device_access_time_us: 7,
        },
        num_reads,
        num_sweeps,
        &mut jobs_done,
    );

    let sweeps: Vec<u32> = msgs
        .iter()
        .filter_map(|m| {
            if let MinerMsg::Result(r) = m {
                Some(r.meta.sweeps)
            } else {
                None
            }
        })
        .collect();
    assert_eq!(sweeps, vec![64 * GIBBS_SWEEP_MULTIPLIER]);
    assert_eq!(jobs_done, 1);
}

#[test]
fn back_to_back_jobs_get_different_os_entropy_seeds() {
    let id = identity("sa");

    let Prepared::Sample { job: job1, .. } = prepared(edges_job(1), &id, 64, None, PLAIN) else {
        panic!("expected Sample");
    };
    let Prepared::Sample { job: job2, .. } = prepared(edges_job(2), &id, 64, None, PLAIN) else {
        panic!("expected Sample");
    };

    assert_ne!(job1.params.seed, job2.params.seed);
}

#[test]
fn sweeps_per_beta_flag_flows_into_sample_params() {
    let id = identity("sa");

    // The miner-local CLI value threads through to SampleParams.
    let Prepared::Sample { job, .. } = prepared(edges_job(1), &id, 64, Some(3), PLAIN) else {
        panic!("expected Sample");
    };
    assert_eq!(job.params.sweeps_per_beta, 3);

    // Unset falls back to the default of 1.
    let Prepared::Sample { job, .. } = prepared(edges_job(2), &id, 64, None, PLAIN) else {
        panic!("expected Sample");
    };
    assert_eq!(job.params.sweeps_per_beta, 1);
}

/// Generation 0 means a mempool job, and a mempool job is never
/// reseed-cancelled.
#[test]
fn a_mempool_job_gets_no_watermark() {
    let id = identity("sa");
    let Prepared::Sample { job, .. } =
        prepared(edges_job_at_generation(1, 0), &id, 64, None, PLAIN)
    else {
        panic!("expected Sample");
    };
    assert_eq!(
        job.watermark, None,
        "generation 0 is a mempool job and must never carry a watermark"
    );
}

#[test]
fn a_chain_job_carries_its_generation_as_the_watermark() {
    let id = identity("sa");
    for generation in [1_u64, 2, 7, u64::MAX] {
        let Prepared::Sample { job, .. } =
            prepared(edges_job_at_generation(1, generation), &id, 64, None, PLAIN)
        else {
            panic!("expected Sample");
        };
        assert_eq!(
            job.watermark,
            Some(generation),
            "a chain job must carry its generation as the watermark"
        );
    }
}

#[test]
fn status_carries_the_abandoned_watermark() {
    let MinerMsg::Status(status) = status_msg("miner", 3, 0.5_f64.to_bits(), 7) else {
        panic!("expected Status");
    };
    assert_eq!(
        status.abandoned_generation, 7,
        "a non-zero watermark must be carried into Status"
    );
    assert_eq!((status.miner_id.as_str(), status.jobs_done), ("miner", 3));

    let MinerMsg::Status(status) = status_msg("miner", 3, 0.5_f64.to_bits(), 0) else {
        panic!("expected Status");
    };
    assert_eq!(
        status.abandoned_generation, 0,
        "a zero watermark must stay zero"
    );
}

/// `edges_job` (2 nodes) carrying the given packed states and start point,
/// with `num_reads` pinned.
fn seeded_job(states: Vec<Vec<u8>>, num_reads: u32, start: (u32, u32, u32)) -> Job {
    let mut job = edges_job(1);
    if let Some(ising) = job.ising.as_mut() {
        ising.initial_spins = states;
        ising.num_reads = num_reads;
        ising.start_beta_milli = start.0;
        ising.reversal_s_milli = start.1;
        ising.reversal_pause_us = start.2;
    }
    job
}

fn prepared_warm_start(
    job: Job,
    limits: SamplerLimits,
) -> Result<Option<WarmStart>, Option<RejectReason>> {
    match prepared(job, &identity("sa"), 64, None, limits) {
        Prepared::Sample { warm_start, .. } => Ok(warm_start),
        Prepared::Reject(MinerMsg::Reject(_, reason)) => Err(Some(reason)),
        Prepared::Reject(_) => Err(None),
    }
}

fn unit(milli: Option<u32>) -> Option<f64> {
    milli.map(|m| f64::from(m) / 1000.0)
}

#[test]
fn a_warm_sampler_gets_decoded_states_cut_to_num_reads() {
    // Node 0 is bit 0: 0b01 = [+1, -1], 0b10 = [-1, +1], 0b11 = [+1, +1].
    let job = seeded_job(vec![vec![0b01], vec![0b10], vec![0b11]], 2, (2500, 400, 7));
    let warm = prepared_warm_start(job, WARM)
        .expect("a valid seeded job samples")
        .expect("a warm sampler receives the states");
    assert_eq!(warm.spins, vec![vec![1, -1], vec![-1, 1]]);
    assert_eq!(unit(warm.start_beta_milli), Some(2.5));
    assert_eq!(unit(warm.reversal_s_milli), Some(0.4));
    assert_eq!(warm.reversal_pause_us, Some(7));
}

#[test]
fn unset_start_point_fields_decode_to_none() {
    let warm = prepared_warm_start(seeded_job(vec![vec![0b01]], 1, (0, 0, 0)), WARM)
        .expect("samples")
        .expect("seeded");
    assert_eq!(
        (
            warm.start_beta_milli,
            warm.reversal_s_milli,
            warm.reversal_pause_us
        ),
        (None, None, None)
    );
}

#[test]
fn a_plain_sampler_never_receives_the_states() {
    let job = seeded_job(vec![vec![0b01]], 1, (2500, 0, 0));
    assert!(matches!(prepared_warm_start(job, PLAIN), Ok(None)));
}

#[test]
fn a_start_point_without_a_state_is_a_cold_job() {
    let job = seeded_job(vec![], 1, (2500, 400, 7));
    assert!(matches!(prepared_warm_start(job, WARM), Ok(None)));
}

#[test]
fn default_sweeps_are_capped_rather_than_cut() {
    let Prepared::Sample { num_sweeps, .. } =
        prepared(edges_job(1), &identity("sa"), 1 << 32, None, PLAIN)
    else {
        panic!("a valid job samples");
    };
    assert_eq!(num_sweeps, u32::MAX);
}

#[test]
fn a_seeded_job_without_reads_is_a_cold_job() {
    let problem = seeded_job(vec![vec![0b01]], 1, (2500, 0, 0)).ising.unwrap();
    assert!(matches!(parse_warm_start(&problem, 2, 0, true), Ok(None)));
    let kept = parse_warm_start(&problem, 2, 1, true).unwrap().unwrap();
    assert_eq!(kept.spins, vec![vec![1, -1]]);
    let problem = seeded_job(vec![vec![0b100]], 1, (0, 0, 0)).ising.unwrap();
    assert!(matches!(
        parse_warm_start(&problem, 2, 0, true),
        Err(RejectReason::Malformed)
    ));
}

#[test]
fn a_repeated_node_id_is_counted_and_marked_invalid() {
    let cache = TopologyCache::from_topology(&Topology {
        hash: vec![1],
        nodes: vec![0, 1, 1],
        edges: None,
        allowed_h_milli: vec![],
        allowed_j_milli: vec![],
    });
    assert_eq!(cache.num_nodes(), 3);
    assert_eq!(cache.invalid, Some(RejectReason::Malformed));
    assert_eq!((cache.pos.get(&0), cache.pos.get(&1)), (Some(&0), Some(&2)));
}

/// Validation is the same for every solver, so one malformed job gets one
/// answer whether or not the solver uses the states.
#[test]
fn a_malformed_state_is_rejected_by_every_sampler() {
    for states in [
        vec![vec![0b01, 0x00]],        // 2 bytes for 2 nodes
        vec![vec![]],                  // empty entry
        vec![vec![0b01], vec![0b100]], // padding bit set in the second state
    ] {
        let job = || seeded_job(states.clone(), 1, (0, 0, 0));
        for limits in [WARM, PLAIN] {
            assert_eq!(
                prepared_warm_start(job(), limits).err(),
                Some(Some(RejectReason::Malformed))
            );
        }
    }
}

#[test]
fn a_reversal_point_outside_the_anneal_is_malformed() {
    let job = seeded_job(vec![vec![0b01]], 1, (0, 1000, 0));
    assert_eq!(
        prepared_warm_start(job, WARM).err(),
        Some(Some(RejectReason::Malformed))
    );
}

#[test]
fn lossy_decode_keeps_originals_but_exact_types_do_not() {
    let problem = hash_job(vec![], &[499, -501], &[1501]);
    let problem = IsingProblem {
        graph: Some(ProblemGraph::Edges(EdgeList {
            u: vec![0],
            v: vec![1],
        })),
        ..problem
    };
    let parsed = parse_ising::<Fixed<i8, 1>>(&problem, 0, 0, None).expect("valid");
    assert_eq!(parsed.graph.h, vec![Fixed(0), Fixed(-1)]);
    assert_eq!(parsed.graph.j, vec![Fixed(2)]);
    let mut reads = vec![SamplerResult {
        spins: vec![1, -1],
        energy_milli: 123,
    }];
    parsed
        .exact_energy
        .expect("lossy input retained")
        .rescore(&mut reads);
    assert_eq!(reads.first().map(|r| r.energy_milli), Some(-501));
    let milli = parse_ising::<Milli>(&problem, 0, 0, None).expect("valid");
    assert!(milli.exact_energy.is_none());
    assert_eq!(milli.graph.h, vec![Fixed(499), Fixed(-501)]);
}

#[test]
fn a_shape_error_says_which_rule_failed() {
    assert_eq!(
        validate_shape(1, 2, &[]),
        Err("j has 2 couplings but the graph has 0 edges".to_owned())
    );
    assert_eq!(
        validate_shape(2, 2, &[(0, 1), (1, 12)]),
        Err("edge (1, 12) references a node outside h (h has 2 entries)".to_owned())
    );
    assert_eq!(validate_shape(2, 1, &[(0, 1)]), Ok(()));
}

fn reject_of(outcome: Result<impl Sized, MinerMsg>) -> Option<RejectReason> {
    match outcome {
        Err(MinerMsg::Reject(_, reason)) => Some(reason),
        _ => None,
    }
}

#[test]
fn a_deadline_is_judged_against_the_given_clock() {
    let id = identity("sa");
    let at = |now: Option<u64>, deadline_ms: u64| {
        let job = Job { deadline_ms, ..edges_job(1) };
        reject_of(admit_job_at::<Milli>(job, now, &id, None))
    };
    assert_eq!(at(Some(1000), 999), Some(RejectReason::Expired));
    assert_eq!(at(Some(1000), 1000), None);
    assert_eq!(at(None, 1000), Some(RejectReason::Expired));
    assert_eq!(at(None, 0), None);
    // The clock of this machine is past 1970.
    let job = Job { deadline_ms: 1, ..edges_job(1) };
    assert_eq!(
        reject_of(admit_job::<Milli>(job, &id, None)),
        Some(RejectReason::Expired)
    );
}

#[test]
fn every_rejection_has_its_place() {
    let id = identity("sa");
    let unknown = Job { kind: None, ..edges_job(1) };
    assert_eq!(
        reject_of(admit_job::<Milli>(unknown, &id, None)),
        Some(RejectReason::UnsupportedKind)
    );
    let empty = Job { ising: None, ..edges_job(1) };
    assert_eq!(
        reject_of(admit_job::<Milli>(empty, &id, None)),
        Some(RejectReason::Malformed)
    );
    let capped = SamplerLimits { max_reads: 0, accepts_warm_start: false };
    let Prepared::Reject(MinerMsg::Reject(job_id, reason)) =
        prepared(edges_job(9), &id, 64, None, capped)
    else {
        panic!("one read against a cap of none");
    };
    assert_eq!((job_id, reason), (vec![9], RejectReason::TooLarge));
    let Ok(admitted) = admit_job::<Milli>(edges_job(9), &id, None) else {
        panic!("a valid job");
    };
    let Prepared::Reject(MinerMsg::Reject(_, reason)) =
        prepare_job_seeded(admitted, None, &id, 64, None, None, PLAIN)
    else {
        panic!("a job without a seed is not sampled");
    };
    assert_eq!(reason, RejectReason::Overloaded);
}

#[test]
fn a_target_adapts_the_budget_of_a_job() {
    let id = BackendIdentity {
        adapt: AdaptBounds {
            min_sweeps: 10,
            max_sweeps: 100,
            min_reads: 2,
            max_reads: 20,
            reads_solution_min_factor: 0,
            reads_solution_max_factor: 0,
            reads_solution_floor_factor: 0,
        },
        ..identity("gibbs")
    };
    let target = SessionTarget {
        max_energy_milli: -1,
        min_solutions: 0,
        min_diversity_milli: 0,
        max_proof_solutions: 0,
        num_reads: 0,
        num_sweeps: 0,
    };
    let resolve = |target: SessionTarget| {
        let Ok(admitted) = admit_job::<Milli>(edges_job(9), &id, None) else {
            panic!("a valid job");
        };
        let difficulty = Difficulty::from_bits(0.5_f64.to_bits()).unwrap();
        let aim = Some(Aim { target, difficulty });
        let Prepared::Sample { job, num_reads, num_sweeps, .. } =
            prepare_job_seeded(admitted, Some(77), &id, 64, None, aim, PLAIN)
        else {
            panic!("a valid job");
        };
        assert_eq!(job.params.seed, 77);
        assert_eq!(job.params.num_reads, num_reads as usize);
        (num_reads, num_sweeps)
    };
    assert_eq!(resolve(target), (10, 100));
    assert_eq!(resolve(SessionTarget { num_reads: 3, num_sweeps: 7, ..target }), (3, 14));
    assert_eq!(
        resolve(SessionTarget { num_sweeps: u32::MAX, ..target }),
        (10, u32::MAX)
    );
}

#[test]
fn every_finished_job_gives_back_one_credit_unless_the_device_failed() {
    let finish = |outcome: StreamOutcome| {
        let mut done = u64::MAX;
        let sr = StreamResult { job_id: vec![5], outcome, device_access_time_us: 0 };
        let out = finalize_result(sr, 1, 1, &mut done);
        assert_eq!(done, u64::MAX);
        out
    };
    let out = finish(StreamOutcome::Cancelled);
    assert!(matches!(out.as_slice(), [MinerMsg::JobRequest(1)]));
    let out = finish(StreamOutcome::Completed(Err(SampleError::Capacity)));
    assert!(matches!(
        out.as_slice(),
        [MinerMsg::Reject(_, RejectReason::TooLarge), MinerMsg::JobRequest(1)]
    ));
    let out = finish(StreamOutcome::Completed(Ok(vec![])));
    assert!(matches!(out.as_slice(), [MinerMsg::Result(_), MinerMsg::JobRequest(1)]));
    let out = finish(StreamOutcome::Completed(Err(SampleError::DeviceFault("gone".to_owned()))));
    let [MinerMsg::Reject(_, RejectReason::Overloaded), MinerMsg::Fatal(fatal)] = out.as_slice()
    else {
        panic!("a fault ends the session");
    };
    assert_eq!(fatal.exit_code, 70);
    assert_eq!(fatal.reason, "device fault: gone");
    assert!(fatal.restart_required);
}
