use quip_solver_core::adapt::{AdaptBounds, Difficulty};
use quip_solver_core::coefficient::{Fixed, Milli};
use quip_solver_core::dispatch::Aim;
use quip_solver_core::job::SessionTarget;
use quip_solver_core::lease::{
    admit_lease, admit_lease_at, draw_graph, fault, finish_local, finish_result, or_zeros,
    prepare_lease, push_reads, push_winner, reads_agree, settle_salt, sink_is_stopped, Expander,
    LeaseState, LeaseStopped, Pushed,
};
use quip_solver_core::message::{GeneratorRequest, Job, JobKind, LeaseGraph, MinerMsg, RejectReason};
use quip_solver_core::pending::{pending_id, LeaseLink};
use quip_solver_core::session::LeaseTopology;
use quip_solver_core::{
    Algorithm, BackendIdentity, CancelToken, SampleError, SampleParams, SamplerResult, StreamOutcome,
    StreamResult,
};

fn identity() -> BackendIdentity {
    BackendIdentity {
        backend: "mock",
        algorithm: Algorithm::Sa,
        max_nodes: 2,
        max_edges: 1,
        features: &[],
        adapt: AdaptBounds {
            min_sweeps: 10,
            max_sweeps: 100,
            min_reads: 2,
            max_reads: 20,
            reads_solution_min_factor: 0,
            reads_solution_max_factor: 0,
            reads_solution_floor_factor: 0,
        },
    }
}

fn graph() -> LeaseGraph {
    LeaseGraph {
        num_nodes: 2,
        edges: vec![(0, 1)],
        allowed_h_milli: vec![-1000, 0, 1000],
        allowed_j_milli: vec![-1000, 1000],
    }
}

fn topology(graph: Result<LeaseGraph, RejectReason>) -> LeaseTopology {
    LeaseTopology { hash: vec![7; 32], graph }
}

fn target() -> SessionTarget {
    SessionTarget {
        max_energy_milli: i64::MAX,
        min_solutions: 1,
        min_diversity_milli: 0,
        max_proof_solutions: 32,
        num_reads: 0,
        num_sweeps: 0,
    }
}

fn job() -> Job {
    Job {
        job_id: b"lease".to_vec(),
        kind: Some(JobKind::IsingGenerate),
        generation: 1,
        deadline_ms: 0,
        ising: None,
        generator: Some(GeneratorRequest {
            topology_hash: vec![7; 32],
            salt_count: Some(5),
        }),
    }
}

fn aim(difficulty: f64) -> Aim {
    Aim {
        target: target(),
        difficulty: Difficulty::from_bits(difficulty.to_bits()).unwrap(),
    }
}

fn lease(salt_count: u64) -> LeaseState {
    prepare_lease(&job(), salt_count, aim(0.0), &identity(), u32::MAX, 64, None, false)
        .expect("a valid range")
        .0
}

fn read(energy_milli: i64) -> SamplerResult {
    SamplerResult { spins: vec![1, -1], energy_milli }
}

fn done(outcome: StreamOutcome) -> StreamResult {
    StreamResult { job_id: b"lease".to_vec(), outcome, device_access_time_us: 3 }
}

fn hand_out(expander: &mut Expander, state: &mut LeaseState) -> Vec<u8> {
    let drawn = draw_graph::<Milli>(vec![1000, 0], vec![-1000], &[(0, 1)]);
    expander
        .hand_out(state, drawn, SampleParams::default(), 9)
        .expect("a seed")
        .job
        .job_id
}

#[test]
fn a_range_needs_a_topology_a_target_and_a_range() {
    let id = identity();
    let check = |job: &Job, topology: Option<&LeaseTopology>, target: Option<SessionTarget>| {
        admit_lease(job, topology, target, &id)
    };
    let t = topology(Ok(graph()));
    assert_eq!(check(&job(), None, Some(target())), Err(RejectReason::TopologyMissing));
    assert_eq!(check(&job(), Some(&t), None), Err(RejectReason::TargetMissing));
    let proofless = SessionTarget { max_proof_solutions: 0, ..target() };
    assert_eq!(check(&job(), Some(&t), Some(proofless)), Err(RejectReason::TargetMissing));
    let mut j = job();
    j.generator = None;
    assert_eq!(check(&j, Some(&t), Some(target())), Err(RejectReason::Malformed));
    j.generator = Some(GeneratorRequest { topology_hash: vec![7; 32], salt_count: None });
    assert_eq!(check(&j, Some(&t), Some(target())), Err(RejectReason::Malformed));
    j.generator = Some(GeneratorRequest { topology_hash: vec![8; 32], salt_count: Some(5) });
    assert_eq!(check(&j, Some(&t), Some(target())), Err(RejectReason::TopologyMismatch));
    let bad = topology(Err(RejectReason::Malformed));
    assert_eq!(check(&job(), Some(&bad), Some(target())), Err(RejectReason::Malformed));
    for g in [
        LeaseGraph { allowed_h_milli: vec![], ..graph() },
        LeaseGraph { allowed_j_milli: vec![], ..graph() },
    ] {
        assert_eq!(
            check(&job(), Some(&topology(Ok(g))), Some(target())),
            Err(RejectReason::Malformed)
        );
    }
    for g in [
        LeaseGraph { num_nodes: 3, ..graph() },
        LeaseGraph { edges: vec![(0, 1), (1, 0)], ..graph() },
    ] {
        assert_eq!(
            check(&job(), Some(&topology(Ok(g))), Some(target())),
            Err(RejectReason::TooLarge)
        );
    }
    assert_eq!(check(&job(), Some(&t), Some(target())), Ok(5));
}

#[test]
fn an_expired_range_is_refused_first() {
    let id = identity();
    let mut j = job();
    j.deadline_ms = 1;
    assert_eq!(admit_lease(&j, None, None, &id), Err(RejectReason::Expired));
    assert_eq!(admit_lease_at(&j, None, None, None, &id), Err(RejectReason::Expired));
    assert_eq!(
        admit_lease_at(&j, Some(1), None, None, &id),
        Err(RejectReason::TopologyMissing)
    );
}

#[test]
fn a_range_takes_its_budget_from_the_target() {
    let (state, params) =
        prepare_lease(&job(), 5, aim(0.5), &identity(), 10, 64, Some(3), false).expect("fits");
    assert_eq!((params.num_reads, params.num_sweeps, params.sweeps_per_beta), (10, 50, 3));
    assert_eq!((state.salt_count, state.watermark, state.aborted), (5, Some(1), false));
    assert_eq!(state.progress.best_energy_milli, i64::MAX);
    let too_many = prepare_lease(&job(), 5, aim(0.5), &identity(), 9, 64, None, false);
    assert_eq!(too_many.err(), Some(RejectReason::TooLarge));
    let gibbs = BackendIdentity { algorithm: Algorithm::Gibbs, ..identity() };
    let (_, params) = prepare_lease(&job(), 5, aim(0.5), &gibbs, 10, 64, None, false).expect("fits");
    assert_eq!(params.num_sweeps, 100);
}

#[test]
fn a_range_reports_winners_then_one_end() {
    let mut state = lease(2);
    let mut expander = Expander { lease: 4, index: 0 };
    let mut ids = Vec::new();
    while expander.next_salt(&state, false, false).is_some() {
        ids.push(hand_out(&mut expander, &mut state));
    }
    assert_eq!(ids, vec![pending_id(b"lease", Some(0)), pending_id(b"lease", Some(1))]);
    assert_eq!(state.send_done().len(), 0);
    state.close();
    assert_eq!(state.send_done().len(), 0);
    let h = settle_salt(
        &mut state,
        done(StreamOutcome::Completed(Ok(vec![read(-5), read(-9)]))),
        Some(vec![1, 7]),
        vec![1; 32],
        vec![2; 32],
        2,
        10,
        false,
    );
    assert!(!h.fatal);
    let [MinerMsg::Result(r)] = h.out.as_slice() else {
        panic!("a winner and no end yet");
    };
    assert_eq!((r.job_id.as_slice(), r.salt.len(), r.nonce.len()), (b"lease".as_slice(), 32, 32));
    assert_eq!(r.solutions.len(), 1);
    assert_eq!((r.solutions[0].energy_milli, r.meta.reads, r.meta.sweeps), (-9, 2, 10));
    let h = settle_salt(
        &mut state,
        done(StreamOutcome::Completed(Ok(vec![]))),
        None,
        vec![],
        vec![],
        2,
        10,
        false,
    );
    let [MinerMsg::LeaseDone(d), MinerMsg::JobRequest(1)] = h.out.as_slice() else {
        panic!("the end of the range");
    };
    assert_eq!((d.salts_done, d.best_energy_milli), (2, -9));
    assert_eq!(state.send_done().len(), 0);
}

#[test]
fn a_cancelled_salt_finishes_without_counting() {
    let mut state = lease(1);
    let mut expander = Expander { lease: 0, index: 0 };
    let _ = hand_out(&mut expander, &mut state);
    state.close();
    let h = settle_salt(&mut state, done(StreamOutcome::Cancelled), None, vec![], vec![], 1, 1, false);
    let [MinerMsg::LeaseDone(d), MinerMsg::JobRequest(1)] = h.out.as_slice() else {
        panic!("the end of the range");
    };
    assert_eq!((d.salts_done, d.best_energy_milli), (0, i64::MAX));
}

#[test]
fn a_salt_that_was_not_sent_still_finishes() {
    let mut state = lease(1);
    let mut expander = Expander { lease: 0, index: 0 };
    let _ = hand_out(&mut expander, &mut state);
    state.close();
    assert_eq!(finish_result(&mut state).len(), 2);
}

#[test]
fn a_device_fault_aborts_the_range() {
    let mut state = lease(1);
    let mut expander = Expander { lease: 0, index: 0 };
    let _ = hand_out(&mut expander, &mut state);
    let sr = done(StreamOutcome::Completed(Err(SampleError::DeviceFault("gone".to_owned()))));
    let h = settle_salt(&mut state, sr, None, vec![], vec![], 1, 1, false);
    assert!(h.fatal);
    assert!(matches!(h.out.as_slice(), [MinerMsg::Fatal(f)] if f.exit_code == 70 && f.restart_required));
    assert!(state.aborted && state.progress.closed);
    assert_eq!(state.send_done().len(), 0);
}

#[test]
fn a_fault_in_one_range_stops_the_others() {
    let fresh = CancelToken::default();
    let mut faulty = lease(1);
    let mut other = lease(1);
    let error = SampleError::DeviceFault("gone".to_owned());
    let _ = fault(&mut faulty, &error, false);
    other.follow(faulty.aborted);
    assert!(other.stopped(&fresh));
    other.close();
    assert!(other.send_done().is_empty());
    // A range that starts after the fault is aborted from the start, and one
    // that follows a healthy session is not.
    let prepared = prepare_lease(&job(), 1, aim(0.0), &identity(), u32::MAX, 64, None, true);
    assert!(prepared.expect("a valid range").0.aborted);
    let mut healthy = lease(1);
    healthy.follow(false);
    assert!(!healthy.stopped(&fresh));
}

#[test]
fn expansion_stops_with_the_range() {
    let state = lease(1);
    let expander = Expander { lease: 0, index: 0 };
    assert_eq!(expander.next_salt(&state, false, false), Some(0));
    assert_eq!(expander.next_salt(&state, true, false), None);
    assert_eq!(expander.next_salt(&state, false, true), None);
    let spent = Expander { lease: 0, index: 1 };
    assert_eq!(spent.next_salt(&state, false, false), None);
}

#[test]
fn a_salt_job_carries_the_range_and_its_index() {
    let mut state = lease(3);
    let mut expander = Expander { lease: 4, index: 2 };
    let drawn = draw_graph::<Fixed<i8, 1>>(vec![499, 1000], vec![0], &[(0, 1)]);
    assert!(drawn.1.is_some(), "499 thousandths do not fit whole steps");
    let params = SampleParams { num_reads: 6, num_sweeps: 7, ..SampleParams::default() };
    let salt = expander
        .hand_out_seeded(&mut state, drawn, params, Some(55), 9)
        .expect("a seed was given");
    assert_eq!(salt.job.params.seed, 55);
    assert_eq!(salt.job.watermark, Some(1));
    assert_eq!(salt.job.graph.h, vec![Fixed(0), Fixed(1)]);
    assert_eq!(salt.entry.lease, Some(LeaseLink { lease: 4, index: 2 }));
    assert_eq!(salt.entry.job_id, b"lease");
    assert_eq!((salt.entry.num_reads, salt.entry.num_sweeps, salt.entry.started_ms), (6, 7, 9));
    assert_eq!((expander.index, state.progress.dispatched), (3, 1));
    let drawn = draw_graph::<Fixed<i8, 1>>(vec![1000], vec![], &[]);
    assert!(drawn.1.is_none());
    let mut expander = Expander { lease: 4, index: 0 };
    assert!(expander.hand_out_seeded(&mut state, drawn, params, None, 9).is_none());
    assert_eq!((expander.index, state.progress.dispatched), (0, 1));
}

#[test]
fn a_range_stops_on_cancel_deadline_and_abort() {
    let mut state = lease(5);
    let mut cancel = CancelToken::default();
    assert!(!state.stopped(&cancel));
    cancel.cancel_through(1);
    assert!(state.stopped(&cancel));
    let fresh = CancelToken::default();
    state.deadline_ms = 100;
    assert!(!state.stopped_at(&fresh, Some(100)));
    assert!(state.stopped_at(&fresh, Some(101)));
    assert!(state.stopped_at(&fresh, None));
    assert!(state.stopped(&fresh));
    state.deadline_ms = 0;
    state.aborted = true;
    assert!(state.stopped(&fresh));
}

#[test]
fn a_watched_range_ends_when_it_is_stopped() {
    let mut state = lease(5);
    let (out, more) = state.watch(false, false);
    assert!(out.is_empty() && more);
    let (out, more) = state.watch(true, false);
    assert!(matches!(out.as_slice(), [MinerMsg::LeaseDone(_), MinerMsg::JobRequest(1)]));
    assert!(!more);
    let (out, more) = state.watch(true, true);
    assert!(out.is_empty() && !more);
}

#[test]
fn zeros_stand_for_an_index_out_of_range() {
    assert_eq!(or_zeros(None), vec![0; 32]);
    assert_eq!(or_zeros(Some(vec![9; 32])), vec![9; 32]);
}

#[test]
fn local_reads_are_taken_until_the_range_ends() {
    let mut state = lease(2);
    assert_eq!(push_reads(&mut state, 1, &[read(-4)], false), Ok(()));
    assert_eq!(
        (state.progress.dispatched, state.progress.salts_done, state.progress.best_energy_milli),
        (1, 1, -4)
    );
    assert_eq!(push_reads(&mut state, 2, &[], false), Err(LeaseStopped));
    assert_eq!(push_reads(&mut state, 0, &[], true), Err(LeaseStopped));
    state.close();
    assert_eq!(push_reads(&mut state, 0, &[], false), Err(LeaseStopped));
    assert_eq!(LeaseStopped.to_string(), "lease stopped");
    assert!(sink_is_stopped(&state, false, false, true));
    let open = lease(1);
    assert!(!sink_is_stopped(&open, false, false, true));
    assert!(sink_is_stopped(&open, true, false, true));
    assert!(sink_is_stopped(&open, false, true, true));
    assert!(sink_is_stopped(&open, false, false, false));
}

#[test]
fn local_winners_are_checked_on_the_host() {
    let state = lease(2);
    let g = graph();
    let (h, j) = (vec![1000, 500], vec![-1000]);
    // 1000 - 500 + 1000
    let honest = vec![read(1500)];
    assert!(reads_agree(&honest, &h, &j, &g));
    let judge = |reads: &[SamplerResult], drawn, ended, proof| {
        push_winner(
            &state,
            reads,
            drawn,
            &g,
            ended,
            proof,
            vec![1; 32],
            vec![2; 32],
            &SampleParams::default(),
        )
    };
    let drawn = || Ok((h.clone(), j.clone()));
    assert!(matches!(judge(&honest, drawn(), false, Some(vec![0])), Pushed::Winner(MinerMsg::Result(_))));
    assert!(matches!(judge(&honest, drawn(), false, None), Pushed::Kept));
    assert!(matches!(judge(&honest, drawn(), true, Some(vec![0])), Pushed::Stopped));
    for wrong in [
        read(1499),
        SamplerResult { spins: vec![1], energy_milli: 1000 },
        SamplerResult { spins: vec![3, -1], energy_milli: 5500 },
    ] {
        let Pushed::Fault(e) = judge(&[wrong], drawn(), false, Some(vec![0])) else {
            panic!("the device cannot be trusted");
        };
        assert_eq!(e.to_string(), "device fault: local lease draw disagrees with host energy");
    }
    let Pushed::Fault(e) = judge(&honest, Err("no draw".to_owned()), false, None) else {
        panic!("the host cannot draw");
    };
    assert_eq!(e.to_string(), "device fault: no draw");
}

#[test]
fn only_the_first_fault_is_reported() {
    let error = SampleError::DeviceFault("gone".to_owned());
    let mut state = lease(1);
    assert!(matches!(fault(&mut state, &error, false), Some(MinerMsg::Fatal(f)) if f.exit_code == 70));
    assert!(state.aborted && state.progress.closed);
    let mut state = lease(1);
    assert!(fault(&mut state, &error, true).is_none());
    assert!(!state.aborted && state.progress.closed);
}

#[test]
fn a_local_range_ends_when_its_backend_returns() {
    let mut state = lease(1);
    let out = finish_local(&mut state, Ok(()), false);
    assert!(matches!(out.as_slice(), [MinerMsg::LeaseDone(_), MinerMsg::JobRequest(1)]));
    let mut state = lease(1);
    let out = finish_local(&mut state, Err(SampleError::DeviceBusy), false);
    assert!(matches!(out.as_slice(), [MinerMsg::LeaseDone(_), MinerMsg::JobRequest(1)]));
    let mut state = lease(1);
    let gone = || Err(SampleError::DeviceFault("gone".to_owned()));
    let out = finish_local(&mut state, gone(), false);
    assert!(matches!(out.as_slice(), [MinerMsg::LeaseDone(_), MinerMsg::Fatal(_)]));
    // Already reported as done: only the fault is left to say.
    let out = finish_local(&mut state, gone(), false);
    assert!(matches!(out.as_slice(), [MinerMsg::Fatal(_)]));
    let out = finish_local(&mut state, gone(), true);
    assert!(out.is_empty());
}
